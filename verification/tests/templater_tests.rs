use templater::Marker;
use templater::MatchedFile;
use templater::filter_by_extension;
use templater::output_name;
use templater::render_reduce;
use templater::render_translate;
use templater::split_filename;
use templater::substitute;
use templater::translate_one;

fn file(stem: &str, content: &str) -> MatchedFile {
    MatchedFile { stem: stem.to_string(), content: content.to_string() }
}

#[test]
fn substitute_replaces_every_occurrence() {
    let r = substitute("a{{TEMPLATE}}b{{TEMPLATE}}c", Marker::Template, "X");
    assert_eq!(r, "aXbXc");
}

#[test]
fn substitute_inserts_whole_replacement() {
    let r = substitute("[{{TEMPLATE}}]", Marker::Template, "one two");
    assert_eq!(r, "[one two]");
}

#[test]
fn substitute_is_noop_when_marker_absent() {
    let r = substitute("plain text, no marker", Marker::Template, "X");
    assert_eq!(r, "plain text, no marker");
}

#[test]
fn substitute_does_not_rescan_replacement() {
    let r = substitute("{{TEMPLATE}}", Marker::Template, "{{TEMPLATE}}!");
    assert_eq!(r, "{{TEMPLATE}}!");
}

#[test]
fn substitute_treats_replacement_verbatim() {
    let r = substitute("a{{TEMPLATE}}b", Marker::Template, "$1${x}\\");
    assert_eq!(r, "a$1${x}\\b");
}

#[test]
fn substitute_text_metacharacters_are_literal() {
    let r = substitute(".*{{TEMPLATE}}[a-z]+", Marker::Template, "v");
    assert_eq!(r, ".*v[a-z]+");
}

#[test]
fn substitute_stem_marker() {
    let r = substitute("<{{STEM}}>", Marker::Stem, "file");
    assert_eq!(r, "<file>");
}

#[test]
fn substitute_stem_marker_leaves_template_marker() {
    let r = substitute("{{STEM}}: {{TEMPLATE}}", Marker::Stem, "a");
    assert_eq!(r, "a: {{TEMPLATE}}");
}

#[test]
fn substitute_empty_replacement() {
    let r = substitute("x{{TEMPLATE}}y", Marker::Template, "");
    assert_eq!(r, "xy");
}

#[test]
fn split_plain_name() {
    let (stem, ext) = split_filename("a.txt");
    assert_eq!(stem, "a");
    assert_eq!(ext, "txt");
}

#[test]
fn split_name_without_extension() {
    let (stem, ext) = split_filename("c");
    assert_eq!(stem, "c");
    assert_eq!(ext, "");
}

#[test]
fn split_hidden_file_has_no_extension() {
    let (stem, ext) = split_filename(".gitignore");
    assert_eq!(stem, ".gitignore");
    assert_eq!(ext, "");
}

#[test]
fn split_keeps_only_last_dot() {
    let (stem, ext) = split_filename("a.b.c");
    assert_eq!(stem, "a.b");
    assert_eq!(ext, "c");
}

#[test]
fn split_trailing_dot_gives_empty_extension() {
    let (stem, ext) = split_filename("foo.");
    assert_eq!(stem, "foo");
    assert_eq!(ext, "");
}

#[test]
fn filter_keeps_exact_extension_only() {
    let names = vec!["a.txt".to_string(), "b.md".to_string(), "c".to_string()];
    let kept = filter_by_extension(&names, &"txt".to_string());
    assert_eq!(kept, vec!["a.txt".to_string()]);
}

#[test]
fn filter_is_case_sensitive_and_keeps_order() {
    let names = vec![
        "one.in".to_string(),
        "two.IN".to_string(),
        "three.in".to_string(),
        "four.in.bak".to_string(),
    ];
    let kept = filter_by_extension(&names, &"in".to_string());
    assert_eq!(kept, vec!["one.in".to_string(), "three.in".to_string()]);
}

#[test]
fn filter_of_empty_extension_keeps_extensionless_names() {
    let names = vec!["a.txt".to_string(), "c".to_string(), "foo.".to_string()];
    let kept = filter_by_extension(&names, &"".to_string());
    assert_eq!(kept, vec!["c".to_string(), "foo.".to_string()]);
}

#[test]
fn translate_example() {
    let template = "Hello, {{TEMPLATE}}!";
    assert_eq!(render_translate(template, "World"), "Hello, World!");
    assert_eq!(render_translate(template, "Rust"), "Hello, Rust!");
}

#[test]
fn translate_does_not_substitute_stem_marker() {
    let r = render_translate("{{STEM}} -> {{TEMPLATE}}", "v");
    assert_eq!(r, "{{STEM}} -> v");
}

#[test]
fn translate_output_name() {
    assert_eq!(output_name("x", "out"), "x.out");
}

#[test]
fn translate_one_gives_name_and_text() {
    let (name, text) = translate_one("Hello, {{TEMPLATE}}!", "x", "World", "out");
    assert_eq!(name, "x.out");
    assert_eq!(text, "Hello, World!");
}

#[test]
fn reduce_example() {
    let files = vec![file("a", "1"), file("b", "2")];
    let r = render_reduce(
        "<ul>{{TEMPLATE}}</ul>",
        "<li>{{STEM}}: {{TEMPLATE}}</li>",
        &"out".to_string(),
        &files,
    );
    assert_eq!(r, "<ul><li>a: 1</li><li>b: 2</li></ul>");
}

#[test]
fn reduce_excludes_file_with_output_stem() {
    let files = vec![file("a", "1"), file("out", "2"), file("b", "3")];
    let r = render_reduce(
        "<ul>{{TEMPLATE}}</ul>",
        "<li>{{STEM}}: {{TEMPLATE}}</li>",
        &"out".to_string(),
        &files,
    );
    assert_eq!(r, "<ul><li>a: 1</li><li>b: 3</li></ul>");
}

#[test]
fn reduce_of_no_files_substitutes_empty_aggregate() {
    let files: Vec<MatchedFile> = Vec::new();
    let r = render_reduce("<ul>{{TEMPLATE}}</ul>", "<li>{{TEMPLATE}}</li>", &"out".to_string(), &files);
    assert_eq!(r, "<ul></ul>");
}

#[test]
fn reduce_concatenates_without_separator() {
    let files = vec![file("a", "1"), file("b", "2")];
    let r = render_reduce("{{TEMPLATE}}", "{{TEMPLATE}}", &"out".to_string(), &files);
    assert_eq!(r, "12");
}

#[test]
fn rerun_translate_is_byte_identical() {
    let a = render_translate("Hello, {{TEMPLATE}}!", "World");
    let b = render_translate("Hello, {{TEMPLATE}}!", "World");
    assert_eq!(a, b);
}

#[test]
fn rerun_reduce_is_byte_identical() {
    let files = vec![file("a", "1"), file("b", "2")];
    let a = render_reduce("<ul>{{TEMPLATE}}</ul>", "<li>{{STEM}}{{TEMPLATE}}</li>", &"out".to_string(), &files);
    let files2 = vec![file("a", "1"), file("b", "2")];
    let b = render_reduce("<ul>{{TEMPLATE}}</ul>", "<li>{{STEM}}{{TEMPLATE}}</li>", &"out".to_string(), &files2);
    assert_eq!(a, b);
}

#[test]
fn substitute_adjacent_markers() {
    let r = substitute("{{TEMPLATE}}{{TEMPLATE}}", Marker::Template, "ab");
    assert_eq!(r, "abab");
}

#[test]
fn substitute_handles_multibyte_text() {
    let r = substitute("héllo {{TEMPLATE}} wörld", Marker::Template, "déjà");
    assert_eq!(r, "héllo déjà wörld");
}

#[test]
fn split_multibyte_name() {
    let (stem, ext) = split_filename("naïve.txt");
    assert_eq!(stem, "naïve");
    assert_eq!(ext, "txt");
}

#[test]
fn split_empty_name() {
    let (stem, ext) = split_filename("");
    assert_eq!(stem, "");
    assert_eq!(ext, "");
}

#[test]
fn reduce_excludes_every_file_with_output_stem() {
    let files = vec![file("out", "1"), file("out", "2")];
    let r = render_reduce("[{{TEMPLATE}}]", "{{STEM}}", &"out".to_string(), &files);
    assert_eq!(r, "[]");
}
