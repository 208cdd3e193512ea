//! The placeholder engine: literal, non-overlapping, single-pass
//! replacement of a fixed marker inside a text.

use vstd::prelude::*;

verus! {

/// The two fixed placeholder tokens recognized in template text.
#[derive(Clone, Copy, PartialEq, Eq, Structural, Debug)]
pub enum Marker {
    /// The literal token `{{TEMPLATE}}`: stands for file or aggregate content.
    Template,
    /// The literal token `{{STEM}}`: stands for a matched file's stem.
    Stem,
}

/// The literal text of a marker.
pub open spec fn marker_text(m: Marker) -> Seq<char> {
    match m {
        Marker::Template => "{{TEMPLATE}}"@,
        Marker::Stem => "{{STEM}}"@,
    }
}

/// Replacement of every non-overlapping literal occurrence of `marker` in
/// `text` by `repl`, scanning left to right in a single pass: the replacement
/// text is never re-scanned, and after a match the scan resumes just past it.
/// An empty marker never matches.
pub open spec fn replace_all(text: Seq<char>, marker: Seq<char>, repl: Seq<char>) -> Seq<char>
    decreases text.len(),
{
    if marker.len() == 0 || text.len() < marker.len() {
        text
    } else if text.subrange(0, marker.len() as int) == marker {
        repl + replace_all(text.skip(marker.len() as int), marker, repl)
    } else {
        seq![text[0]] + replace_all(text.skip(1), marker, repl)
    }
}

/// How many non-overlapping occurrences of `marker` the single left-to-right
/// scan of `text` finds (the occurrences that `replace_all` replaces).
pub open spec fn count_matches(text: Seq<char>, marker: Seq<char>) -> nat
    decreases text.len(),
{
    if marker.len() == 0 || text.len() < marker.len() {
        0
    } else if text.subrange(0, marker.len() as int) == marker {
        1 + count_matches(text.skip(marker.len() as int), marker)
    } else {
        count_matches(text.skip(1), marker)
    }
}

/// `marker` occurs in `text` starting at position `i`.
pub open spec fn occurs_at(text: Seq<char>, marker: Seq<char>, i: int) -> bool {
    0 <= i && i + marker.len() <= text.len() && text.subrange(i, i + marker.len() as int)
        == marker
}

/// Relies on regex: `Regex::new` on the escaped literal `{{TEMPLATE}}`
/// compiles (a fixed, valid, 20-byte pattern), and `replace_all` with
/// `NoExpand` replaces the non-overlapping leftmost occurrences of that
/// literal with the replacement text verbatim.
#[verifier::external_body]
fn regex_substitute_template(text: &str, repl: &str) -> (r: String)
    ensures
        r@ == replace_all(text@, "{{TEMPLATE}}"@, repl@),
{
    let pattern = regex::escape("{{TEMPLATE}}");
    let re = regex::Regex::new(&pattern).unwrap();
    re.replace_all(text, regex::NoExpand(repl)).into_owned()
}

/// Relies on regex: `Regex::new` on the escaped literal `{{STEM}}` compiles
/// (a fixed, valid, 12-byte pattern), and `replace_all` with `NoExpand`
/// replaces the non-overlapping leftmost occurrences of that literal with the
/// replacement text verbatim.
#[verifier::external_body]
fn regex_substitute_stem(text: &str, repl: &str) -> (r: String)
    ensures
        r@ == replace_all(text@, "{{STEM}}"@, repl@),
{
    let pattern = regex::escape("{{STEM}}");
    let re = regex::Regex::new(&pattern).unwrap();
    re.replace_all(text, regex::NoExpand(repl)).into_owned()
}

/// Replaces every occurrence of the given marker in `text` by `repl`,
/// left to right, without re-scanning the replacement text.
pub fn substitute(text: &str, marker: Marker, repl: &str) -> (r: String)
    ensures
        r@ == replace_all(text@, marker_text(marker), repl@),
{
    match marker {
        Marker::Template => regex_substitute_template(text, repl),
        Marker::Stem => regex_substitute_stem(text, repl),
    }
}

} // verus!
