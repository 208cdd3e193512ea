//! The two rendering modes: translate (one output per input file) and
//! reduce (all inputs aggregated into one output).

use vstd::prelude::*;
use vstd::string::StringExecFns;
use crate::engine::Marker;
use crate::engine::marker_text;
use crate::engine::replace_all;
use crate::engine::substitute;

verus! {

/// A directory entry kept by the file filter, with its content loaded.
pub struct MatchedFile {
    /// The file's name without its extension.
    pub stem: String,
    /// The file's text.
    pub content: String,
}

/// The mathematical value of a `MatchedFile`.
pub struct MatchedFileView {
    /// The stem's text.
    pub stem: Seq<char>,
    /// The content's text.
    pub content: Seq<char>,
}

impl View for MatchedFile {
    type V = MatchedFileView;

    open spec fn view(&self) -> MatchedFileView {
        MatchedFileView { stem: self.stem@, content: self.content@ }
    }
}

/// The views of a sequence of matched files.
pub open spec fn file_views(files: Seq<MatchedFile>) -> Seq<MatchedFileView> {
    files.map_values(|f: MatchedFile| f@)
}

/// What translate mode produces for one file: the template with every
/// `{{TEMPLATE}}` marker replaced by the file's content.  The `{{STEM}}`
/// marker is not substituted in this mode.
pub open spec fn translate_spec(template: Seq<char>, content: Seq<char>) -> Seq<char> {
    replace_all(template, marker_text(Marker::Template), content)
}

/// One aggregate fragment of reduce mode: the iteration template with every
/// `{{STEM}}` marker replaced by the file's stem, and then every
/// `{{TEMPLATE}}` marker of that intermediate text replaced by the file's
/// content.
pub open spec fn fragment_spec(
    iteration_template: Seq<char>,
    stem: Seq<char>,
    content: Seq<char>,
) -> Seq<char> {
    replace_all(
        replace_all(iteration_template, marker_text(Marker::Stem), stem),
        marker_text(Marker::Template),
        content,
    )
}

/// The concatenation, in order and with no separator, of the fragments of
/// every file whose stem differs from `dist_stem`; a file whose stem equals
/// `dist_stem` is excluded, so that an output file never aggregates itself.
pub open spec fn aggregate_spec(
    iteration_template: Seq<char>,
    dist_stem: Seq<char>,
    files: Seq<MatchedFileView>,
) -> Seq<char>
    decreases files.len(),
{
    if files.len() == 0 {
        Seq::empty()
    } else {
        aggregate_spec(iteration_template, dist_stem, files.drop_last()) + (if files.last().stem
            == dist_stem {
            Seq::<char>::empty()
        } else {
            fragment_spec(iteration_template, files.last().stem, files.last().content)
        })
    }
}

/// What reduce mode produces: the template with every `{{TEMPLATE}}` marker
/// replaced by the aggregate of all included files.
pub open spec fn reduce_spec(
    template: Seq<char>,
    iteration_template: Seq<char>,
    dist_stem: Seq<char>,
    files: Seq<MatchedFileView>,
) -> Seq<char> {
    replace_all(
        template,
        marker_text(Marker::Template),
        aggregate_spec(iteration_template, dist_stem, files),
    )
}

/// Renders the translate-mode output for one file's content.
pub fn render_translate(template: &str, content: &str) -> (r: String)
    ensures
        r@ == translate_spec(template@, content@),
{
    substitute(template, Marker::Template, content)
}

/// The name of an output file: the input's stem, a dot, and the output
/// extension.
pub fn output_name(stem: &str, dist_extension: &str) -> (r: String)
    ensures
        r@ == stem@ + "."@ + dist_extension@,
{
    let mut r = stem.to_owned();
    r.append(".");
    r.append(dist_extension);
    proof {
        assert(r@ =~= stem@ + "."@ + dist_extension@);
    }
    r
}

/// One step of translate mode: the output file's name and its rendered text
/// for one matched file.
pub fn translate_one(template: &str, stem: &str, content: &str, dist_extension: &str) -> (r: (
    String,
    String,
))
    ensures
        r.0@ == stem@ + "."@ + dist_extension@,
        r.1@ == translate_spec(template@, content@),
{
    (output_name(stem, dist_extension), render_translate(template, content))
}

/// Renders the single reduce-mode output for the given files, in their given
/// order, excluding every file whose stem equals `dist_stem`.
pub fn render_reduce(
    template: &str,
    iteration_template: &str,
    dist_stem: &String,
    files: &Vec<MatchedFile>,
) -> (r: String)
    ensures
        r@ == reduce_spec(template@, iteration_template@, dist_stem@, file_views(files@)),
{
    let mut acc = String::new();
    let mut i: usize = 0;
    proof {
        assert(file_views(files@).subrange(0, 0) =~= Seq::<MatchedFileView>::empty());
    }
    while i < files.len()
        invariant
            i <= files.len(),
            acc@ == aggregate_spec(
                iteration_template@,
                dist_stem@,
                file_views(files@).subrange(0, i as int),
            ),
        decreases files.len() - i,
    {
        let ghost acc_prev = acc@;
        let f = &files[i];
        if !f.stem.eq(dist_stem) {
            let with_stem = substitute(iteration_template, Marker::Stem, f.stem.as_str());
            let fragment = substitute(with_stem.as_str(), Marker::Template, f.content.as_str());
            acc.append(fragment.as_str());
            proof {
                assert(acc@ == acc_prev + fragment_spec(
                    iteration_template@,
                    files@[i as int]@.stem,
                    files@[i as int]@.content,
                ));
            }
        } else {
            proof {
                assert(acc@ =~= acc_prev + Seq::<char>::empty());
            }
        }
        proof {
            let views = file_views(files@);
            let sub1 = views.subrange(0, i + 1);
            assert(sub1.drop_last() =~= views.subrange(0, i as int));
            assert(sub1.last() == files@[i as int]@);
        }
        i += 1;
    }
    proof {
        assert(file_views(files@).subrange(0, files@.len() as int) =~= file_views(files@));
    }
    substitute(template, Marker::Template, acc.as_str())
}

} // verus!
