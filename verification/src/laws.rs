//! Proofs of the library's guarantees: substitution is exhaustive, a no-op
//! on marker-free text, self-exclusion drops exactly the designated file,
//! and each mode's output is a function of its inputs alone.

use vstd::prelude::*;
use crate::engine::count_matches;
use crate::engine::occurs_at;
use crate::engine::replace_all;
use crate::modes::MatchedFileView;
use crate::modes::aggregate_spec;
use crate::modes::reduce_spec;
use crate::modes::translate_spec;

verus! {

/// The position of the leftmost occurrence of `marker` in `text`, or `-1`
/// when there is none.
spec fn first_match(text: Seq<char>, marker: Seq<char>) -> int
    decreases text.len(),
{
    if marker.len() == 0 || text.len() < marker.len() {
        -1
    } else if text.subrange(0, marker.len() as int) == marker {
        0
    } else {
        let rest = first_match(text.skip(1), marker);
        if rest == -1 {
            -1
        } else {
            1 + rest
        }
    }
}

/// `first_match` finds the leftmost occurrence when there is one, and `-1`
/// exactly when there is none.
proof fn lemma_first_match(text: Seq<char>, marker: Seq<char>)
    requires
        marker.len() > 0,
    ensures
        first_match(text, marker) == -1 ==> forall|i: int| !occurs_at(text, marker, i),
        first_match(text, marker) != -1 ==> 0 <= first_match(text, marker) && occurs_at(
            text,
            marker,
            first_match(text, marker),
        ) && (forall|q: int| 0 <= q < first_match(text, marker) ==> !occurs_at(text, marker, q)),
    decreases text.len(),
{
    let l = marker.len() as int;
    if text.len() < marker.len() {
    } else if text.subrange(0, l) == marker {
    } else {
        lemma_first_match(text.skip(1), marker);
        assert forall|i: int| 1 <= i && i + l <= text.len() implies #[trigger] text.subrange(
            i,
            i + l,
        ) == text.skip(1).subrange(i - 1, i - 1 + l) by {
            assert(text.subrange(i, i + l) =~= text.skip(1).subrange(i - 1, i - 1 + l));
        }
        let rest = first_match(text.skip(1), marker);
        if rest == -1 {
            assert forall|i: int| !occurs_at(text, marker, i) by {
                if 1 <= i && i + l <= text.len() {
                    assert(!occurs_at(text.skip(1), marker, i - 1));
                }
            }
        } else {
            assert(occurs_at(text.skip(1), marker, rest));
            assert(occurs_at(text, marker, 1 + rest));
            assert forall|q: int| 0 <= q < 1 + rest implies !occurs_at(text, marker, q) by {
                if 1 <= q && q + l <= text.len() {
                    assert(!occurs_at(text.skip(1), marker, q - 1));
                }
            }
        }
    }
}

/// Where `marker` occurs, `replace_all` keeps the text before the leftmost
/// occurrence, puts the replacement in its place, and goes on after it.
proof fn lemma_replace_all_structure(text: Seq<char>, marker: Seq<char>, repl: Seq<char>)
    requires
        marker.len() > 0,
        first_match(text, marker) != -1,
    ensures
        replace_all(text, marker, repl) == text.subrange(0, first_match(text, marker)) + repl
            + replace_all(
            text.skip(first_match(text, marker) + marker.len()),
            marker,
            repl,
        ),
    decreases text.len(),
{
    let l = marker.len() as int;
    let p = first_match(text, marker);
    if text.len() < marker.len() {
    } else if text.subrange(0, l) == marker {
        assert(replace_all(text, marker, repl) =~= text.subrange(0, 0) + repl + replace_all(
            text.skip(l),
            marker,
            repl,
        ));
    } else {
        lemma_replace_all_structure(text.skip(1), marker, repl);
        lemma_first_match(text.skip(1), marker);
        let p1 = first_match(text.skip(1), marker);
        assert(p == 1 + p1);
        assert(text.skip(1).skip(p1 + l) =~= text.skip(p + l));
        assert(replace_all(text, marker, repl) =~= text.subrange(0, p) + repl + replace_all(
            text.skip(p + l),
            marker,
            repl,
        ));
    }
}

/// Substitution is a no-op on text in which the marker is absent: the text
/// comes back unchanged.
pub proof fn lemma_substitute_absent(text: Seq<char>, marker: Seq<char>, repl: Seq<char>)
    requires
        forall|i: int| !occurs_at(text, marker, i),
    ensures
        replace_all(text, marker, repl) == text,
    decreases text.len(),
{
    let l = marker.len() as int;
    if marker.len() == 0 || text.len() < marker.len() {
    } else if text.subrange(0, l) == marker {
        assert(occurs_at(text, marker, 0));
    } else {
        assert forall|i: int| !occurs_at(text.skip(1), marker, i) by {
            if 0 <= i && i + l <= text.len() - 1 {
                assert(text.subrange(i + 1, i + 1 + l) =~= text.skip(1).subrange(i, i + l));
                assert(!occurs_at(text, marker, i + 1));
            }
        }
        lemma_substitute_absent(text.skip(1), marker, repl);
        assert(replace_all(text, marker, repl) =~= text);
    }
}

/// Substitution is exhaustive: when the replacement text is non-empty and
/// shares no character with the marker, no occurrence of the marker is left
/// anywhere in the result.
pub proof fn lemma_substitute_exhaustive(text: Seq<char>, marker: Seq<char>, repl: Seq<char>)
    requires
        marker.len() > 0,
        repl.len() > 0,
        forall|i: int| 0 <= i < repl.len() ==> !marker.contains(repl[i]),
    ensures
        forall|k: int| !occurs_at(replace_all(text, marker, repl), marker, k),
    decreases text.len(),
{
    let l = marker.len() as int;
    let result = replace_all(text, marker, repl);
    lemma_first_match(text, marker);
    let p = first_match(text, marker);
    if p == -1 {
        lemma_substitute_absent(text, marker, repl);
    } else {
        lemma_replace_all_structure(text, marker, repl);
        let pre = text.subrange(0, p);
        let rest = replace_all(text.skip(p + l), marker, repl);
        lemma_substitute_exhaustive(text.skip(p + l), marker, repl);
        assert forall|k: int| !occurs_at(result, marker, k) by {
            if 0 <= k && k + l <= result.len() {
                if k + l <= p {
                    assert(result.subrange(k, k + l) =~= text.subrange(k, k + l));
                    assert(occurs_at(result, marker, k) ==> occurs_at(text, marker, k));
                } else if k < p + repl.len() {
                    let j: int = if k >= p {
                        k
                    } else {
                        p
                    };
                    assert(result[j] == repl[j - p]);
                    if occurs_at(result, marker, k) {
                        assert(result.subrange(k, k + l)[j - k] == marker[j - k]);
                        assert(marker.contains(repl[j - p]));
                    }
                } else {
                    let k1 = k - p - repl.len();
                    assert(result.subrange(k, k + l) =~= rest.subrange(k1, k1 + l));
                    assert(!occurs_at(rest, marker, k1));
                }
            }
        }
    }
}

/// Substitution inserts exactly one copy of the replacement for each
/// occurrence of the marker: the result's length grows by the difference of
/// the two lengths, once per occurrence.
pub proof fn lemma_substitute_count(text: Seq<char>, marker: Seq<char>, repl: Seq<char>)
    ensures
        replace_all(text, marker, repl).len() + count_matches(text, marker) * marker.len()
            == text.len() + count_matches(text, marker) * repl.len(),
    decreases text.len(),
{
    let l = marker.len() as int;
    if marker.len() == 0 || text.len() < marker.len() {
        assert(count_matches(text, marker) == 0);
        assert(count_matches(text, marker) * marker.len() == 0) by (nonlinear_arith)
            requires
                count_matches(text, marker) == 0,
        ;
        assert(count_matches(text, marker) * repl.len() == 0) by (nonlinear_arith)
            requires
                count_matches(text, marker) == 0,
        ;
    } else if text.subrange(0, l) == marker {
        lemma_substitute_count(text.skip(l), marker, repl);
        let n = count_matches(text.skip(l), marker);
        assert(count_matches(text, marker) == n + 1);
        assert(replace_all(text, marker, repl).len() == repl.len() + replace_all(
            text.skip(l),
            marker,
            repl,
        ).len());
        assert((n + 1) * marker.len() == n * marker.len() + marker.len()) by (nonlinear_arith);
        assert((n + 1) * repl.len() == n * repl.len() + repl.len()) by (nonlinear_arith);
    } else {
        lemma_substitute_count(text.skip(1), marker, repl);
        assert(count_matches(text, marker) == count_matches(text.skip(1), marker));
        assert(replace_all(text, marker, repl).len() == 1 + replace_all(
            text.skip(1),
            marker,
            repl,
        ).len());
    }
}

/// The marker is absent from a text exactly when the single left-to-right
/// scan finds no occurrence to replace.
pub proof fn lemma_count_zero_iff_absent(text: Seq<char>, marker: Seq<char>)
    requires
        marker.len() > 0,
    ensures
        count_matches(text, marker) == 0 <==> (forall|i: int| !occurs_at(text, marker, i)),
    decreases text.len(),
{
    let l = marker.len() as int;
    if text.len() < marker.len() {
    } else if text.subrange(0, l) == marker {
        assert(occurs_at(text, marker, 0));
    } else {
        lemma_count_zero_iff_absent(text.skip(1), marker);
        assert forall|i: int| 1 <= i && i + l <= text.len() implies #[trigger] text.subrange(
            i,
            i + l,
        ) == text.skip(1).subrange(i - 1, i - 1 + l) by {
            assert(text.subrange(i, i + l) =~= text.skip(1).subrange(i - 1, i - 1 + l));
        }
        if count_matches(text, marker) == 0 {
            assert forall|i: int| !occurs_at(text, marker, i) by {
                if 1 <= i && i + l <= text.len() {
                    assert(!occurs_at(text.skip(1), marker, i - 1));
                }
            }
        } else {
            let i = choose|i: int| occurs_at(text.skip(1), marker, i);
            assert(occurs_at(text, marker, i + 1));
        }
    }
}

/// Self-exclusion: a file whose stem equals the output's stem contributes
/// nothing to the aggregate, which is the same as if the file were not there.
pub proof fn lemma_self_exclusion(
    iteration_template: Seq<char>,
    dist_stem: Seq<char>,
    files: Seq<MatchedFileView>,
    i: int,
)
    requires
        0 <= i < files.len(),
        files[i].stem == dist_stem,
    ensures
        aggregate_spec(iteration_template, dist_stem, files) == aggregate_spec(
            iteration_template,
            dist_stem,
            files.remove(i),
        ),
    decreases files.len(),
{
    if i == files.len() - 1 {
        assert(files.remove(i) =~= files.drop_last());
        assert(aggregate_spec(iteration_template, dist_stem, files) =~= aggregate_spec(
            iteration_template,
            dist_stem,
            files.drop_last(),
        ));
    } else {
        lemma_self_exclusion(iteration_template, dist_stem, files.drop_last(), i);
        assert(files.remove(i).drop_last() =~= files.drop_last().remove(i));
        assert(files.remove(i).last() == files.last());
    }
}

/// Translate mode is deterministic: two runs on unchanged inputs yield
/// byte-identical output text.
pub proof fn lemma_translate_deterministic(
    template: Seq<char>,
    content: Seq<char>,
    r1: Seq<char>,
    r2: Seq<char>,
)
    requires
        r1 == translate_spec(template, content),
        r2 == translate_spec(template, content),
    ensures
        r1 == r2,
{
}

/// Reduce mode is deterministic: two runs on unchanged inputs yield
/// byte-identical output text.
pub proof fn lemma_reduce_deterministic(
    template: Seq<char>,
    iteration_template: Seq<char>,
    dist_stem: Seq<char>,
    files: Seq<MatchedFileView>,
    r1: Seq<char>,
    r2: Seq<char>,
)
    requires
        r1 == reduce_spec(template, iteration_template, dist_stem, files),
        r2 == reduce_spec(template, iteration_template, dist_stem, files),
    ensures
        r1 == r2,
{
}

} // verus!

