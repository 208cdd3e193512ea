//! The file filter: splitting a file name into stem and extension, and
//! keeping exactly the names whose extension equals a requested one.

use vstd::prelude::*;
use vstd::string::StrSliceExecFns;

verus! {

/// The index of the last `.` in `name` that does not stand first, or `-1`
/// when there is none.  A dot at index 0 (a hidden file such as `.bashrc`)
/// does not begin an extension.
pub open spec fn last_dot(name: Seq<char>) -> int
    decreases name.len(),
{
    if name.len() <= 1 {
        -1
    } else if name[name.len() - 1] == '.' {
        name.len() - 1
    } else {
        last_dot(name.drop_last())
    }
}

/// The file name with its extension removed; the whole name when it has no
/// extension.
pub open spec fn stem_of(name: Seq<char>) -> Seq<char> {
    if last_dot(name) == -1 {
        name
    } else {
        name.subrange(0, last_dot(name))
    }
}

/// The text after the last dot of the file name; empty when the name has no
/// extension.
pub open spec fn extension_of(name: Seq<char>) -> Seq<char> {
    if last_dot(name) == -1 {
        Seq::empty()
    } else {
        name.subrange(last_dot(name) + 1, name.len() as int)
    }
}

/// `last_dot` names the last dot not standing first, and `-1` means there is
/// no such dot.
pub proof fn lemma_last_dot(name: Seq<char>)
    ensures
        last_dot(name) == -1 ==> forall|i: int| 1 <= i < name.len() ==> name[i] != '.',
        last_dot(name) != -1 ==> 1 <= last_dot(name) < name.len() && name[last_dot(name)] == '.'
            && (forall|i: int| last_dot(name) < i < name.len() ==> name[i] != '.'),
    decreases name.len(),
{
    if name.len() <= 1 {
    } else if name[name.len() - 1] == '.' {
    } else {
        lemma_last_dot(name.drop_last());
        assert forall|i: int| 1 <= i < name.len() - 1 implies name.drop_last()[i] == name[i] by {}
    }
}

/// Splits a file name into its stem and its extension (empty when the name
/// has none), as the last dot of the name divides it.
pub fn split_filename(name: &str) -> (r: (String, String))
    ensures
        r.0@ == stem_of(name@),
        r.1@ == extension_of(name@),
{
    let n: usize = name.unicode_len();
    let mut j: usize = 1;
    let mut dot: usize = 0;
    while j < n
        invariant
            1 <= j,
            n == name@.len(),
            n > 0 ==> j <= n,
            n == 0 ==> j == 1,
            dot == 0 ==> forall|i: int| 1 <= i < j ==> name@[i] != '.',
            dot >= 1 ==> dot < j && name@[dot as int] == '.' && (forall|i: int|
                dot < i < j ==> name@[i] != '.'),
        decreases n - j,
    {
        if name.get_char(j) == '.' {
            dot = j;
        }
        j += 1;
    }
    proof {
        lemma_last_dot(name@);
    }
    if dot == 0 {
        (name.to_owned(), String::new())
    } else {
        let stem = name.substring_char(0, dot).to_owned();
        let ext = name.substring_char(dot + 1, n).to_owned();
        (stem, ext)
    }
}

/// The views of a sequence of names.
pub open spec fn name_views(names: Seq<String>) -> Seq<Seq<char>> {
    names.map_values(|s: String| s@)
}

/// The predicate that the file filter applies: the name's extension equals
/// `extension` exactly.
pub open spec fn extension_pred(extension: Seq<char>) -> spec_fn(Seq<char>) -> bool {
    |n: Seq<char>| extension_of(n) == extension
}

/// Keeps, in order, exactly the names whose extension equals `extension`:
/// a name with a different extension, or with none, is dropped.
pub fn filter_by_extension(names: &Vec<String>, extension: &String) -> (r: Vec<String>)
    ensures
        name_views(r@) == name_views(names@).filter(extension_pred(extension@)),
{
    let mut r: Vec<String> = Vec::new();
    let mut i: usize = 0;
    proof {
        reveal(Seq::filter);
        assert(name_views(r@) =~= name_views(names@).subrange(0, 0).filter(extension_pred(extension@)));
    }
    while i < names.len()
        invariant
            i <= names.len(),
            name_views(r@) == name_views(names@).subrange(0, i as int).filter(extension_pred(extension@)),
        decreases names.len() - i,
    {
        let (_stem, ext) = split_filename(names[i].as_str());
        let ghost r_prev = r@;
        if ext.eq(extension) {
            r.push(names[i].clone());
            proof {
                assert(extension_pred(extension@)(names@[i as int]@));
                assert(name_views(r@) =~= name_views(r_prev).push(names@[i as int]@));
            }
        } else {
            proof {
                assert(!extension_pred(extension@)(names@[i as int]@));
            }
        }
        proof {
            let views = name_views(names@);
            let sub0 = views.subrange(0, i as int);
            let sub1 = views.subrange(0, i + 1);
            let p = extension_pred(extension@);
            reveal(Seq::filter);
            assert(sub1.drop_last() =~= sub0);
            assert(sub1.last() == names@[i as int]@);
            assert(sub1.filter(p) == if p(names@[i as int]@) {
                sub0.filter(p).push(names@[i as int]@)
            } else {
                sub0.filter(p)
            });
        }
        i += 1;
    }
    proof {
        assert(name_views(names@).subrange(0, names@.len() as int) =~= name_views(names@));
    }
    r
}

} // verus!
