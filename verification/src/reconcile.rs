use vstd::prelude::*;
use crate::codec::{parse_file_list, render_file_list, render_file_list_text};
use vstd::string::{StrSliceExecFns, StringExecFns};

verus! {

/// Whether a list of names holds one with exactly these characters.
pub fn contains_string(v: &Vec<String>, s: &String) -> (r: bool)
    ensures
        r == v.deep_view().contains(s@),
{
    let n = v.len();
    for i in 0..n
        invariant
            n == v.len(),
            forall|k: int| 0 <= k < i ==> v.deep_view()[k] != s@,
    {
        if v[i] == *s {
            proof {
                assert(v.deep_view()[i as int] == s@);
            }
            return true;
        }
    }
    false
}

/// The file names present in the candidate list but absent from the
/// reference list, compared case-sensitively by exact name, each name kept
/// once, in the order of its first appearance in the candidate list.
pub open spec fn unique_diff(candidate: Seq<Seq<char>>, reference: Seq<Seq<char>>) -> Seq<
    Seq<char>,
>
    decreases candidate.len(),
{
    if candidate.len() == 0 {
        Seq::empty()
    } else {
        let pre = unique_diff(candidate.drop_last(), reference);
        let x = candidate.last();
        if !reference.contains(x) && !pre.contains(x) {
            pre.push(x)
        } else {
            pre
        }
    }
}

/// Reconciliation is a true set difference: a name is reported exactly when
/// the candidate tree has it and the reference tree does not.
pub proof fn lemma_unique_diff_membership(candidate: Seq<Seq<char>>, reference: Seq<Seq<char>>)
    ensures
        forall|x: Seq<char>|
            #[trigger] unique_diff(candidate, reference).contains(x) <==> (candidate.contains(x)
                && !reference.contains(x)),
    decreases candidate.len(),
{
    if candidate.len() > 0 {
        lemma_unique_diff_membership(candidate.drop_last(), reference);
        let pre = unique_diff(candidate.drop_last(), reference);
        let last = candidate.last();
        let d = unique_diff(candidate, reference);
        assert forall|x: Seq<char>|
            #[trigger] d.contains(x) <==> (candidate.contains(x) && !reference.contains(x)) by {
            assert(candidate.drop_last().len() == candidate.len() - 1);
            assert(candidate.contains(x) <==> (candidate.drop_last().contains(x) || x == last))
                by {
                if candidate.contains(x) {
                    let k = choose|k: int| 0 <= k < candidate.len() && candidate[k] == x;
                    if k < candidate.len() - 1 {
                        assert(candidate.drop_last()[k] == x);
                    }
                }
                if candidate.drop_last().contains(x) {
                    let k = choose|k: int|
                        0 <= k < candidate.drop_last().len() && candidate.drop_last()[k] == x;
                    assert(candidate[k] == x);
                }
                if x == last {
                    assert(candidate[candidate.len() - 1] == x);
                }
            }
            if !reference.contains(last) && !pre.contains(last) {
                assert(d == pre.push(last));
                assert(d.contains(x) <==> (pre.contains(x) || x == last)) by {
                    if d.contains(x) {
                        let k = choose|k: int| 0 <= k < d.len() && d[k] == x;
                        if k < pre.len() {
                            assert(pre[k] == x);
                        }
                    }
                    if pre.contains(x) {
                        let k = choose|k: int| 0 <= k < pre.len() && pre[k] == x;
                        assert(d[k] == x);
                    }
                    if x == last {
                        assert(d[d.len() - 1] == x);
                    }
                }
            } else {
                assert(d == pre);
            }
        }
    }
}

/// The reconciliation report never holds the same name twice, however many
/// times the candidate tree repeats it.
pub proof fn lemma_unique_diff_distinct(candidate: Seq<Seq<char>>, reference: Seq<Seq<char>>)
    ensures
        unique_diff(candidate, reference).no_duplicates(),
    decreases candidate.len(),
{
    if candidate.len() > 0 {
        lemma_unique_diff_distinct(candidate.drop_last(), reference);
        let pre = unique_diff(candidate.drop_last(), reference);
        let last = candidate.last();
        let d = unique_diff(candidate, reference);
        if !reference.contains(last) && !pre.contains(last) {
            assert forall|i: int, j: int| 0 <= i < j < d.len() implies d[i] != d[j] by {
                if j < pre.len() {
                    assert(pre[i] != pre[j]);
                } else {
                    assert(d[j] == last);
                    assert(d[i] == pre[i]);
                    assert(!pre.contains(last));
                    if pre[i] == last {
                        assert(pre.contains(last));
                    }
                }
            }
        }
    }
}

/// Reconciliation computes the set difference of the two trees' file names:
/// the report's names form exactly the candidate names minus the reference
/// names, and no name is reported twice.
pub proof fn lemma_reconciliation_set_difference(
    candidate: Seq<Seq<char>>,
    reference: Seq<Seq<char>>,
)
    ensures
        unique_diff(candidate, reference).to_set() =~= candidate.to_set().difference(
            reference.to_set(),
        ),
        unique_diff(candidate, reference).no_duplicates(),
{
    lemma_unique_diff_membership(candidate, reference);
    lemma_unique_diff_distinct(candidate, reference);
}

/// Reports every file name found in the candidate tree but not in the
/// reference tree: exact, case-sensitive comparison, first occurrences only,
/// in candidate order.
pub fn unique_files(candidate: &Vec<String>, reference: &Vec<String>) -> (unique: Vec<String>)
    ensures
        unique.deep_view() == unique_diff(candidate.deep_view(), reference.deep_view()),
{
    let mut unique: Vec<String> = Vec::new();
    let n = candidate.len();
    for i in 0..n
        invariant
            n == candidate.len(),
            unique.deep_view() == unique_diff(
                candidate.deep_view().take(i as int),
                reference.deep_view(),
            ),
    {
        let ghost cv = candidate.deep_view();
        let ghost pre = unique.deep_view();
        let in_reference = contains_string(reference, &candidate[i]);
        let in_report = contains_string(&unique, &candidate[i]);
        proof {
            assert(cv.take(i + 1).drop_last() =~= cv.take(i as int));
            assert(cv.take(i + 1).last() == cv[i as int]);
        }
        if !in_reference && !in_report {
            unique.push(candidate[i].clone());
            proof {
                assert(unique.deep_view() =~= pre.push(cv[i as int]));
            }
        }
    }
    assert(candidate.deep_view().take(n as int) =~= candidate.deep_view());
    unique
}

/// Renders the reconciliation report: the candidate tree's unique files as
/// the persisted JSON document, whose text provably loads back to exactly
/// that list.
pub fn write_unique_files(candidate: &Vec<String>, reference: &Vec<String>) -> (text: String)
    ensures
        text@ == render_file_list_text(
            unique_diff(candidate.deep_view(), reference.deep_view()),
        ),
        parse_file_list(text@) == Some(
            unique_diff(candidate.deep_view(), reference.deep_view()),
        ),
{
    let unique = unique_files(candidate, reference);
    render_file_list(&unique)
}

/// The index of the last dot of a file name, or -1 when it has none.
pub open spec fn last_dot(name: Seq<char>) -> int
    decreases name.len(),
{
    if name.len() == 0 {
        -1
    } else if name.last() == '.' {
        name.len() - 1
    } else {
        last_dot(name.drop_last())
    }
}

/// The extension of a file name: what follows its last dot, unless the name
/// has no dot or its only dot is its leading character (a hidden file).
pub open spec fn spec_extension_of(name: Seq<char>) -> Option<Seq<char>> {
    let d = last_dot(name);
    if d <= 0 {
        None
    } else {
        Some(name.skip(d + 1))
    }
}

proof fn lemma_last_dot_at(name: Seq<char>, d: int)
    requires
        0 <= d < name.len(),
        name[d] == '.',
        forall|t: int| d < t < name.len() ==> name[t] != '.',
    ensures
        last_dot(name) == d,
    decreases name.len(),
{
    if d == name.len() - 1 {
    } else {
        assert(name.last() != '.');
        assert(name.drop_last()[d] == '.');
        lemma_last_dot_at(name.drop_last(), d);
    }
}

proof fn lemma_last_dot_none(name: Seq<char>)
    requires
        forall|t: int| 0 <= t < name.len() ==> name[t] != '.',
    ensures
        last_dot(name) == -1,
    decreases name.len(),
{
    if name.len() > 0 {
        lemma_last_dot_none(name.drop_last());
    }
}

/// The extension of one file name, as `spec_extension_of` states it.
pub fn extension_of(name: &String) -> (r: Option<String>)
    ensures
        r.deep_view() == spec_extension_of(name@),
{
    let s = name.as_str();
    let len = s.unicode_len();
    let mut k = len;
    while k > 0
        invariant
            len == s@.len(),
            s@ == name@,
            k <= len,
            forall|t: int| k <= t < len ==> s@[t] != '.',
        decreases k,
    {
        k = k - 1;
        if s.get_char(k) == '.' {
            proof {
                lemma_last_dot_at(name@, k as int);
            }
            if k == 0 {
                return None;
            }
            let ext = s.substring_char(k + 1, len);
            let ext_string = String::from_str(ext);
            proof {
                assert(ext_string@ =~= name@.skip(k + 1));
            }
            return Some(ext_string);
        }
    }
    proof {
        lemma_last_dot_none(name@);
    }
    None
}

/// The distinct extensions of a list of file names, each kept once, in the
/// order of its first appearance; names without an extension contribute
/// nothing.
pub open spec fn unique_extensions(files: Seq<Seq<char>>) -> Seq<Seq<char>>
    decreases files.len(),
{
    if files.len() == 0 {
        Seq::empty()
    } else {
        let pre = unique_extensions(files.drop_last());
        match spec_extension_of(files.last()) {
            Some(e) => if pre.contains(e) {
                pre
            } else {
                pre.push(e)
            },
            None => pre,
        }
    }
}

/// Collects the distinct extensions of a file-name list, in first-appearance
/// order.
pub fn read_extensions(files: &Vec<String>) -> (exts: Vec<String>)
    ensures
        exts.deep_view() == unique_extensions(files.deep_view()),
{
    let mut exts: Vec<String> = Vec::new();
    let n = files.len();
    for i in 0..n
        invariant
            n == files.len(),
            exts.deep_view() == unique_extensions(files.deep_view().take(i as int)),
    {
        let ghost fv = files.deep_view();
        let ghost pre = exts.deep_view();
        proof {
            assert(fv.take(i + 1).drop_last() =~= fv.take(i as int));
            assert(fv.take(i + 1).last() == fv[i as int]);
        }
        match extension_of(&files[i]) {
            Some(ext) => {
                let seen = contains_string(&exts, &ext);
                if !seen {
                    exts.push(ext);
                    proof {
                        assert(unique_extensions(fv.take(i + 1)) =~= pre.push(
                            spec_extension_of(fv[i as int])->Some_0,
                        ));
                        assert(exts.deep_view() =~= unique_extensions(fv.take(i + 1)));
                    }
                }
            },
            None => {},
        }
    }
    assert(files.deep_view().take(n as int) =~= files.deep_view());
    exts
}

} // verus!
