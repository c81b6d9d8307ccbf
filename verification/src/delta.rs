//! The delta engine: two one-way differences between the file identifiers
//! referenced by the document and the filenames present on disk.

use vstd::prelude::*;

verus! {

/// The elements of `xs` that do not occur in `ys`, in order, duplicates kept.
/// Membership is exact equality of the character sequences; nothing is
/// normalized.
pub open spec fn seq_diff(xs: Seq<Seq<char>>, ys: Seq<Seq<char>>) -> Seq<Seq<char>>
    decreases xs.len(),
{
    if xs.len() == 0 {
        Seq::empty()
    } else if ys.contains(xs.last()) {
        seq_diff(xs.drop_last(), ys)
    } else {
        seq_diff(xs.drop_last(), ys).push(xs.last())
    }
}

/// An element lies in the difference exactly when it lies in `xs` and not in
/// `ys`.
pub proof fn lemma_diff_membership(xs: Seq<Seq<char>>, ys: Seq<Seq<char>>, x: Seq<char>)
    ensures
        seq_diff(xs, ys).contains(x) <==> (xs.contains(x) && !ys.contains(x)),
    decreases xs.len(),
{
    if xs.len() > 0 {
        lemma_diff_membership(xs.drop_last(), ys, x);
        assert(xs.contains(x) <==> (xs.drop_last().contains(x) || xs.last() == x)) by {
            if xs.contains(x) {
                let i = choose|i: int| 0 <= i < xs.len() && xs[i] == x;
                if i < xs.len() - 1 {
                    assert(xs.drop_last()[i] == x);
                }
            }
            if xs.drop_last().contains(x) {
                let i = choose|i: int| 0 <= i < xs.drop_last().len() && xs.drop_last()[i] == x;
                assert(xs[i] == x);
            }
            if xs.last() == x {
                assert(xs[xs.len() - 1] == x);
            }
        }
        if !ys.contains(xs.last()) {
            assert(seq_diff(xs, ys).contains(x) <==> (seq_diff(xs.drop_last(), ys).contains(x)
                || xs.last() == x)) by {
                let d = seq_diff(xs.drop_last(), ys);
                if seq_diff(xs, ys).contains(x) {
                    let i = choose|i: int| 0 <= i < d.push(xs.last()).len() && d.push(
                        xs.last(),
                    )[i] == x;
                    if i < d.len() {
                        assert(d[i] == x);
                    }
                }
                if d.contains(x) {
                    let i = choose|i: int| 0 <= i < d.len() && d[i] == x;
                    assert(d.push(xs.last())[i] == x);
                }
                if xs.last() == x {
                    assert(d.push(xs.last())[d.len() as int] == x);
                }
            }
        }
    }
}

/// The membership law over whole differences: `seq_diff(xs, ys)` holds, as a
/// set, exactly the elements of `xs` that `ys` lacks.
pub proof fn lemma_diff_is_set_difference(xs: Seq<Seq<char>>, ys: Seq<Seq<char>>)
    ensures
        seq_diff(xs, ys).to_set() == xs.to_set().difference(ys.to_set()),
{
    assert forall|x: Seq<char>|
        seq_diff(xs, ys).to_set().contains(x) == xs.to_set().difference(
            ys.to_set(),
        ).contains(x) by {
        lemma_diff_membership(xs, ys, x);
    }
    assert(seq_diff(xs, ys).to_set() =~= xs.to_set().difference(ys.to_set()));
}

/// The two partitions of one pass never share a file identifier, even when
/// the inputs hold duplicates.
pub proof fn lemma_deltas_disjoint(a: Seq<Seq<char>>, b: Seq<Seq<char>>)
    ensures
        seq_diff(b, a).disjoint(seq_diff(a, b)),
{
    let new = seq_diff(b, a);
    let stale = seq_diff(a, b);
    assert forall|i: int, j: int| 0 <= i < new.len() && 0 <= j < stale.len() implies new[i]
        != stale[j] by {
        lemma_diff_membership(b, a, new[i]);
        lemma_diff_membership(a, b, stale[j]);
        assert(new.contains(new[i]));
        assert(stale.contains(stale[j]));
    }
}

/// Whether some string of `v` holds exactly the characters of `s`.
pub fn contains_string(v: &Vec<String>, s: &String) -> (r: bool)
    ensures
        r == v.deep_view().contains(s@),
{
    let mut i: usize = 0;
    while i < v.len()
        invariant
            i <= v@.len(),
            forall|j: int| 0 <= j < i ==> v.deep_view()[j] != s@,
        decreases v@.len() - i,
    {
        if v[i].eq(s) {
            assert(v.deep_view()[i as int] == s@);
            return true;
        }
        i += 1;
    }
    false
}

/// Computes the pair (new, stale): `new` holds every on-disk filename in
/// `tree_filenames` that no document identifier in `node_filenames` equals,
/// `stale` every document identifier that no on-disk filename equals. Both
/// keep the order (and duplicates) of the sequence they are drawn from.
pub fn get_deltas(node_filenames: &Vec<String>, tree_filenames: &Vec<String>) -> (r: (
    Vec<String>,
    Vec<String>,
))
    ensures
        r.0.deep_view() == seq_diff(tree_filenames.deep_view(), node_filenames.deep_view()),
        r.1.deep_view() == seq_diff(node_filenames.deep_view(), tree_filenames.deep_view()),
{
    let delta_tree = diff_of(tree_filenames, node_filenames);
    let delta_node = diff_of(node_filenames, tree_filenames);
    (delta_tree, delta_node)
}

/// The executable one-way difference underlying both halves of `get_deltas`.
fn diff_of(xs: &Vec<String>, ys: &Vec<String>) -> (r: Vec<String>)
    ensures
        r.deep_view() == seq_diff(xs.deep_view(), ys.deep_view()),
{
    let mut out: Vec<String> = Vec::new();
    let mut i: usize = 0;
    while i < xs.len()
        invariant
            i <= xs@.len(),
            out.deep_view() == seq_diff(xs.deep_view().take(i as int), ys.deep_view()),
        decreases xs@.len() - i,
    {
        let inside = contains_string(ys, &xs[i]);
        if !inside {
            out.push(xs[i].clone());
        }
        proof {
            let prefix = xs.deep_view().take(i as int);
            assert(xs.deep_view().take(i + 1 as int) =~= prefix.push(xs.deep_view()[i as int]));
            assert(prefix.push(xs.deep_view()[i as int]).drop_last() =~= prefix);
        }
        i += 1;
    }
    proof {
        assert(xs.deep_view().take(xs.deep_view().len() as int) =~= xs.deep_view());
    }
    out
}

} // verus!
