//! The order in which the entries of a directory are entered: by their
//! bytes, as a dictionary orders words by their letters.

use vstd::prelude::*;
use vstd::relations::{sorted_by, total_ordering};
use vstd::seq_lib::lemma_sorted_unique;

verus! {

/// Whether `a` comes before `b`, or is `b`: at the first place where they
/// differ `a` has the smaller byte, or `a` ends there.
pub open spec fn lex_le(a: Seq<u8>, b: Seq<u8>) -> bool
    decreases a.len(),
{
    if a.len() == 0 {
        true
    } else if b.len() == 0 {
        false
    } else if a[0] != b[0] {
        a[0] < b[0]
    } else {
        lex_le(a.drop_first(), b.drop_first())
    }
}

/// `lex_le` as a relation.
pub open spec fn byte_order() -> spec_fn(Seq<u8>, Seq<u8>) -> bool {
    |a: Seq<u8>, b: Seq<u8>| lex_le(a, b)
}

/// The byte strings that a list of paths holds.
pub open spec fn deep(paths: Seq<Vec<u8>>) -> Seq<Seq<u8>> {
    paths.map_values(|p: Vec<u8>| p@)
}

/// Whether each path of the list comes before those behind it, or is equal
/// to them.
pub open spec fn ascending(paths: Seq<Seq<u8>>) -> bool {
    forall|i: int, j: int| 0 <= i < j < paths.len() ==> lex_le(paths[i], paths[j])
}

proof fn lemma_reflexive(a: Seq<u8>)
    ensures
        lex_le(a, a),
    decreases a.len(),
{
    if a.len() > 0 {
        lemma_reflexive(a.drop_first());
    }
}

proof fn lemma_antisymmetric(a: Seq<u8>, b: Seq<u8>)
    requires
        lex_le(a, b),
        lex_le(b, a),
    ensures
        a == b,
    decreases a.len(),
{
    if a.len() == 0 || b.len() == 0 {
        assert(a =~= b);
    } else {
        lemma_antisymmetric(a.drop_first(), b.drop_first());
        assert(a =~= seq![a[0]] + a.drop_first());
        assert(b =~= seq![b[0]] + b.drop_first());
    }
}

proof fn lemma_transitive(a: Seq<u8>, b: Seq<u8>, c: Seq<u8>)
    requires
        lex_le(a, b),
        lex_le(b, c),
    ensures
        lex_le(a, c),
    decreases a.len(),
{
    if a.len() > 0 && a[0] == b[0] && b[0] == c[0] {
        lemma_transitive(a.drop_first(), b.drop_first(), c.drop_first());
    }
}

proof fn lemma_connected(a: Seq<u8>, b: Seq<u8>)
    ensures
        lex_le(a, b) || lex_le(b, a),
    decreases a.len(),
{
    if a.len() > 0 && b.len() > 0 && a[0] == b[0] {
        lemma_connected(a.drop_first(), b.drop_first());
    }
}

/// The order by bytes is total: any two byte strings compare, only equal
/// ones compare both ways, and the order carries over a middle term.
pub proof fn lemma_byte_order_total()
    ensures
        total_ordering(byte_order()),
{
    let leq = byte_order();
    assert forall|x: Seq<u8>| #[trigger] leq(x, x) by {
        lemma_reflexive(x);
    }
    assert forall|x: Seq<u8>, y: Seq<u8>| #[trigger] leq(x, y) && #[trigger] leq(y, x) implies x
        == y by {
        lemma_antisymmetric(x, y);
    }
    assert forall|x: Seq<u8>, y: Seq<u8>, z: Seq<u8>| #[trigger]
        leq(x, y) && #[trigger] leq(y, z) implies leq(x, z) by {
        lemma_transitive(x, y, z);
    }
    assert forall|x: Seq<u8>, y: Seq<u8>| #[trigger] leq(x, y) || #[trigger] leq(y, x) by {
        lemma_connected(x, y);
    }
}

/// Whether `a` comes before `b` or is `b`.
pub fn bytes_le(a: &[u8], b: &[u8]) -> (r: bool)
    ensures
        r == lex_le(a@, b@),
{
    let mut i: usize = 0;
    assert(a@.skip(0) =~= a@ && b@.skip(0) =~= b@);
    while i < a.len() && i < b.len()
        invariant
            i <= a.len(),
            i <= b.len(),
            lex_le(a@, b@) == lex_le(a@.skip(i as int), b@.skip(i as int)),
        decreases a.len() - i,
    {
        if a[i] != b[i] {
            return a[i] < b[i];
        }
        assert(a@.skip(i as int).drop_first() =~= a@.skip(i + 1));
        assert(b@.skip(i as int).drop_first() =~= b@.skip(i + 1));
        i += 1;
    }
    i == a.len()
}

/// The paths of `listed`, put in order by their bytes.
pub fn sort_paths(listed: Vec<Vec<u8>>) -> (r: Vec<Vec<u8>>)
    ensures
        deep(r@) == deep(listed@).sort_by(byte_order()),
{
    let ghost all = deep(listed@);
    let mut rest = listed;
    let mut out: Vec<Vec<u8>> = Vec::new();
    proof {
        broadcast use vstd::seq_lib::group_to_multiset_ensures;

        assert(deep(out@) =~= Seq::<Seq<u8>>::empty());
        assert(deep(out@).to_multiset().add(all.to_multiset()) =~= all.to_multiset());
    }
    while rest.len() > 0
        invariant
            ascending(deep(out@)),
            deep(out@).to_multiset().add(deep(rest@).to_multiset()) == all.to_multiset(),
        decreases rest.len(),
    {
        let ghost before_rest = deep(rest@);
        let ghost before_out = deep(out@);
        let path = rest.pop().unwrap();
        let mut at: usize = 0;
        while at < out.len() && bytes_le(out[at].as_slice(), path.as_slice())
            invariant
                at <= out.len(),
                deep(out@) == before_out,
                forall|k: int| 0 <= k < at ==> lex_le(before_out[k], path@),
            decreases out.len() - at,
        {
            at += 1;
        }
        assert(at < out.len() ==> !lex_le(before_out[at as int], path@));
        out.insert(at, path);
        proof {
            broadcast use vstd::seq_lib::group_to_multiset_ensures;

            let after_out = deep(out@);
            let after_rest = deep(rest@);
            assert(after_out =~= before_out.insert(at as int, path@));
            assert(after_rest =~= before_rest.drop_last());
            assert(before_rest =~= after_rest.push(path@));
            assert(after_out.remove(at as int) =~= before_out);
            assert(after_out.to_multiset() =~= before_out.to_multiset().insert(path@));
            assert(after_out.to_multiset().add(after_rest.to_multiset()) =~= all.to_multiset());
            assert forall|i: int, j: int| 0 <= i < j < after_out.len() implies lex_le(
                after_out[i],
                after_out[j],
            ) by {
                if j == at {
                } else if i == at {
                    // the path comes before what the scan stopped at, and so
                    // before all that follows
                    lemma_connected(before_out[at as int], path@);
                    if j - 1 > at {
                        assert(lex_le(before_out[at as int], before_out[j - 1]));
                    } else {
                        lemma_reflexive(before_out[at as int]);
                    }
                    lemma_transitive(path@, before_out[at as int], before_out[j - 1]);
                } else {
                    let bi = if i < at { i } else { i - 1 };
                    let bj = if j < at { j } else { j - 1 };
                    assert(lex_le(before_out[bi], before_out[bj]));
                }
            }
        }
    }
    proof {
        broadcast use vstd::seq_lib::group_to_multiset_ensures;

        assert(deep(rest@) =~= Seq::<Seq<u8>>::empty());
        assert(deep(out@).to_multiset() =~= all.to_multiset());
        lemma_byte_order_total();
        all.lemma_sort_by_ensures(byte_order());
        assert(sorted_by(deep(out@), byte_order()));
        lemma_sorted_unique(deep(out@), all.sort_by(byte_order()), byte_order());
    }
    out
}

} // verus!
