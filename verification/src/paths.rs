//! Where the site lives: the source tree, the output tree, and how a path
//! in one is mirrored in the other.

use vstd::prelude::*;
use crate::fsutil::{
    assemble, bytes_eq, components, is_absolute, joined_all, lemma_components,
    lemma_components_concat, lemma_joined_all_is_relative, lemma_names_only, names_only,
    only_names, split, starts_at_root, SEPARATOR,
};
use crate::order::deep;

verus! {

/// `rel` taken from `base`: an absolute `rel` stands for itself, any other
/// follows `base`, with one separator between them unless `base` is empty or
/// ends in one.
pub open spec fn joined(base: Seq<u8>, rel: Seq<u8>) -> Seq<u8> {
    if is_absolute(rel) || base.len() == 0 {
        rel
    } else if base.last() == SEPARATOR {
        base + rel
    } else {
        base + seq![SEPARATOR] + rel
    }
}

/// Whether `s` begins with `prefix`.
pub open spec fn starts_with(s: Seq<u8>, prefix: Seq<u8>) -> bool {
    prefix.len() <= s.len() && s.subrange(0, prefix.len() as int) == prefix
}

/// Whether the components `comps` begin with the components `front`.
pub open spec fn begins_with(comps: Seq<Seq<u8>>, front: Seq<Seq<u8>>) -> bool {
    front.len() <= comps.len() && comps.subrange(0, front.len() as int) == front
}

/// `path` as seen from `root`: the components of `path` that follow those
/// of `root`. `None` where `path` does not lie under `root`: where its
/// components do not begin with those of `root`, or only one of the two
/// starts at the root of the file system.
pub open spec fn relative(path: Seq<u8>, root: Seq<u8>) -> Option<Seq<Seq<u8>>> {
    if is_absolute(path) == is_absolute(root) && begins_with(components(path), components(root)) {
        Some(components(path).skip(components(root).len() as int))
    } else {
        None
    }
}

/// The place in the tree under `to` that answers to `path` in the tree under
/// `from`: `to` joined with `path` as seen from `from`.
pub open spec fn mirrored(path: Seq<u8>, from: Seq<u8>, to: Seq<u8>) -> Option<Seq<u8>> {
    match relative(path, from) {
        Some(rel) => Some(joined(to, joined_all(rel))),
        None => None,
    }
}

/// The place in `tree` that `rel` names: `tree` joined with the components
/// of `rel` that name something below. A separator at the start of `rel`
/// and steps to the directory above are left out, so the place lies under
/// `tree`.
pub open spec fn within(tree: Seq<u8>, rel: Seq<u8>) -> Seq<u8> {
    joined(tree, joined_all(names_only(components(rel))))
}

/// What is placed within a tree lies under it.
pub proof fn lemma_within_stays_inside(tree: Seq<u8>, rel: Seq<u8>)
    ensures
        starts_with(within(tree, rel), tree),
{
    let comps = components(rel);
    let kept = names_only(comps);
    lemma_components(rel);
    lemma_names_only(comps);
    assert forall|i: int| 0 <= i < kept.len() implies kept[i].len() > 0 && kept[i][0]
        != SEPARATOR by {
        let k = choose|k: int| 0 <= k < comps.len() && comps[k] == kept[i];
        assert(comps[k][0] != SEPARATOR);
    }
    lemma_joined_all_is_relative(kept);
    assert(within(tree, rel).subrange(0, tree.len() as int) =~= tree);
}

/// The name of the source tree's directory.
pub open spec fn www_name() -> Seq<u8> {
    seq![119u8, 119u8, 119u8]
}

/// The name of the output tree's directory.
pub open spec fn dist_name() -> Seq<u8> {
    seq![100u8, 105u8, 115u8, 116u8]
}

/// The components of a relative path joined to a root are those of the
/// root, then its own.
pub proof fn lemma_components_of_joined(root: Seq<u8>, rel: Seq<u8>)
    requires
        root.len() > 0,
        !is_absolute(rel),
    ensures
        components(joined(root, rel)) == components(root) + components(rel),
        is_absolute(joined(root, rel)) == is_absolute(root),
{
    if root.last() == SEPARATOR {
        let front = root.drop_last();
        assert(root =~= front + seq![SEPARATOR] + Seq::<u8>::empty());
        assert(joined(root, rel) =~= front + seq![SEPARATOR] + rel);
        lemma_components_concat(front, Seq::<u8>::empty());
        lemma_components_concat(front, rel);
        assert(components(front) + Seq::<Seq<u8>>::empty() =~= components(front));
    } else {
        lemma_components_concat(root, rel);
    }
    assert(joined(root, rel)[0] == root[0]);
}

/// A relative path joined to a root is seen from that root as its own
/// components.
pub proof fn lemma_relative_of_joined(root: Seq<u8>, rel: Seq<u8>)
    requires
        root.len() > 0,
        !is_absolute(rel),
    ensures
        relative(joined(root, rel), root) == Some(components(rel)),
{
    lemma_components_of_joined(root, rel);
    let all = components(joined(root, rel));
    assert(all.subrange(0, components(root).len() as int) =~= components(root));
    assert(all.skip(components(root).len() as int) =~= components(rel));
}

/// What lies at `rel` in the tree `from` is mirrored in the tree `to` at
/// the components of `rel`.
pub proof fn lemma_mirror_of_joined(from: Seq<u8>, to: Seq<u8>, rel: Seq<u8>)
    requires
        from.len() > 0,
        !is_absolute(rel),
    ensures
        mirrored(joined(from, rel), from, to) == Some(joined(to, joined_all(components(rel)))),
{
    lemma_relative_of_joined(from, rel);
}

/// What is mirrored into a tree lies under it.
pub proof fn lemma_mirrored_stays_inside(path: Seq<u8>, from: Seq<u8>, to: Seq<u8>)
    requires
        mirrored(path, from, to) is Some,
    ensures
        starts_with(mirrored(path, from, to)->0, to),
{
    lemma_components(path);
    let rel = relative(path, from)->0;
    assert forall|i: int| 0 <= i < rel.len() implies rel[i].len() > 0 && rel[i][0]
        != SEPARATOR by {
        assert(rel[i] == components(path)[components(from).len() + i]);
    }
    lemma_joined_all_is_relative(rel);
    let dest = joined(to, joined_all(rel));
    assert(dest.subrange(0, to.len() as int) =~= to);
}

/// Joins `rel` to `base`.
pub fn join(base: &[u8], rel: &[u8]) -> (r: Vec<u8>)
    ensures
        r@ == joined(base@, rel@),
{
    let mut out: Vec<u8> = Vec::new();
    let absolute = rel.len() > 0 && rel[0] == SEPARATOR;
    if !absolute && base.len() > 0 {
        out.extend_from_slice(base);
        if base[base.len() - 1] != SEPARATOR {
            out.push(SEPARATOR);
        }
    }
    out.extend_from_slice(rel);
    assert(out@ =~= joined(base@, rel@));
    out
}

/// The place in `tree` that `rel` names.
pub fn place_within(tree: &[u8], rel: &[u8]) -> (r: Vec<u8>)
    ensures
        r@ == within(tree@, rel@),
        starts_with(r@, tree@),
{
    let kept = only_names(&split(rel));
    proof {
        lemma_within_stays_inside(tree@, rel@);
    }
    join(tree, assemble(false, &kept).as_slice())
}

/// `path` as seen from `root`, in components, or `None` where it does not
/// lie under it.
pub fn strip_prefix(path: &[u8], root: &[u8]) -> (r: Option<Vec<Vec<u8>>>)
    ensures
        match r {
            Some(rel) => relative(path@, root@) == Some(deep(rel@)),
            None => relative(path@, root@) is None,
        },
{
    if starts_at_root(path) != starts_at_root(root) {
        return None;
    }
    let mut whole = split(path);
    let front = split(root);
    if front.len() > whole.len() {
        return None;
    }
    let ghost all = deep(whole@);
    let mut i: usize = 0;
    while i < front.len()
        invariant
            i <= front.len() <= whole.len(),
            all == deep(whole@),
            all == components(path@),
            deep(front@) == components(root@),
            forall|j: int| 0 <= j < i ==> all[j] == deep(front@)[j],
        decreases front.len() - i,
    {
        if !bytes_eq(whole[i].as_slice(), front[i].as_slice()) {
            assert(all[i as int] != deep(front@)[i as int]);
            assert(all.subrange(0, front.len() as int)[i as int] == all[i as int]);
            assert(!begins_with(components(path@), components(root@)));
            return None;
        }
        i += 1;
    }
    assert(all.subrange(0, front.len() as int) =~= deep(front@));
    let rel = whole.split_off(front.len());
    assert(deep(rel@) =~= all.skip(front.len() as int));
    Some(rel)
}

/// The place under `to` that answers to `path` under `from`, or `None`
/// where `path` does not lie under `from`.
pub fn mirror(path: &[u8], from: &[u8], to: &[u8]) -> (r: Option<Vec<u8>>)
    ensures
        match r {
            Some(dest) => mirrored(path@, from@, to@) == Some(dest@) && starts_with(dest@, to@),
            None => mirrored(path@, from@, to@) is None,
        },
{
    match strip_prefix(path, from) {
        Some(rel) => {
            let inside = assemble(false, &rel);
            proof {
                lemma_mirrored_stays_inside(path@, from@, to@);
            }
            Some(join(to, inside.as_slice()))
        },
        None => None,
    }
}

/// The source tree of the site that lives in `root`.
pub fn www(root: &[u8]) -> (r: Vec<u8>)
    ensures
        r@ == joined(root@, www_name()),
{
    let name: [u8; 3] = [119, 119, 119];
    assert(name@ =~= www_name());
    join(root, name.as_slice())
}

/// The output tree of the site that lives in `root`.
pub fn dist(root: &[u8]) -> (r: Vec<u8>)
    ensures
        r@ == joined(root@, dist_name()),
{
    let name: [u8; 4] = [100, 105, 115, 116];
    assert(name@ =~= dist_name());
    join(root, name.as_slice())
}

} // verus!
