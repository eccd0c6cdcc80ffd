//! What a change in the source tree asks for: which files of the output
//! tree go, and whether the site is built again.

use vstd::prelude::*;
use crate::fsutil::bytes_eq;
use crate::order::deep;
use crate::paths::{mirror, mirrored};

verus! {

/// What happened to the paths of an event.
#[derive(Debug, Clone, Copy, PartialEq, Eq, Structural)]
pub enum Change {
    /// They were read.
    Access,
    /// They came into being.
    Create,
    /// Their content or their name changed.
    Modify,
    /// They went away.
    Remove,
    /// Anything else.
    Other,
}

/// Something that happened in the source tree.
#[derive(Debug)]
pub struct Event {
    /// What happened.
    pub kind: Change,
    /// To which paths.
    pub paths: Vec<Vec<u8>>,
}

/// What an `Event` holds.
pub struct EventView {
    pub kind: Change,
    pub paths: Seq<Seq<u8>>,
}

impl View for Event {
    type V = EventView;

    open spec fn view(&self) -> EventView {
        EventView { kind: self.kind, paths: deep(self.paths@) }
    }
}

/// Why a batch of events is given up.
#[derive(Debug, PartialEq, Eq, Structural)]
pub enum WatchError {
    /// A path of an event does not lie under the source tree.
    Outside,
}

/// What the events of a batch ask for.
#[derive(Debug)]
pub struct Cleanup {
    /// The files of the output tree to remove.
    pub remove: Vec<Vec<u8>>,
    /// Whether to build the site again.
    pub rebuild: bool,
}

/// Whether an event of this kind makes outputs stale: a change and a
/// removal do.
pub open spec fn counts(kind: Change) -> bool {
    kind == Change::Modify || kind == Change::Remove
}

/// The paths of the events that count, in the order of the events.
pub open spec fn changed(events: Seq<EventView>) -> Seq<Seq<u8>>
    decreases events.len(),
{
    if events.len() == 0 {
        Seq::empty()
    } else if counts(events.last().kind) {
        changed(events.drop_last()) + events.last().paths
    } else {
        changed(events.drop_last())
    }
}

/// The places in the output tree `dist` that mirror `paths` of the source
/// tree `www`, in the order of `paths`. It speaks of paths under the source
/// tree only.
pub open spec fn mirrors(paths: Seq<Seq<u8>>, www: Seq<u8>, dist: Seq<u8>) -> Seq<Seq<u8>> {
    paths.map_values(
        |p: Seq<u8>|
            match mirrored(p, www, dist) {
                Some(dest) => dest,
                None => Seq::empty(),
            },
    )
}

/// The places of `places`, each once, where it first stands.
pub open spec fn first_of_each(places: Seq<Seq<u8>>) -> Seq<Seq<u8>>
    decreases places.len(),
{
    if places.len() == 0 {
        places
    } else if first_of_each(places.drop_last()).contains(places.last()) {
        first_of_each(places.drop_last())
    } else {
        first_of_each(places.drop_last()).push(places.last())
    }
}

/// `first_of_each` holds every place of `places`, and each once.
pub proof fn lemma_first_of_each(places: Seq<Seq<u8>>)
    ensures
        first_of_each(places).no_duplicates(),
        forall|place: Seq<u8>| first_of_each(places).contains(place) <==> places.contains(place),
    decreases places.len(),
{
    if places.len() > 0 {
        let front = places.drop_last();
        let last = places.last();
        let kept = first_of_each(front);
        lemma_first_of_each(front);
        assert forall|place: Seq<u8>| first_of_each(places).contains(place) <==> places.contains(
            place,
        ) by {
            if places.contains(place) {
                let i = choose|i: int| 0 <= i < places.len() && places[i] == place;
                if i < front.len() {
                    assert(front[i] == place);
                }
            }
            if front.contains(place) {
                let i = choose|i: int| 0 <= i < front.len() && front[i] == place;
                assert(places[i] == place);
            }
            if place == last {
                assert(places[places.len() - 1] == place);
            }
            if !kept.contains(last) {
                if kept.contains(place) {
                    let i = choose|i: int| 0 <= i < kept.len() && kept[i] == place;
                    assert(kept.push(last)[i] == place);
                }
                assert(kept.push(last)[kept.len() as int] == last);
            }
        }
    }
}

/// Whether one of `paths` lies outside the source tree.
pub open spec fn strays(paths: Seq<Seq<u8>>, www: Seq<u8>, dist: Seq<u8>) -> bool {
    exists|k: int| 0 <= k < paths.len() && #[trigger] mirrored(paths[k], www, dist) is None
}

/// Of the places found in the output tree, each with the file system's
/// word on whether it is a directory, those that are none, in their order.
pub open spec fn files_of(found: Seq<(Seq<u8>, bool)>) -> Seq<Seq<u8>>
    decreases found.len(),
{
    if found.len() == 0 {
        Seq::empty()
    } else if found.last().1 {
        files_of(found.drop_last())
    } else {
        files_of(found.drop_last()).push(found.last().0)
    }
}

/// What a list of places with their flags holds.
pub open spec fn found_view(found: Seq<(Vec<u8>, bool)>) -> Seq<(Seq<u8>, bool)> {
    found.map_values(|f: (Vec<u8>, bool)| (f.0@, f.1))
}

/// Whether an event of this kind makes outputs stale.
pub fn is_relevant(kind: Change) -> (r: bool)
    ensures
        r == counts(kind),
{
    matches!(kind, Change::Modify | Change::Remove)
}

/// Whether `path` is one of `paths`.
fn holds(paths: &Vec<Vec<u8>>, path: &[u8]) -> (r: bool)
    ensures
        r == deep(paths@).contains(path@),
{
    let mut i: usize = 0;
    while i < paths.len()
        invariant
            i <= paths.len(),
            forall|j: int| 0 <= j < i ==> deep(paths@)[j] != path@,
        decreases paths.len() - i,
    {
        if bytes_eq(paths[i].as_slice(), path) {
            assert(deep(paths@)[i as int] == path@);
            return true;
        }
        i += 1;
    }
    false
}

/// The paths of the events that count, in the order of the events.
pub fn changed_paths(events: &Vec<Event>) -> (r: Vec<Vec<u8>>)
    ensures
        deep(r@) == changed(events@.map_values(|e: Event| e@)),
{
    let ghost all = events@.map_values(|e: Event| e@);
    let mut out: Vec<Vec<u8>> = Vec::new();
    let mut i: usize = 0;
    assert(all.take(0) =~= Seq::<EventView>::empty());
    assert(deep(out@) =~= changed(all.take(0)));
    while i < events.len()
        invariant
            i <= events.len(),
            all == events@.map_values(|e: Event| e@),
            deep(out@) == changed(all.take(i as int)),
        decreases events.len() - i,
    {
        let ghost so_far = deep(out@);
        assert(all.take(i + 1).drop_last() =~= all.take(i as int));
        assert(all.take(i + 1).last() == events@[i as int]@);
        if is_relevant(events[i].kind) {
            let paths = &events[i].paths;
            let mut j: usize = 0;
            while j < paths.len()
                invariant
                    j <= paths.len(),
                    deep(out@) == so_far + deep(paths@).take(j as int),
                decreases paths.len() - j,
            {
                let ghost before = deep(out@);
                let path = paths[j].clone();
                assert(path@ == deep(paths@)[j as int]);
                out.push(path);
                assert(deep(out@) =~= before.push(path@));
                assert(deep(paths@).take(j + 1) =~= deep(paths@).take(j as int).push(path@));
                assert(deep(out@) =~= so_far + deep(paths@).take(j + 1));
                j += 1;
            }
            assert(deep(paths@).take(paths.len() as int) =~= deep(paths@));
        }
        i += 1;
    }
    assert(all.take(events.len() as int) =~= all);
    out
}

/// The places in the output tree `dist` that mirror `paths` of the source
/// tree `www`, each once, in the order in which they first come. A path
/// outside the source tree gives the whole list up.
pub fn outputs_of(paths: &Vec<Vec<u8>>, www: &[u8], dist: &[u8]) -> (r: Result<
    Vec<Vec<u8>>,
    WatchError,
>)
    ensures
        match r {
            Ok(targets) => {
                &&& !strays(deep(paths@), www@, dist@)
                &&& deep(targets@) == first_of_each(mirrors(deep(paths@), www@, dist@))
            },
            Err(why) => why == WatchError::Outside && strays(deep(paths@), www@, dist@),
        },
{
    let ghost all = deep(paths@);
    let ghost places = mirrors(all, www@, dist@);
    let mut out: Vec<Vec<u8>> = Vec::new();
    let mut i: usize = 0;
    assert(places.take(0) =~= Seq::<Seq<u8>>::empty());
    assert(deep(out@) =~= first_of_each(places.take(0)));
    while i < paths.len()
        invariant
            i <= paths.len(),
            all == deep(paths@),
            places == mirrors(all, www@, dist@),
            !strays(all.take(i as int), www@, dist@),
            deep(out@) == first_of_each(places.take(i as int)),
        decreases paths.len() - i,
    {
        let ghost seen = all.take(i as int);
        let ghost next = all.take(i + 1);
        let ghost before = deep(out@);
        assert(all[i as int] == paths@[i as int]@);
        match mirror(paths[i].as_slice(), www, dist) {
            None => {
                assert(mirrored(all[i as int], www@, dist@) is None);
                return Err(WatchError::Outside);
            },
            Some(dest) => {
                let ghost d = dest@;
                assert(places[i as int] == d);
                assert(places.take(i + 1).drop_last() =~= places.take(i as int));
                assert(places.take(i + 1).last() == d);
                if !holds(&out, dest.as_slice()) {
                    out.push(dest);
                    assert(deep(out@) =~= before.push(d));
                }
                assert(!strays(next, www@, dist@)) by {
                    if strays(next, www@, dist@) {
                        let k = choose|k: int|
                            0 <= k < next.len() && #[trigger] mirrored(next[k], www@, dist@)
                                is None;
                        assert(seen[k] == next[k]);
                    }
                }
            },
        }
        i += 1;
    }
    assert(all.take(paths.len() as int) =~= all);
    assert(places.take(paths.len() as int) =~= places);
    Ok(out)
}

/// Decides what goes and whether the site is built again, for the places
/// `found` in the output tree, each with the file system's word on whether
/// it is a directory: the places that are no directories go, and the site
/// is built again if there is at least one of them.
pub fn cleanup(found: Vec<(Vec<u8>, bool)>) -> (r: Cleanup)
    ensures
        deep(r.remove@) == files_of(found_view(found@)),
        r.rebuild == (files_of(found_view(found@)).len() > 0),
{
    let ghost all = found_view(found@);
    let mut remove: Vec<Vec<u8>> = Vec::new();
    let mut i: usize = 0;
    assert(all.take(0) =~= Seq::<(Seq<u8>, bool)>::empty());
    assert(deep(remove@) =~= files_of(all.take(0)));
    while i < found.len()
        invariant
            i <= found.len(),
            all == found_view(found@),
            deep(remove@) == files_of(all.take(i as int)),
        decreases found.len() - i,
    {
        let ghost before = deep(remove@);
        assert(all.take(i + 1).drop_last() =~= all.take(i as int));
        assert(all.take(i + 1).last() == all[i as int]);
        if !found[i].1 {
            remove.push(found[i].0.clone());
            assert(deep(remove@) =~= before.push(all[i as int].0));
        }
        i += 1;
    }
    assert(all.take(found.len() as int) =~= all);
    let rebuild = remove.len() > 0;
    Cleanup { remove, rebuild }
}

/// The places in the output tree `dist` that the events make stale: those
/// that mirror a path of an event that counts, each once, in the order in
/// which they first come. A path outside the source tree `www` gives the
/// whole batch up.
pub fn process_events(events: &Vec<Event>, www: &[u8], dist: &[u8]) -> (r: Result<
    Vec<Vec<u8>>,
    WatchError,
>)
    ensures
        match r {
            Ok(targets) => {
                &&& !strays(changed(events@.map_values(|e: Event| e@)), www@, dist@)
                &&& deep(targets@) == first_of_each(
                    mirrors(changed(events@.map_values(|e: Event| e@)), www@, dist@),
                )
            },
            Err(why) => why == WatchError::Outside && strays(
                changed(events@.map_values(|e: Event| e@)),
                www@,
                dist@,
            ),
        },
{
    let paths = changed_paths(events);
    outputs_of(&paths, www, dist)
}

} // verus!
