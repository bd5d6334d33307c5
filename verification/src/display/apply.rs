//! Applying a profile: making exactly the named outputs active.
//!
//! The interesting decision here is what is *not* sent. `SetDisplayConfig` can
//! take a full mode description, but it can also take bare paths, with a flag
//! that tells it to look the modes up in Windows' own database of past layouts.
//! Windows already remembers how each layout was arranged, so nothing about that
//! is stored a second time.

use vstd::prelude::*;

use super::ccd::{
    FixedNames, PathInfo, Topology, DISPLAYCONFIG_PATH_ACTIVE, DISPLAYCONFIG_PATH_MODE_IDX_INVALID,
};
use super::identity::{
    enumerate, first_refusal, is_listing, key_of, law_listing_is_determined, unresolved, Monitor,
    TargetKey,
};
use crate::config::{CecConfig, Config};
use crate::error::Error;
use crate::names::lemma_ascending_distinct;
use crate::seqs::{
    first_slot, first_where, lemma_first_slot_is, lemma_first_where, lemma_first_where_alike,
    lemma_first_where_is, lemma_slots_where, slots_where,
};
use crate::text::{cat2, cat3, cat4, decimal, decimal_text, join, joined, texts};
use crate::winerr::{opt_text, Answer, ERROR_SUCCESS};

verus! {

// ---------------------------------------------------------------------------
// Sets of outputs
// ---------------------------------------------------------------------------

/// What keys say.
pub open spec fn keys_of(keys: Seq<TargetKey>) -> Seq<(Seq<char>, u32)> {
    keys.map_values(|k: TargetKey| k@)
}

/// Whether two lists hold the same outputs, whatever their order and repeats.
pub open spec fn same_outputs(a: Seq<(Seq<char>, u32)>, b: Seq<(Seq<char>, u32)>) -> bool {
    a.to_set() == b.to_set()
}

// Whether a key is among others.
fn has_key(keys: &[TargetKey], key: &TargetKey) -> (r: bool)
    ensures
        r == keys_of(keys@).contains(key@),
{
    for i in 0..keys.len()
        invariant
            forall|j: int| 0 <= j < i ==> keys_of(keys@)[j] != key@,
    {
        if keys[i].same_key(key) {
            assert(keys_of(keys@)[i as int] == key@);
            return true;
        }
    }
    false
}

// Whether every one of some keys is among others.
fn all_in(a: &[TargetKey], b: &[TargetKey]) -> (r: bool)
    ensures
        r == keys_of(a@).to_set().subset_of(keys_of(b@).to_set()),
{
    for i in 0..a.len()
        invariant
            forall|j: int| 0 <= j < i ==> keys_of(b@).contains(#[trigger] keys_of(a@)[j]),
    {
        if !has_key(b, &a[i]) {
            proof {
                let k = keys_of(a@)[i as int];
                assert(keys_of(a@).to_set().contains(k));
                assert(!keys_of(b@).to_set().contains(k));
            }
            return false;
        }
    }
    assert forall|k: (Seq<char>, u32)| keys_of(a@).to_set().contains(k) implies keys_of(
        b@,
    ).to_set().contains(k) by {
        let j = choose|j: int| 0 <= j < keys_of(a@).len() && keys_of(a@)[j] == k;
        assert(keys_of(b@).contains(keys_of(a@)[j]));
    }
    true
}

/// Set equality: order-insensitive, and unbothered by repeats on either side.
pub fn same_set(a: &[TargetKey], b: &[TargetKey]) -> (r: bool)
    ensures
        r == same_outputs(keys_of(a@), keys_of(b@)),
{
    let r = all_in(a, b) && all_in(b, a);
    assert(r ==> keys_of(a@).to_set() =~= keys_of(b@).to_set());
    r
}

// ---------------------------------------------------------------------------
// The paths of a topology to be
// ---------------------------------------------------------------------------

/// Paths that can feed a wanted output. A repeated mention of an output gets
/// none: the first has them all.
pub open spec fn feeds(names: &FixedNames, desired: Seq<TargetKey>, slot: int) -> spec_fn(
    PathInfo,
) -> bool {
    |p: PathInfo|
        {
            &&& p.available()
            &&& key_of(names, p) == desired[slot]@
            &&& is_first_mention(desired, slot)
        }
}

/// Whether no earlier wanted output is the same one.
pub open spec fn is_first_mention(desired: Seq<TargetKey>, slot: int) -> bool {
    forall|e: int| 0 <= e < slot ==> (#[trigger] desired[e])@ != desired[slot]@
}

/// Paths that feed a wanted output right now.
pub open spec fn feeds_now(names: &FixedNames, desired: Seq<TargetKey>, slot: int) -> spec_fn(
    PathInfo,
) -> bool {
    |p: PathInfo| feeds(names, desired, slot)(p) && p.active()
}

/// The path on which an output that is already active stays.
pub open spec fn kept(
    paths: Seq<PathInfo>,
    names: &FixedNames,
    desired: Seq<TargetKey>,
    slot: int,
) -> int {
    first_where(paths, feeds_now(names, desired, slot))
}

/// Whether a wanted output that is already active is using a source.
pub open spec fn source_kept(
    paths: Seq<PathInfo>,
    names: &FixedNames,
    desired: Seq<TargetKey>,
    id: u32,
) -> bool {
    exists|slot: int|
        0 <= slot < desired.len() && (#[trigger] kept(paths, names, desired, slot)) < paths.len()
            && paths[kept(paths, names, desired, slot)].source_info.id == id
}

/// Whether one of some chosen paths uses a source.
pub open spec fn source_chosen(paths: Seq<PathInfo>, picks: Seq<int>, id: u32) -> bool {
    exists|k: int|
        0 <= k < picks.len() && (#[trigger] picks[k]) < paths.len()
            && paths[picks[k]].source_info.id == id
}

/// Paths that can feed a wanted output from a source that nothing uses yet.
pub open spec fn feeds_from_free(
    paths: Seq<PathInfo>,
    names: &FixedNames,
    desired: Seq<TargetKey>,
    slot: int,
    picks: Seq<int>,
) -> spec_fn(PathInfo) -> bool {
    |p: PathInfo|
        {
            &&& feeds(names, desired, slot)(p)
            &&& !source_kept(paths, names, desired, p.source_info.id)
            &&& !source_chosen(paths, picks, p.source_info.id)
        }
}

/// The path for a wanted output, with paths picked for those before it. An
/// output that is active keeps its path; another gets the first that leads to it
/// from a free source.
pub open spec fn pick(
    paths: Seq<PathInfo>,
    names: &FixedNames,
    desired: Seq<TargetKey>,
    slot: int,
    picks: Seq<int>,
) -> int {
    let stays = kept(paths, names, desired, slot);
    if stays < paths.len() {
        stays
    } else {
        first_where(paths, feeds_from_free(paths, names, desired, slot, picks))
    }
}

/// The paths picked for the first so many wanted outputs; past the end of all
/// paths where there is none.
pub open spec fn picks(
    paths: Seq<PathInfo>,
    names: &FixedNames,
    desired: Seq<TargetKey>,
    n: nat,
) -> Seq<int>
    decreases n,
{
    if n == 0 {
        Seq::empty()
    } else {
        let earlier = picks(paths, names, desired, (n - 1) as nat);
        earlier.push(pick(paths, names, desired, n - 1, earlier))
    }
}

/// A path made ready to be sent: exactly active, and without mode indices.
pub open spec fn switched_on(path: PathInfo) -> PathInfo {
    PathInfo {
        source_info: super::ccd::SourceInfo {
            mode_info_idx: DISPLAYCONFIG_PATH_MODE_IDX_INVALID,
            ..path.source_info
        },
        target_info: super::ccd::TargetInfo {
            mode_info_idx: DISPLAYCONFIG_PATH_MODE_IDX_INVALID,
            ..path.target_info
        },
        flags: DISPLAYCONFIG_PATH_ACTIVE,
    }
}

/// Paths that could be sent but whose adapter has no known device path.
pub open spec fn unroutable(names: &FixedNames) -> spec_fn(PathInfo) -> bool {
    |p: PathInfo| p.available() && names.path_of(p.target_info.adapter_id) is None
}

/// Wanted outputs to which no path leads.
pub open spec fn unconnected(
    paths: Seq<PathInfo>,
    names: &FixedNames,
    desired: Seq<TargetKey>,
) -> spec_fn(int) -> bool {
    |slot: int| first_where(paths, feeds(names, desired, slot)) >= paths.len()
}

/// Wanted outputs for which there is no source left.
pub open spec fn unsourced(
    paths: Seq<PathInfo>,
    names: &FixedNames,
    desired: Seq<TargetKey>,
) -> spec_fn(int) -> bool {
    |slot: int| picks(paths, names, desired, desired.len())[slot] >= paths.len()
}

/// How a listing is put into one line.
pub open spec fn present_line(m: Monitor) -> Seq<char> {
    m.name.labelled() + " (target "@ + decimal(m.key.target_id as nat) + ")"@
}

/// The outputs of a listing, each in words.
pub open spec fn present_lines(ms: Seq<Monitor>) -> Seq<Seq<char>> {
    ms.map_values(|m: Monitor| present_line(m))
}

/// What building the paths for wanted outputs comes to.
pub open spec fn is_build(
    r: Result<Vec<PathInfo>, Error>,
    topo: Topology,
    names: &FixedNames,
    desired: Seq<TargetKey>,
) -> bool {
    let paths = topo.paths@;
    let missing = first_slot(desired.len(), unconnected(paths, names, desired));
    let starved = first_slot(desired.len(), unsourced(paths, names, desired));
    if first_refusal(paths, names, unroutable(names)) is Some {
        r matches Err(e) && Some(e) == first_refusal(paths, names, unroutable(names))
    } else if missing < desired.len() {
        match first_refusal(paths, names, unresolved(names)) {
            Some(refusal) => r matches Err(e) && e == refusal,
            None => r matches Err(Error::NotConnected { target_id, device, present }) && {
                &&& target_id == desired[missing].target_id
                &&& device@ == desired[missing].adapter@
                &&& exists|ms: Seq<Monitor>|
                    #![trigger is_listing(ms, topo, names)]
                    is_listing(ms, topo, names) && texts(present@) == present_lines(ms)
            },
        }
    } else if starved < desired.len() {
        r matches Err(e) && e == (Error::NoFreeSource {
            target_id: desired[starved].target_id,
            wanted: desired.len() as usize,
        })
    } else {
        r matches Ok(built) && {
            &&& built@.len() == desired.len()
            &&& forall|slot: int|
                0 <= slot < desired.len() ==> #[trigger] built@[slot] == switched_on(
                    paths[picks(paths, names, desired, desired.len())[slot]],
                )
        }
    }
}

// The key of every path that is a route to an output.
fn route_keys(topo: &Topology, names: &FixedNames) -> (r: Result<Vec<Option<TargetKey>>, Error>)
    ensures
        match r {
            Ok(keys) => {
                &&& first_refusal(topo.paths@, names, unroutable(names)) is None
                &&& keys_known(keys@, topo.paths@, names)
            },
            Err(e) => first_refusal(topo.paths@, names, unroutable(names)) == Some(e),
        },
{
    let mut keys: Vec<Option<TargetKey>> = Vec::new();
    for i in 0..topo.paths.len()
        invariant
            forall|j: int| 0 <= j < i ==> !unroutable(names)(#[trigger] topo.paths@[j]),
            keys_known(keys@, topo.paths@.take(i as int), names),
    {
        let path = &topo.paths[i];
        let key = if path.target_info.target_available {
            match names.adapter_path(path.target_info.adapter_id) {
                Ok(adapter) => Some(TargetKey { adapter, target_id: path.target_info.id }),
                Err(e) => {
                    proof {
                        lemma_first_where_is(topo.paths@, unroutable(names), i as int);
                    }
                    return Err(e);
                },
            }
        } else {
            None
        };
        keys.push(key);
    }
    proof {
        lemma_first_where_is(topo.paths@, unroutable(names), topo.paths@.len() as int);
        assert(topo.paths@.take(topo.paths@.len() as int) =~= topo.paths@);
    }
    Ok(keys)
}

/// The keys of paths that are routes to outputs.
spec fn keys_known(keys: Seq<Option<TargetKey>>, paths: Seq<PathInfo>, names: &FixedNames) -> bool {
    &&& keys.len() == paths.len()
    &&& forall|i: int|
        #![trigger keys[i]]
        0 <= i < keys.len() ==> match keys[i] {
            Some(key) => paths[i].available() && key@ == key_of(names, paths[i]),
            None => !paths[i].available(),
        }
}

/// What a path for a wanted output is searched by.
spec fn fits(
    names: &FixedNames,
    desired: Seq<TargetKey>,
    slot: int,
    active_only: bool,
    used: Seq<u32>,
    p: PathInfo,
) -> bool {
    &&& feeds(names, desired, slot)(p)
    &&& active_only ==> p.active()
    &&& !used.contains(p.source_info.id)
}

// Whether a source is in use.
fn is_used(used: &Vec<u32>, id: u32) -> (r: bool)
    ensures
        r == used@.contains(id),
{
    for i in 0..used.len()
        invariant
            forall|j: int| 0 <= j < i ==> used@[j] != id,
    {
        if used[i] == id {
            return true;
        }
    }
    false
}

// The first path that fits a wanted output; the number of paths if none does.
fn find_path(
    topo: &Topology,
    keys: &Vec<Option<TargetKey>>,
    names: &FixedNames,
    desired: &[TargetKey],
    slot: usize,
    active_only: bool,
    used: &Vec<u32>,
) -> (r: usize)
    requires
        keys_known(keys@, topo.paths@, names),
        slot < desired@.len(),
    ensures
        r <= topo.paths@.len(),
        r < topo.paths@.len() ==> fits(
            names,
            desired@,
            slot as int,
            active_only,
            used@,
            topo.paths@[r as int],
        ),
        forall|j: int|
            0 <= j < r ==> !fits(
                names,
                desired@,
                slot as int,
                active_only,
                used@,
                #[trigger] topo.paths@[j],
            ),
{
    for e in 0..slot
        invariant
            slot < desired@.len(),
            forall|d: int| 0 <= d < e ==> (#[trigger] desired@[d])@ != desired@[slot as int]@,
    {
        if desired[e].same_key(&desired[slot]) {
            assert(!is_first_mention(desired@, slot as int));
            return topo.paths.len();
        }
    }
    for i in 0..topo.paths.len()
        invariant
            slot < desired@.len(),
            is_first_mention(desired@, slot as int),
            keys_known(keys@, topo.paths@, names),
            forall|j: int|
                0 <= j < i ==> !fits(
                    names,
                    desired@,
                    slot as int,
                    active_only,
                    used@,
                    #[trigger] topo.paths@[j],
                ),
    {
        if let Some(key) = &keys[i] {
            let path = &topo.paths[i];
            if key.same_key(&desired[slot]) && (!active_only || path.is_active()) && !is_used(
                used,
                path.source_info.id,
            ) {
                return i;
            }
        }
    }
    topo.paths.len()
}

// The picks for fewer outputs are the first of those for more.
proof fn lemma_picks_prefix(
    paths: Seq<PathInfo>,
    names: &FixedNames,
    desired: Seq<TargetKey>,
    m: nat,
    n: nat,
)
    requires
        m <= n,
    ensures
        picks(paths, names, desired, n).len() == n,
        picks(paths, names, desired, m) == picks(paths, names, desired, n).take(m as int),
    decreases n,
{
    let all = picks(paths, names, desired, n);
    if n > 0 {
        lemma_picks_prefix(paths, names, desired, 0, (n - 1) as nat);
    }
    if m < n {
        lemma_picks_prefix(paths, names, desired, m, (n - 1) as nat);
        assert(all.take(m as int) =~= picks(paths, names, desired, (n - 1) as nat).take(m as int));
    } else {
        assert(all.take(m as int) =~= all);
    }
}

// The outputs of a topology, each in words.
fn present(topo: &Topology, names: &FixedNames) -> (r: Result<Vec<String>, Error>)
    ensures
        match first_refusal(topo.paths@, names, unresolved(names)) {
            Some(refusal) => r matches Err(e) && e == refusal,
            None => r matches Ok(lines) && exists|ms: Seq<Monitor>|
                #![trigger is_listing(ms, *topo, names)]
                is_listing(ms, *topo, names) && texts(lines@) == present_lines(ms),
        },
{
    let ms = match enumerate(topo, names) {
        Ok(ms) => ms,
        Err(e) => return Err(e),
    };
    let mut lines: Vec<String> = Vec::new();
    for i in 0..ms.len()
        invariant
            texts(lines@) == present_lines(ms@).take(i as int),
    {
        let label = ms[i].label();
        let id = decimal_text(ms[i].key.target_id as u128);
        let line = cat4(label.as_str(), " (target ", id.as_str(), ")");
        let ghost before = lines@;
        lines.push(line);
        assert(texts(lines@) =~= texts(before).push(line@));
        assert(present_lines(ms@).take(i + 1) =~= present_lines(ms@).take(i as int).push(
            present_line(ms@[i as int]),
        ));
    }
    assert(present_lines(ms@).take(ms@.len() as int) =~= present_lines(ms@));
    Ok(lines)
}

// Whether every wanted output has a path.
fn check_connected(
    topo: &Topology,
    keys: &Vec<Option<TargetKey>>,
    names: &FixedNames,
    desired: &[TargetKey],
) -> (r: Option<usize>)
    requires
        keys_known(keys@, topo.paths@, names),
    ensures
        match r {
            Some(slot) => slot < desired@.len() && slot == first_slot(
                desired@.len(),
                unconnected(topo.paths@, names, desired@),
            ),
            None => first_slot(desired@.len(), unconnected(topo.paths@, names, desired@))
                >= desired@.len(),
        },
{
    let unused: Vec<u32> = Vec::new();
    let ghost meets = unconnected(topo.paths@, names, desired@);
    for slot in 0..desired.len()
        invariant
            keys_known(keys@, topo.paths@, names),
            unused@.len() == 0,
            meets == unconnected(topo.paths@, names, desired@),
            forall|j: int| 0 <= j < slot ==> !#[trigger] meets(j),
    {
        let p = find_path(topo, keys, names, desired, slot, false, &unused);
        proof {
            let feeding = feeds(names, desired@, slot as int);
            assert forall|j: int| 0 <= j < p implies !feeding(#[trigger] topo.paths@[j]) by {
                assert(!fits(names, desired@, slot as int, false, unused@, topo.paths@[j]));
            }
            lemma_first_where_is(topo.paths@, feeding, p as int);
        }
        if p >= topo.paths.len() {
            proof {
                lemma_first_slot_is(desired@.len(), meets, slot as int);
            }
            return Some(slot);
        }
    }
    proof {
        lemma_first_slot_is(desired@.len(), meets, desired@.len() as int);
    }
    None
}

// The paths on which wanted outputs that are already active stay, and the
// sources that these use.
fn keep_active(
    topo: &Topology,
    keys: &Vec<Option<TargetKey>>,
    names: &FixedNames,
    desired: &[TargetKey],
) -> (r: (Vec<usize>, Vec<u32>))
    requires
        keys_known(keys@, topo.paths@, names),
    ensures
        r.0@.len() == desired@.len(),
        forall|slot: int|
            0 <= slot < desired@.len() ==> #[trigger] r.0@[slot] == kept(
                topo.paths@,
                names,
                desired@,
                slot,
            ) && r.0@[slot] <= topo.paths@.len(),
        forall|id: u32| #[trigger]
            r.1@.contains(id) <==> source_kept(topo.paths@, names, desired@, id),
{
    let unused: Vec<u32> = Vec::new();
    let mut stays: Vec<usize> = Vec::new();
    let mut used: Vec<u32> = Vec::new();
    let ghost paths = topo.paths@;
    for slot in 0..desired.len()
        invariant
            paths == topo.paths@,
            keys_known(keys@, paths, names),
            unused@.len() == 0,
            stays@.len() == slot,
            forall|s: int|
                0 <= s < slot ==> #[trigger] stays@[s] == kept(paths, names, desired@, s)
                    && stays@[s] <= paths.len(),
            forall|id: u32| #[trigger]
                used@.contains(id) <==> exists|s: int|
                    0 <= s < slot && (#[trigger] kept(paths, names, desired@, s)) < paths.len()
                        && paths[kept(paths, names, desired@, s)].source_info.id == id,
    {
        let p = find_path(topo, keys, names, desired, slot, true, &unused);
        proof {
            let feeding = feeds_now(names, desired@, slot as int);
            assert forall|j: int| 0 <= j < p implies !feeding(#[trigger] topo.paths@[j]) by {
                assert(!fits(names, desired@, slot as int, true, unused@, topo.paths@[j]));
            }
            lemma_first_where_is(topo.paths@, feeding, p as int);
        }
        let ghost before = used@;
        stays.push(p);
        if p < topo.paths.len() {
            used.push(topo.paths[p].source_info.id);
        }
        assert forall|id: u32| #[trigger] used@.contains(id) <==> exists|s: int|
            0 <= s < slot + 1 && (#[trigger] kept(paths, names, desired@, s)) < paths.len()
                && paths[kept(paths, names, desired@, s)].source_info.id == id by {
            if used@.contains(id) {
                if before.contains(id) {
                    let s = choose|s: int|
                        0 <= s < slot && (#[trigger] kept(paths, names, desired@, s)) < paths.len()
                            && paths[kept(paths, names, desired@, s)].source_info.id == id;
                    assert(0 <= s < slot + 1);
                } else {
                    let k = choose|k: int| 0 <= k < used@.len() && used@[k] == id;
                    if k < before.len() {
                        assert(before[k] == id);
                    }
                    assert(kept(paths, names, desired@, slot as int) == p);
                }
            }
            if exists|s: int|
                0 <= s < slot + 1 && (#[trigger] kept(paths, names, desired@, s)) < paths.len()
                    && paths[kept(paths, names, desired@, s)].source_info.id == id {
                let s = choose|s: int|
                    0 <= s < slot + 1 && (#[trigger] kept(paths, names, desired@, s)) < paths.len()
                        && paths[kept(paths, names, desired@, s)].source_info.id == id;
                if s < slot {
                    assert(before.contains(id));
                    let k = choose|k: int| 0 <= k < before.len() && before[k] == id;
                    assert(used@[k] == id);
                } else {
                    assert(used@[used@.len() - 1] == id);
                }
            }
        }
    }
    (stays, used)
}

/// Build the paths that describe the desired topology.
///
/// Every path is marked active with no mode indices. What is absent from these
/// paths is switched off as a consequence, so no output is marked inactive. An
/// output that is already active keeps its source, so that a swap disturbs the
/// displays that are not changing as little as possible.
pub fn build_paths(topo: &Topology, desired: &[TargetKey], names: &FixedNames) -> (r: Result<
    Vec<PathInfo>,
    Error,
>)
    ensures
        is_build(r, *topo, names, desired@),
{
    let keys = match route_keys(topo, names) {
        Ok(keys) => keys,
        Err(e) => return Err(e),
    };
    if let Some(slot) = check_connected(topo, &keys, names, desired) {
        return match present(topo, names) {
            Ok(present) => Err(
                Error::NotConnected {
                    target_id: desired[slot].target_id,
                    device: desired[slot].adapter.clone(),
                    present,
                },
            ),
            Err(e) => Err(e),
        };
    }
    let (stays, used) = keep_active(topo, &keys, names, desired);
    let mut used = used;
    let ghost paths = topo.paths@;
    let ghost meets = unsourced(paths, names, desired@);
    let mut built: Vec<PathInfo> = Vec::new();
    let ghost all = picks(paths, names, desired@, desired@.len());
    for slot in 0..desired.len()
        invariant
            paths == topo.paths@,
            keys_known(keys@, paths, names),
            all == picks(paths, names, desired@, desired@.len()),
            meets == unsourced(paths, names, desired@),
            stays@.len() == desired@.len(),
            forall|s: int|
                0 <= s < desired@.len() ==> #[trigger] stays@[s] == kept(paths, names, desired@, s)
                    && stays@[s] <= paths.len(),
            forall|j: int| 0 <= j < slot ==> !#[trigger] meets(j),
            built@.len() == slot,
            forall|j: int| 0 <= j < slot ==> #[trigger] built@[j] == switched_on(paths[all[j]]),
            forall|id: u32| #[trigger]
                used@.contains(id) <==> source_kept(paths, names, desired@, id) || source_chosen(
                    paths,
                    picks(paths, names, desired@, slot as nat),
                    id,
                ),
            first_refusal(paths, names, unroutable(names)) is None,
            first_slot(desired@.len(), unconnected(paths, names, desired@)) >= desired@.len(),
    {
        let ghost earlier = picks(paths, names, desired@, slot as nat);
        let ghost now = picks(paths, names, desired@, (slot + 1) as nat);
        let ghost before = used@;
        proof {
            lemma_picks_prefix(paths, names, desired@, (slot + 1) as nat, desired@.len());
            lemma_picks_prefix(paths, names, desired@, slot as nat, (slot + 1) as nat);
            assert(now[slot as int] == all[slot as int]);
        }
        let p = if stays[slot] < topo.paths.len() {
            stays[slot]
        } else {
            let p = find_path(topo, &keys, names, desired, slot, false, &used);
            proof {
                let free = feeds_from_free(paths, names, desired@, slot as int, earlier);
                assert forall|j: int| 0 <= j < p implies !free(#[trigger] paths[j]) by {
                    assert(!fits(names, desired@, slot as int, false, used@, paths[j]));
                    assert(used@.contains(paths[j].source_info.id) <==> source_kept(
                        paths,
                        names,
                        desired@,
                        paths[j].source_info.id,
                    ) || source_chosen(paths, earlier, paths[j].source_info.id));
                }
                if p < paths.len() {
                    assert(fits(names, desired@, slot as int, false, used@, paths[p as int]));
                    assert(!used@.contains(paths[p as int].source_info.id));
                }
                lemma_first_where_is(paths, free, p as int);
            }
            p
        };
        assert(p == all[slot as int]);
        if p >= topo.paths.len() {
            proof {
                lemma_first_slot_is(desired@.len(), meets, slot as int);
            }
            return Err(
                Error::NoFreeSource {
                    target_id: desired[slot].target_id,
                    wanted: desired.len(),
                },
            );
        }
        let mut path = topo.paths[p];
        used.push(path.source_info.id);
        proof {
            lemma_sources_in_use(paths, names, desired@, earlier, p as int, before);
        }
        // Exactly active: in particular not the flag for virtual modes, which
        // would turn the mode index into a pair of fields.
        path.flags = DISPLAYCONFIG_PATH_ACTIVE;
        path.source_info.mode_info_idx = DISPLAYCONFIG_PATH_MODE_IDX_INVALID;
        path.target_info.mode_info_idx = DISPLAYCONFIG_PATH_MODE_IDX_INVALID;
        built.push(path);
    }
    proof {
        lemma_first_slot_is(desired@.len(), meets, desired@.len() as int);
    }
    Ok(built)
}

// One path more makes one source more that is in use.
proof fn lemma_sources_in_use(
    paths: Seq<PathInfo>,
    names: &FixedNames,
    desired: Seq<TargetKey>,
    earlier: Seq<int>,
    p: int,
    used: Seq<u32>,
)
    requires
        0 <= p < paths.len(),
        forall|id: u32| #[trigger]
            used.contains(id) <==> source_kept(paths, names, desired, id) || source_chosen(
                paths,
                earlier,
                id,
            ),
    ensures
        forall|id: u32| #[trigger]
            used.push(paths[p].source_info.id).contains(id) <==> source_kept(
                paths,
                names,
                desired,
                id,
            ) || source_chosen(paths, earlier.push(p), id),
{
    let now = earlier.push(p);
    let grown = used.push(paths[p].source_info.id);
    assert forall|id: u32| #[trigger] grown.contains(id) <==> source_kept(paths, names, desired, id)
        || source_chosen(paths, now, id) by {
        if grown.contains(id) {
            let k = choose|k: int| 0 <= k < grown.len() && grown[k] == id;
            if k < used.len() {
                assert(used[k] == id);
                assert(used.contains(id));
                if source_chosen(paths, earlier, id) {
                    let c = choose|c: int|
                        0 <= c < earlier.len() && (#[trigger] earlier[c]) < paths.len()
                            && paths[earlier[c]].source_info.id == id;
                    assert(now[c] == earlier[c]);
                }
            } else {
                assert(now[earlier.len() as int] == p);
            }
        }
        if source_kept(paths, names, desired, id) || source_chosen(paths, now, id) {
            if source_kept(paths, names, desired, id) || source_chosen(paths, earlier, id) {
                assert(used.contains(id));
                let k = choose|k: int| 0 <= k < used.len() && used[k] == id;
                assert(grown[k] == id);
            } else {
                let c = choose|c: int|
                    0 <= c < now.len() && (#[trigger] now[c]) < paths.len()
                        && paths[now[c]].source_info.id == id;
                if c < earlier.len() {
                    assert(earlier[c] == now[c]);
                }
                assert(grown[used.len() as int] == id);
            }
        }
    }
}

/// Every wanted output gets a path that leads to it, in the order wanted, and
/// nothing else does.
pub proof fn law_each_wanted_output_gets_its_path(
    built: Vec<PathInfo>,
    topo: Topology,
    names: &FixedNames,
    desired: Seq<TargetKey>,
)
    requires
        is_build(Ok(built), topo, names, desired),
    ensures
        built@.len() == desired.len(),
        forall|slot: int|
            0 <= slot < desired.len() ==> {
                &&& key_of(names, #[trigger] built@[slot]) == desired[slot]@
                &&& built@[slot].available()
                &&& built@[slot].flags == DISPLAYCONFIG_PATH_ACTIVE
                &&& built@[slot].source_info.mode_info_idx == DISPLAYCONFIG_PATH_MODE_IDX_INVALID
                &&& built@[slot].target_info.mode_info_idx == DISPLAYCONFIG_PATH_MODE_IDX_INVALID
            },
{
    let paths = topo.paths@;
    assert forall|slot: int| 0 <= slot < desired.len() implies {
        &&& key_of(names, #[trigger] built@[slot]) == desired[slot]@
        &&& built@[slot].available()
    } by {
        lemma_pick_feeds(built, topo, names, desired, slot);
    }
}

// A picked path leads to its output, and if it was not in use before, then from a
// source that nothing earlier uses.
proof fn lemma_pick_feeds(
    built: Vec<PathInfo>,
    topo: Topology,
    names: &FixedNames,
    desired: Seq<TargetKey>,
    slot: int,
)
    requires
        is_build(Ok(built), topo, names, desired),
        0 <= slot < desired.len(),
    ensures
        ({
            let paths = topo.paths@;
            let all = picks(paths, names, desired, desired.len());
            &&& 0 <= all[slot] < paths.len()
            &&& feeds(names, desired, slot)(paths[all[slot]])
            &&& kept(paths, names, desired, slot) < paths.len() ==> all[slot] == kept(
                paths,
                names,
                desired,
                slot,
            )
            &&& kept(paths, names, desired, slot) >= paths.len() ==> feeds_from_free(
                paths,
                names,
                desired,
                slot,
                all.take(slot),
            )(paths[all[slot]])
        }),
{
    let paths = topo.paths@;
    let all = picks(paths, names, desired, desired.len());
    let meets = unsourced(paths, names, desired);
    let slots = Seq::new(desired.len(), |i: int| i);
    lemma_first_where(slots, meets);
    assert(slots[slot] == slot);
    assert(!meets(slots[slot]));
    lemma_picks_prefix(paths, names, desired, (slot + 1) as nat, desired.len());
    lemma_picks_prefix(paths, names, desired, slot as nat, (slot + 1) as nat);
    lemma_picks_prefix(paths, names, desired, slot as nat, desired.len());
    let earlier = picks(paths, names, desired, slot as nat);
    assert(picks(paths, names, desired, (slot + 1) as nat)[slot] == all[slot]);
    assert(all[slot] == pick(paths, names, desired, slot, earlier));
    lemma_first_where(paths, feeds_now(names, desired, slot));
    lemma_first_where(paths, feeds_from_free(paths, names, desired, slot, earlier));
}

/// An output that is already active keeps the source it is using.
pub proof fn law_an_active_output_keeps_its_source(
    built: Vec<PathInfo>,
    topo: Topology,
    names: &FixedNames,
    desired: Seq<TargetKey>,
    slot: int,
)
    requires
        is_build(Ok(built), topo, names, desired),
        0 <= slot < desired.len(),
        exists|p: int|
            0 <= p < topo.paths@.len() && feeds_now(names, desired, slot)(
                #[trigger] topo.paths@[p],
            ),
    ensures
        feeds_now(names, desired, slot)(topo.paths@[kept(topo.paths@, names, desired, slot)]),
        built@[slot] == switched_on(topo.paths@[kept(topo.paths@, names, desired, slot)]),
{
    lemma_pick_feeds(built, topo, names, desired, slot);
    lemma_first_where(topo.paths@, feeds_now(names, desired, slot));
    let p = choose|p: int|
        0 <= p < topo.paths@.len() && feeds_now(names, desired, slot)(#[trigger] topo.paths@[p]);
    if kept(topo.paths@, names, desired, slot) >= topo.paths@.len() {
        assert(!feeds_now(names, desired, slot)(topo.paths@[p]));
    }
}

/// An output that is switched on gets a source of its own. Two outputs share one
/// only where both are active on it already.
pub proof fn law_outputs_get_sources_of_their_own(
    built: Vec<PathInfo>,
    topo: Topology,
    names: &FixedNames,
    desired: Seq<TargetKey>,
    i: int,
    j: int,
)
    requires
        is_build(Ok(built), topo, names, desired),
        0 <= i < j < desired.len(),
        kept(topo.paths@, names, desired, i) >= topo.paths@.len() || kept(
            topo.paths@,
            names,
            desired,
            j,
        ) >= topo.paths@.len(),
    ensures
        built@[i].source_info.id != built@[j].source_info.id,
{
    let paths = topo.paths@;
    let all = picks(paths, names, desired, desired.len());
    lemma_pick_feeds(built, topo, names, desired, i);
    lemma_pick_feeds(built, topo, names, desired, j);
    assert(built@[i] == switched_on(paths[all[i]]));
    assert(built@[j] == switched_on(paths[all[j]]));
    if kept(paths, names, desired, j) >= paths.len() {
        lemma_picks_prefix(paths, names, desired, 0, desired.len());
        assert(all.take(j)[i] == all[i]);
        if built@[i].source_info.id == built@[j].source_info.id {
            assert(source_chosen(paths, all.take(j), built@[j].source_info.id));
        }
    } else {
        assert(kept(paths, names, desired, j) == all[j]);
        if built@[i].source_info.id == built@[j].source_info.id {
            assert(source_kept(paths, names, desired, built@[i].source_info.id));
        }
    }
}

/// Whether a path leads to an output that is there.
pub open spec fn goes_to(names: &FixedNames, key: (Seq<char>, u32), path: PathInfo) -> bool {
    path.target_info.target_available && key_of(names, path) == key
}

/// Whether a path leads to an output and is in use.
pub open spec fn in_use(names: &FixedNames, key: (Seq<char>, u32), path: PathInfo) -> bool {
    goes_to(names, key, path) && path.flags & 1u32 != 0
}

/// Whether an output is active: some path to it is in use.
pub open spec fn is_on(paths: Seq<PathInfo>, names: &FixedNames, key: (Seq<char>, u32)) -> bool {
    exists|p: int| 0 <= p < paths.len() && in_use(names, key, #[trigger] paths[p])
}

/// Whether a path that is sent is a path that was read, made active and without
/// modes, and otherwise as it was.
pub open spec fn made_active(sent: PathInfo, read: PathInfo) -> bool {
    &&& sent.flags == 1
    &&& sent.source_info.adapter_id == read.source_info.adapter_id
    &&& sent.source_info.id == read.source_info.id
    &&& sent.source_info.mode_info_idx == 0xFFFF_FFFF
    &&& sent.source_info.status_flags == read.source_info.status_flags
    &&& sent.target_info.adapter_id == read.target_info.adapter_id
    &&& sent.target_info.id == read.target_info.id
    &&& sent.target_info.mode_info_idx == 0xFFFF_FFFF
    &&& sent.target_info.output_technology == read.target_info.output_technology
    &&& sent.target_info.rotation == read.target_info.rotation
    &&& sent.target_info.scaling == read.target_info.scaling
    &&& sent.target_info.refresh_numerator == read.target_info.refresh_numerator
    &&& sent.target_info.refresh_denominator == read.target_info.refresh_denominator
    &&& sent.target_info.scan_line_ordering == read.target_info.scan_line_ordering
    &&& sent.target_info.target_available == read.target_info.target_available
    &&& sent.target_info.status_flags == read.target_info.status_flags
}

// Where a wanted output stays, in terms of the paths to it that are in use.
proof fn lemma_kept(paths: Seq<PathInfo>, names: &FixedNames, desired: Seq<TargetKey>, slot: int)
    ensures
        ({
            let k = kept(paths, names, desired, slot);
            &&& 0 <= k <= paths.len()
            &&& k < paths.len() ==> in_use(names, desired[slot]@, paths[k]) && is_on(
                paths,
                names,
                desired[slot]@,
            )
            &&& is_first_mention(desired, slot) ==> forall|j: int|
                0 <= j < k ==> !in_use(names, desired[slot]@, #[trigger] paths[j])
            &&& is_first_mention(desired, slot) && is_on(paths, names, desired[slot]@) ==> k
                < paths.len()
        }),
{
    let meets = feeds_now(names, desired, slot);
    lemma_first_where(paths, meets);
    let k = kept(paths, names, desired, slot);
    if is_first_mention(desired, slot) {
        assert forall|j: int| 0 <= j < k implies !in_use(
            names,
            desired[slot]@,
            #[trigger] paths[j],
        ) by {
            assert(!meets(paths[j]));
        }
    }
}

/// An output that is active stays on the path that it is on: the first in use that
/// leads to it.
pub proof fn law_an_active_output_stays_where_it_is(
    built: Vec<PathInfo>,
    topo: Topology,
    names: &FixedNames,
    desired: Seq<TargetKey>,
    slot: int,
)
    requires
        is_build(Ok(built), topo, names, desired),
        0 <= slot < desired.len(),
        is_on(topo.paths@, names, desired[slot]@),
    ensures
        exists|p: int|
            #![trigger topo.paths@[p]]
            {
                &&& 0 <= p < topo.paths@.len()
                &&& in_use(names, desired[slot]@, topo.paths@[p])
                &&& forall|q: int|
                    0 <= q < p ==> !in_use(names, desired[slot]@, #[trigger] topo.paths@[q])
                &&& made_active(built@[slot], topo.paths@[p])
            },
{
    let paths = topo.paths@;
    lemma_pick_feeds(built, topo, names, desired, slot);
    lemma_kept(paths, names, desired, slot);
    let k = kept(paths, names, desired, slot);
    assert(built@[slot] == switched_on(paths[k]));
    assert(made_active(built@[slot], paths[k]));
}

/// An output that is switched on gets the first path that leads to it from a source
/// that no other wanted output has, and no other wanted output has that source
/// then. An output that is switched off gives its source up.
pub proof fn law_an_output_switched_on_gets_the_first_free_path(
    built: Vec<PathInfo>,
    topo: Topology,
    names: &FixedNames,
    desired: Seq<TargetKey>,
    slot: int,
)
    requires
        is_build(Ok(built), topo, names, desired),
        0 <= slot < desired.len(),
        !is_on(topo.paths@, names, desired[slot]@),
    ensures
        exists|p: int|
            #![trigger topo.paths@[p]]
            {
                &&& 0 <= p < topo.paths@.len()
                &&& goes_to(names, desired[slot]@, topo.paths@[p])
                &&& made_active(built@[slot], topo.paths@[p])
                &&& forall|q: int|
                    0 <= q < p && goes_to(names, desired[slot]@, #[trigger] topo.paths@[q])
                        ==> exists|s: int|
                        0 <= s < desired.len() && s != slot && (#[trigger] built@[s]).source_info.id
                            == topo.paths@[q].source_info.id
            },
        forall|s: int|
            0 <= s < desired.len() && s != slot ==> (#[trigger] built@[s]).source_info.id
                != built@[slot].source_info.id,
{
    let paths = topo.paths@;
    let all = picks(paths, names, desired, desired.len());
    lemma_pick_feeds(built, topo, names, desired, slot);
    lemma_kept(paths, names, desired, slot);
    lemma_picks_prefix(paths, names, desired, slot as nat, desired.len());
    lemma_picks_prefix(paths, names, desired, (slot + 1) as nat, desired.len());
    let p = all[slot];
    let free = feeds_from_free(paths, names, desired, slot, all.take(slot));
    assert(picks(paths, names, desired, (slot + 1) as nat)[slot] == p);
    assert(p == first_where(paths, free));
    lemma_first_where(paths, free);
    assert(built@[slot] == switched_on(paths[p]));
    assert(made_active(built@[slot], paths[p]));
    assert forall|q: int|
        0 <= q < p && goes_to(names, desired[slot]@, #[trigger] paths[q]) implies exists|s: int|
        0 <= s < desired.len() && s != slot && (#[trigger] built@[s]).source_info.id
            == paths[q].source_info.id by {
        assert(!free(paths[q]));
        let id = paths[q].source_info.id;
        if source_kept(paths, names, desired, id) {
            let s = choose|s: int|
                0 <= s < desired.len() && (#[trigger] kept(paths, names, desired, s)) < paths.len()
                    && paths[kept(paths, names, desired, s)].source_info.id == id;
            lemma_pick_feeds(built, topo, names, desired, s);
            assert(built@[s] == switched_on(paths[all[s]]));
        } else {
            let s = choose|s: int|
                0 <= s < all.take(slot).len() && (#[trigger] all.take(slot)[s]) < paths.len()
                    && paths[all.take(slot)[s]].source_info.id == id;
            assert(built@[s] == switched_on(paths[all[s]]));
        }
    }
    assert forall|s: int| 0 <= s < desired.len() && s != slot implies (
    #[trigger] built@[s]).source_info.id != built@[slot].source_info.id by {
        if s < slot {
            law_outputs_get_sources_of_their_own(built, topo, names, desired, s, slot);
        } else {
            law_outputs_get_sources_of_their_own(built, topo, names, desired, slot, s);
        }
    }
}

/// Whether other wanted outputs hold the source of every path to a wanted output:
/// each holds that of one path to it. Those wanted earlier were given theirs; those
/// wanted later are on it already.
pub open spec fn sources_held(
    paths: Seq<PathInfo>,
    names: &FixedNames,
    desired: Seq<TargetKey>,
    slot: int,
    held: Seq<int>,
) -> bool {
    &&& held.len() == desired.len()
    &&& forall|s: int|
        0 <= s < held.len() && 0 <= #[trigger] held[s] < paths.len() ==> {
            &&& s != slot
            &&& goes_to(names, desired[s]@, paths[held[s]])
            &&& s > slot || is_on(paths, names, desired[s]@) ==> in_use(
                names,
                desired[s]@,
                paths[held[s]],
            )
        }
    &&& forall|p: int|
        0 <= p < paths.len() && goes_to(names, desired[slot]@, #[trigger] paths[p]) ==> exists|s: int|
            0 <= s < held.len() && 0 <= #[trigger] held[s] < paths.len()
                && paths[held[s]].source_info.id == paths[p].source_info.id
}

/// A build fails for want of a source only where there is a real shortage: the
/// output is not active, and every source that could feed it is held by another
/// wanted output. A source that only unwanted outputs use is free.
pub proof fn law_a_source_is_short_only_where_wanted_outputs_hold_them_all(
    target_id: u32,
    wanted: usize,
    topo: Topology,
    names: &FixedNames,
    desired: Seq<TargetKey>,
)
    requires
        is_build(Err(Error::NoFreeSource { target_id, wanted }), topo, names, desired),
    ensures
        desired.len() <= usize::MAX ==> wanted == desired.len(),
        exists|slot: int, held: Seq<int>|
            {
                &&& 0 <= slot < desired.len()
                &&& desired[slot].target_id == target_id
                &&& !is_on(topo.paths@, names, desired[slot]@)
                &&& #[trigger] sources_held(topo.paths@, names, desired, slot, held)
            },
{
    let paths = topo.paths@;
    let n = desired.len();
    let all = picks(paths, names, desired, n);
    let slots = Seq::new(n, |i: int| i);
    lemma_first_where(slots, unconnected(paths, names, desired));
    assert forall|s: int| 0 <= s < n implies #[trigger] is_first_mention(desired, s) by {
        assert(slots[s] == s);
        assert(!unconnected(paths, names, desired)(slots[s]));
        lemma_first_where(paths, feeds(names, desired, s));
    }
    lemma_first_where(slots, unsourced(paths, names, desired));
    let slot = first_slot(n, unsourced(paths, names, desired));
    assert(slots[slot] == slot);
    assert(all[slot] >= paths.len());
    let earlier = picks(paths, names, desired, slot as nat);
    lemma_picks_prefix(paths, names, desired, slot as nat, n);
    lemma_picks_prefix(paths, names, desired, (slot + 1) as nat, n);
    assert(picks(paths, names, desired, (slot + 1) as nat)[slot] == all[slot]);
    assert(all[slot] == pick(paths, names, desired, slot, earlier));
    lemma_kept(paths, names, desired, slot);
    let held = Seq::new(
        n,
        |s: int|
            if s < slot {
                all[s]
            } else if s == slot {
                paths.len() as int
            } else {
                kept(paths, names, desired, s)
            },
    );
    assert forall|s: int| 0 <= s < held.len() && 0 <= #[trigger] held[s] < paths.len() implies {
        &&& s != slot
        &&& goes_to(names, desired[s]@, paths[held[s]])
        &&& s > slot || is_on(paths, names, desired[s]@) ==> in_use(
            names,
            desired[s]@,
            paths[held[s]],
        )
    } by {
        lemma_kept(paths, names, desired, s);
        if s < slot {
            lemma_picks_prefix(paths, names, desired, s as nat, n);
            lemma_picks_prefix(paths, names, desired, (s + 1) as nat, n);
            let before = picks(paths, names, desired, s as nat);
            assert(picks(paths, names, desired, (s + 1) as nat)[s] == all[s]);
            lemma_first_where(paths, feeds_from_free(paths, names, desired, s, before));
        }
    }
    let free = feeds_from_free(paths, names, desired, slot, earlier);
    lemma_first_where(paths, free);
    assert forall|p: int|
        0 <= p < paths.len() && goes_to(names, desired[slot]@, #[trigger] paths[p]) implies exists|
        s: int,
    |
        0 <= s < held.len() && 0 <= #[trigger] held[s] < paths.len()
            && paths[held[s]].source_info.id == paths[p].source_info.id by {
        assert(!free(paths[p]));
        let id = paths[p].source_info.id;
        if source_chosen(paths, earlier, id) {
            let s = choose|s: int|
                0 <= s < earlier.len() && (#[trigger] earlier[s]) < paths.len()
                    && paths[earlier[s]].source_info.id == id;
            assert(held[s] == earlier[s]);
            lemma_picks_prefix(paths, names, desired, s as nat, n);
            lemma_picks_prefix(paths, names, desired, (s + 1) as nat, n);
            assert(picks(paths, names, desired, (s + 1) as nat)[s] == all[s]);
            lemma_kept(paths, names, desired, s);
            lemma_first_where(
                paths,
                feeds_from_free(
                    paths,
                    names,
                    desired,
                    s,
                    picks(paths, names, desired, s as nat),
                ),
            );
        } else {
            let s = choose|s: int|
                0 <= s < n && (#[trigger] kept(paths, names, desired, s)) < paths.len()
                    && paths[kept(paths, names, desired, s)].source_info.id == id;
            lemma_kept(paths, names, desired, s);
            if s < slot {
                lemma_picks_prefix(paths, names, desired, s as nat, n);
                lemma_picks_prefix(paths, names, desired, (s + 1) as nat, n);
                assert(picks(paths, names, desired, (s + 1) as nat)[s] == all[s]);
                assert(held[s] == kept(paths, names, desired, s));
            } else {
                assert(held[s] == kept(paths, names, desired, s));
            }
        }
    }
    assert(sources_held(paths, names, desired, slot, held));
}

/// A build fails only where something stands in its way: a path to an output that is
/// there runs over an adapter without a device path, or nothing leads to a wanted
/// output, or one is wanted twice, or the source that it would take is held. With
/// none of these the build succeeds.
pub proof fn law_a_build_succeeds_where_nothing_stands_in_its_way(
    r: Result<Vec<PathInfo>, Error>,
    topo: Topology,
    names: &FixedNames,
    desired: Seq<TargetKey>,
)
    requires
        is_build(r, topo, names, desired),
        forall|p: int|
            0 <= p < topo.paths@.len() && (#[trigger] topo.paths@[p]).target_info.target_available
                ==> names.path_of(topo.paths@[p].target_info.adapter_id) is Some,
        forall|s: int|
            0 <= s < desired.len() ==> exists|p: int|
                0 <= p < topo.paths@.len() && goes_to(
                    names,
                    (#[trigger] desired[s])@,
                    #[trigger] topo.paths@[p],
                ),
        forall|e: int, s: int|
            0 <= e < s < desired.len() ==> (#[trigger] desired[e])@ != (#[trigger] desired[s])@,
    ensures
        r is Ok || exists|slot: int, held: Seq<int>|
            {
                &&& 0 <= slot < desired.len()
                &&& !is_on(topo.paths@, names, desired[slot]@)
                &&& #[trigger] sources_held(topo.paths@, names, desired, slot, held)
            },
{
    let paths = topo.paths@;
    let n = desired.len();
    lemma_first_where(paths, unroutable(names));
    let refused = first_where(paths, unroutable(names));
    if refused < paths.len() {
        assert(paths[refused].target_info.target_available);
    }
    let slots = Seq::new(n, |i: int| i);
    lemma_first_where(slots, unconnected(paths, names, desired));
    let missing = first_slot(n, unconnected(paths, names, desired));
    if missing < n {
        let meets = feeds(names, desired, missing);
        lemma_first_where(paths, meets);
        assert(slots[missing] == missing);
        let p = choose|p: int|
            0 <= p < paths.len() && goes_to(names, desired[missing]@, #[trigger] paths[p]);
        assert(!meets(paths[p]));
    }
    if let Err(Error::NoFreeSource { target_id, wanted }) = r {
        law_a_source_is_short_only_where_wanted_outputs_hold_them_all(
            target_id,
            wanted,
            topo,
            names,
            desired,
        );
    }
}

/// A wanted output to which nothing leads is refused, by its own name: the first of
/// them, where there are several.
pub proof fn law_an_output_that_is_not_there_is_refused(
    r: Result<Vec<PathInfo>, Error>,
    topo: Topology,
    names: &FixedNames,
    desired: Seq<TargetKey>,
    slot: int,
)
    requires
        is_build(r, topo, names, desired),
        0 <= slot < desired.len(),
        forall|p: int|
            0 <= p < topo.paths@.len() ==> !goes_to(
                names,
                desired[slot]@,
                #[trigger] topo.paths@[p],
            ),
    ensures
        r matches Err(e) && match e {
            Error::NotConnected { target_id, device, .. } => exists|s: int|
                0 <= s <= slot && (#[trigger] desired[s]).target_id == target_id
                    && desired[s].adapter@ == device@,
            Error::AdapterName { .. } | Error::NoAdapter { .. } => true,
            _ => false,
        },
{
    let paths = topo.paths@;
    let n = desired.len();
    let meets = feeds(names, desired, slot);
    lemma_first_where(paths, meets);
    let f = first_where(paths, meets);
    if f < paths.len() {
        assert(goes_to(names, desired[slot]@, paths[f]));
    }
    let slots = Seq::new(n, |i: int| i);
    assert(slots[slot] == slot);
    lemma_first_where(slots, unconnected(paths, names, desired));
}

/// An output that is wanted twice is refused.
pub proof fn law_an_output_wanted_twice_is_refused(
    r: Result<Vec<PathInfo>, Error>,
    topo: Topology,
    names: &FixedNames,
    desired: Seq<TargetKey>,
    i: int,
    j: int,
)
    requires
        is_build(r, topo, names, desired),
        0 <= i < j < desired.len(),
        desired[i]@ == desired[j]@,
    ensures
        r is Err,
{
    if r is Ok {
        let paths = topo.paths@;
        let slots = Seq::new(desired.len(), |k: int| k);
        lemma_first_where(slots, unconnected(paths, names, desired));
        assert(slots[j] == j);
        lemma_first_where(paths, feeds(names, desired, j));
        let f = first_where(paths, feeds(names, desired, j));
        assert(feeds(names, desired, j)(paths[f]));
        assert(desired[i]@ == desired[j]@);
    }
}

/// Two configurations that are the same but for their handles: the same paths in
/// the same order, on adapters that go by the same device paths.
pub open spec fn alike(
    paths: Seq<PathInfo>,
    names: &FixedNames,
    others: Seq<PathInfo>,
    other_names: &FixedNames,
) -> bool {
    &&& paths.len() == others.len()
    &&& forall|i: int|
        #![trigger paths[i]]
        #![trigger others[i]]
        0 <= i < paths.len() ==> {
            &&& paths[i].available() == others[i].available()
            &&& paths[i].active() == others[i].active()
            &&& paths[i].source_info.id == others[i].source_info.id
            &&& paths[i].target_info.id == others[i].target_info.id
            &&& opt_text(names.path_of(paths[i].target_info.adapter_id)) == opt_text(
                other_names.path_of(others[i].target_info.adapter_id),
            )
            &&& key_of(names, paths[i]) == key_of(other_names, others[i])
        }
}

// Configurations that are alike give the same path for an output.
proof fn lemma_alike_pick(
    paths: Seq<PathInfo>,
    names: &FixedNames,
    others: Seq<PathInfo>,
    other_names: &FixedNames,
    desired: Seq<TargetKey>,
    slot: int,
    earlier: Seq<int>,
)
    requires
        alike(paths, names, others, other_names),
        forall|k: int| 0 <= k < earlier.len() ==> 0 <= #[trigger] earlier[k],
    ensures
        first_where(paths, feeds(names, desired, slot)) == first_where(
            others,
            feeds(other_names, desired, slot),
        ),
        pick(paths, names, desired, slot, earlier) == pick(
            others,
            other_names,
            desired,
            slot,
            earlier,
        ),
{
    assert forall|s: int|
        #[trigger] kept(paths, names, desired, s) == kept(others, other_names, desired, s) by {
        lemma_first_where_alike(
            paths,
            feeds_now(names, desired, s),
            others,
            feeds_now(other_names, desired, s),
        );
    }
    lemma_first_where_alike(
        paths,
        feeds(names, desired, slot),
        others,
        feeds(other_names, desired, slot),
    );
    assert forall|id: u32|
        #[trigger] source_kept(paths, names, desired, id) == source_kept(
            others,
            other_names,
            desired,
            id,
        ) by {
        if source_kept(paths, names, desired, id) {
            let s = choose|s: int|
                0 <= s < desired.len() && (#[trigger] kept(paths, names, desired, s)) < paths.len()
                    && paths[kept(paths, names, desired, s)].source_info.id == id;
            lemma_first_where(paths, feeds_now(names, desired, s));
            assert(kept(others, other_names, desired, s) < others.len());
        }
        if source_kept(others, other_names, desired, id) {
            let s = choose|s: int|
                0 <= s < desired.len() && (#[trigger] kept(others, other_names, desired, s))
                    < others.len() && others[kept(
                    others,
                    other_names,
                    desired,
                    s,
                )].source_info.id == id;
            lemma_first_where(others, feeds_now(other_names, desired, s));
            assert(kept(paths, names, desired, s) < paths.len());
        }
    }
    assert forall|id: u32|
        #[trigger] source_chosen(paths, earlier, id) == source_chosen(others, earlier, id) by {
        if source_chosen(paths, earlier, id) {
            let k = choose|k: int|
                0 <= k < earlier.len() && (#[trigger] earlier[k]) < paths.len()
                    && paths[earlier[k]].source_info.id == id;
            assert(others[earlier[k]].source_info.id == id);
        }
        if source_chosen(others, earlier, id) {
            let k = choose|k: int|
                0 <= k < earlier.len() && (#[trigger] earlier[k]) < others.len()
                    && others[earlier[k]].source_info.id == id;
            assert(paths[earlier[k]].source_info.id == id);
        }
    }
    lemma_first_where_alike(
        paths,
        feeds_from_free(paths, names, desired, slot, earlier),
        others,
        feeds_from_free(others, other_names, desired, slot, earlier),
    );
}

// Configurations that are alike give the same paths for outputs.
proof fn lemma_alike_picks(
    paths: Seq<PathInfo>,
    names: &FixedNames,
    others: Seq<PathInfo>,
    other_names: &FixedNames,
    desired: Seq<TargetKey>,
    n: nat,
)
    requires
        alike(paths, names, others, other_names),
    ensures
        picks(paths, names, desired, n) == picks(others, other_names, desired, n),
        picks(paths, names, desired, n).len() == n,
        forall|k: int| 0 <= k < n ==> 0 <= #[trigger] picks(paths, names, desired, n)[k],
    decreases n,
{
    if n > 0 {
        lemma_alike_picks(paths, names, others, other_names, desired, (n - 1) as nat);
        let earlier = picks(paths, names, desired, (n - 1) as nat);
        lemma_alike_pick(paths, names, others, other_names, desired, n - 1, earlier);
        lemma_first_where(paths, feeds_now(names, desired, n - 1));
        lemma_first_where(paths, feeds_from_free(paths, names, desired, n - 1, earlier));
    }
}

/// Outputs are found again after a restart. Windows hands out new handles for its
/// adapters then, but a wanted output is known by its adapter's device path and its
/// target id, so that it gets the path that it would have got.
pub proof fn law_outputs_are_found_after_a_restart(
    built: Vec<PathInfo>,
    topo: Topology,
    names: &FixedNames,
    rebuilt: Result<Vec<PathInfo>, Error>,
    after: Topology,
    names_after: &FixedNames,
    desired: Seq<TargetKey>,
)
    requires
        alike(topo.paths@, names, after.paths@, names_after),
        is_build(Ok(built), topo, names, desired),
        is_build(rebuilt, after, names_after, desired),
    ensures
        rebuilt matches Ok(again) && {
            &&& again@.len() == built@.len()
            &&& forall|slot: int|
                #![trigger again@[slot]]
                0 <= slot < again@.len() ==> {
                    &&& again@[slot].target_info.id == built@[slot].target_info.id
                    &&& again@[slot].source_info.id == built@[slot].source_info.id
                    &&& key_of(names_after, again@[slot]) == key_of(names, built@[slot])
                }
        },
{
    let (paths, others) = (topo.paths@, after.paths@);
    let n = desired.len();
    lemma_first_where_alike(paths, unroutable(names), others, unroutable(names_after));
    lemma_alike_picks(paths, names, others, names_after, desired, n);
    let slots = Seq::new(n, |i: int| i);
    assert forall|slot: int| 0 <= slot < n implies unconnected(paths, names, desired)(
        #[trigger] slots[slot],
    ) == unconnected(others, names_after, desired)(slots[slot]) by {
        lemma_alike_pick(paths, names, others, names_after, desired, slot, Seq::empty());
    }
    lemma_first_where_alike(
        slots,
        unconnected(paths, names, desired),
        slots,
        unconnected(others, names_after, desired),
    );
    lemma_first_where_alike(
        slots,
        unsourced(paths, names, desired),
        slots,
        unsourced(others, names_after, desired),
    );
    let all = picks(paths, names, desired, n);
    assert forall|slot: int| 0 <= slot < n implies 0 <= #[trigger] all[slot] < paths.len() by {
        lemma_pick_feeds(built, topo, names, desired, slot);
    }
}

// ---------------------------------------------------------------------------
// Profiles
// ---------------------------------------------------------------------------

/// Profile members that are no target's name.
pub open spec fn unknown(config: Config) -> spec_fn(String) -> bool {
    |name: String| !config.targets@.dom().contains(name@)
}

/// The outputs that profile members stand for, in the order of their first
/// mention and without repeats.
pub open spec fn resolved(config: Config, members: Seq<String>) -> Seq<(Seq<char>, u32)>
    decreases members.len(),
{
    if members.len() == 0 {
        Seq::empty()
    } else {
        let earlier = resolved(config, members.drop_last());
        let key = config.targets@[members.last()@].key@;
        if earlier.contains(key) {
            earlier
        } else {
            earlier.push(key)
        }
    }
}

/// Whether every member of a profile is a target's name.
pub open spec fn resolvable(config: Config, members: Seq<String>) -> bool {
    first_where(members, unknown(config)) >= members.len()
}

/// What resolving profile members comes to.
pub open spec fn is_resolve(
    r: Result<Vec<TargetKey>, Error>,
    config: Config,
    members: Seq<String>,
) -> bool {
    if resolvable(config, members) {
        r matches Ok(keys) && keys_of(keys@) == resolved(config, members)
    } else {
        r matches Err(Error::UnknownTarget { name, known }) && {
            &&& name@ == members[first_where(members, unknown(config))]@
            &&& texts(known@) == config.targets.names()
        }
    }
}

/// Resolve profile member names to the outputs they refer to, in first-mention
/// order and without repeats.
///
/// Collapsing repeats is what makes a profile a *set* of outputs. A target can
/// be named twice directly, or reached through two config names that point at
/// the same output; either way it means the same thing as naming it once.
pub fn resolve(config: &Config, members: &[String]) -> (r: Result<Vec<TargetKey>, Error>)
    ensures
        is_resolve(r, *config, members@),
{
    let mut keys: Vec<TargetKey> = Vec::new();
    assert(keys_of(keys@) =~= resolved(*config, members@.take(0)));
    for i in 0..members.len()
        invariant
            forall|j: int| 0 <= j < i ==> !unknown(*config)(#[trigger] members@[j]),
            keys_of(keys@) == resolved(*config, members@.take(i as int)),
    {
        assert(members@.take(i + 1).drop_last() =~= members@.take(i as int));
        let entry = match config.targets.get(members[i].as_str()) {
            Some(entry) => entry,
            None => {
                proof {
                    lemma_first_where_is(members@, unknown(*config), i as int);
                }
                return Err(
                    Error::UnknownTarget {
                        name: members[i].clone(),
                        known: config.targets.keys(),
                    },
                );
            },
        };
        let ghost before = keys@;
        if !has_key(keys.as_slice(), &entry.key) {
            keys.push(entry.key.clone());
            assert(keys_of(keys@) =~= keys_of(before).push(entry.key@));
        }
    }
    proof {
        lemma_first_where_is(members@, unknown(*config), members@.len() as int);
        assert(members@.take(members@.len() as int) =~= members@);
    }
    Ok(keys)
}

/// A profile is a set of outputs: it resolves to each output that one of its
/// members stands for, and to each once.
pub proof fn law_a_profile_is_a_set(config: Config, members: Seq<String>)
    ensures
        resolved(config, members).no_duplicates(),
        forall|key: (Seq<char>, u32)| #[trigger]
            resolved(config, members).contains(key) <==> exists|i: int|
                0 <= i < members.len() && config.targets@[(#[trigger] members[i])@].key@ == key,
    decreases members.len(),
{
    if members.len() > 0 {
        law_a_profile_is_a_set(config, members.drop_last());
        let earlier = resolved(config, members.drop_last());
        let last = config.targets@[members.last()@].key@;
        assert forall|key: (Seq<char>, u32)| #[trigger]
            resolved(config, members).contains(key) <==> exists|i: int|
                0 <= i < members.len() && config.targets@[(#[trigger] members[i])@].key@ == key by {
            if resolved(config, members).contains(key) {
                if earlier.contains(key) {
                    let i = choose|i: int|
                        0 <= i < members.drop_last().len() && config.targets@[(
                        #[trigger] members.drop_last()[i])@].key@ == key;
                    assert(members[i] == members.drop_last()[i]);
                } else {
                    assert(key == last) by {
                        let k = choose|k: int|
                            0 <= k < resolved(config, members).len() && resolved(config, members)[k]
                                == key;
                        if k < earlier.len() {
                            assert(earlier[k] == key);
                        }
                    }
                    assert(members[members.len() - 1] == members.last());
                }
            }
            if exists|i: int|
                0 <= i < members.len() && config.targets@[(#[trigger] members[i])@].key@ == key {
                let i = choose|i: int|
                    0 <= i < members.len() && config.targets@[(#[trigger] members[i])@].key@ == key;
                if i < members.len() - 1 {
                    assert(members.drop_last()[i] == members[i]);
                    assert(earlier.contains(key));
                    let k = choose|k: int| 0 <= k < earlier.len() && earlier[k] == key;
                    assert(resolved(config, members)[k] == key);
                } else if !earlier.contains(key) {
                    assert(resolved(config, members)[earlier.len() as int] == key);
                }
            }
        }
    }
}

/// A profile resolves exactly if every one of its members is the name of a target. Where
/// one is not, the first that is not is named.
pub proof fn law_a_profile_resolves_if_its_members_are_known(
    r: Result<Vec<TargetKey>, Error>,
    config: Config,
    members: Seq<String>,
)
    requires
        is_resolve(r, config, members),
    ensures
        r is Ok <==> forall|k: int|
            0 <= k < members.len() ==> config.targets@.dom().contains((#[trigger] members[k])@),
        r matches Err(e) ==> e matches Error::UnknownTarget { name, known } && {
            &&& texts(known@) == config.targets.names()
            &&& !config.targets@.dom().contains(name@)
            &&& exists|k: int|
                #![trigger members[k]]
                0 <= k < members.len() && members[k]@ == name@ && forall|j: int|
                    0 <= j < k ==> config.targets@.dom().contains((#[trigger] members[j])@)
        },
{
    lemma_first_where(members, unknown(config));
    let f = first_where(members, unknown(config));
    assert forall|j: int| 0 <= j < f implies config.targets@.dom().contains(
        (#[trigger] members[j])@,
    ) by {
        assert(!unknown(config)(members[j]));
    }
    if f < members.len() {
        assert(unknown(config)(members[f]));
    }
}

/// The outputs of a profile stand in the order in which they are first mentioned.
pub proof fn law_a_profile_keeps_the_order_of_first_mention(
    config: Config,
    members: Seq<String>,
    i: int,
    j: int,
)
    requires
        0 <= i < j < resolved(config, members).len(),
    ensures
        exists|m: int|
            #![trigger members[m]]
            0 <= m < members.len() && config.targets@[members[m]@].key@ == resolved(
                config,
                members,
            )[i] && forall|n: int|
                0 <= n <= m ==> config.targets@[(#[trigger] members[n])@].key@ != resolved(
                    config,
                    members,
                )[j],
    decreases members.len(),
{
    let fewer = members.drop_last();
    let all = resolved(config, members);
    let earlier = resolved(config, fewer);
    law_a_profile_is_a_set(config, fewer);
    if j < earlier.len() {
        law_a_profile_keeps_the_order_of_first_mention(config, fewer, i, j);
        let m = choose|m: int|
            #![trigger fewer[m]]
            0 <= m < fewer.len() && config.targets@[fewer[m]@].key@ == earlier[i] && forall|n: int|
                0 <= n <= m ==> config.targets@[(#[trigger] fewer[n])@].key@ != earlier[j];
        assert(members[m] == fewer[m]);
        assert forall|n: int| 0 <= n <= m implies config.targets@[(#[trigger] members[n])@].key@
            != all[j] by {
            assert(members[n] == fewer[n]);
        }
    } else {
        assert(all[j] == config.targets@[members.last()@].key@ && !earlier.contains(all[j]));
        assert(earlier.contains(earlier[i]));
        let m = choose|m: int|
            0 <= m < fewer.len() && config.targets@[(#[trigger] fewer[m])@].key@ == earlier[i];
        assert(members[m] == fewer[m]);
        assert forall|n: int| 0 <= n <= m implies config.targets@[(#[trigger] members[n])@].key@
            != all[j] by {
            if config.targets@[members[n]@].key@ == all[j] {
                assert(fewer[n] == members[n]);
                assert(earlier.contains(all[j]));
            }
        }
    }
}

/// The target names a profile lists, or an error naming the profiles that exist.
pub fn members_of<'a>(config: &'a Config, profile: &str) -> (r: Result<&'a Vec<String>, Error>)
    ensures
        is_members(
            match r {
                Ok(members) => Ok(*members),
                Err(e) => Err(e),
            },
            *config,
            profile@,
        ),
{
    match config.profiles.get(profile) {
        Some(members) => Ok(members),
        None => Err(
            Error::UnknownProfile { name: profile.to_owned(), known: config.profiles.keys() },
        ),
    }
}

/// What looking up a profile comes to.
pub open spec fn is_members(
    r: Result<Vec<String>, Error>,
    config: Config,
    profile: Seq<char>,
) -> bool {
    if config.profiles@.dom().contains(profile) {
        r matches Ok(members) && members == config.profiles@[profile]
    } else {
        r matches Err(Error::UnknownProfile { name, known }) && {
            &&& name@ == profile
            &&& texts(known@) == config.profiles.names()
        }
    }
}

/// What finding out the outputs of a profile comes to.
pub open spec fn is_wanted(
    r: Result<Vec<TargetKey>, Error>,
    config: Config,
    profile: Seq<char>,
) -> bool {
    if config.profiles@.dom().contains(profile) {
        is_resolve(r, config, config.profiles@[profile]@)
    } else {
        r matches Err(e) && is_members(Err(e), config, profile)
    }
}

/// The outputs that a profile wants active.
pub fn wanted(config: &Config, profile: &str) -> (r: Result<Vec<TargetKey>, Error>)
    ensures
        is_wanted(r, *config, profile@),
{
    match members_of(config, profile) {
        Ok(members) => resolve(config, members.as_slice()),
        Err(e) => Err(e),
    }
}

/// The keys of the active entries of a listing, in order.
pub open spec fn active_of(ms: Seq<Monitor>) -> Seq<(Seq<char>, u32)>
    decreases ms.len(),
{
    if ms.len() == 0 {
        Seq::empty()
    } else if ms.last().active {
        active_of(ms.drop_last()).push(ms.last().key@)
    } else {
        active_of(ms.drop_last())
    }
}

/// The keys of the outputs that are active.
pub fn active_keys(monitors: &[Monitor]) -> (r: Vec<TargetKey>)
    ensures
        keys_of(r@) == active_of(monitors@),
{
    let mut keys: Vec<TargetKey> = Vec::new();
    assert(keys_of(keys@) =~= active_of(monitors@.take(0)));
    for i in 0..monitors.len()
        invariant
            keys_of(keys@) == active_of(monitors@.take(i as int)),
    {
        assert(monitors@.take(i + 1).drop_last() =~= monitors@.take(i as int));
        let ghost before = keys@;
        if monitors[i].active {
            keys.push(monitors[i].key.clone());
            assert(keys_of(keys@) =~= keys_of(before).push(monitors@[i as int].key@));
        }
    }
    assert(monitors@.take(monitors@.len() as int) =~= monitors@);
    keys
}

// ---------------------------------------------------------------------------
// Power over CEC
// ---------------------------------------------------------------------------

/// A configured display that CEC should act on.
#[derive(Debug)]
pub struct CecTarget {
    pub name: String,
    pub conf: CecConfig,
}

/// The displays that a change should wake, and those it should put to sleep.
#[derive(Debug)]
pub struct CecPlan {
    pub waking: Vec<CecTarget>,
    pub sleeping: Vec<CecTarget>,
}

/// Whether a change wakes the target listed at a place: it becomes active, and
/// its config opts into that.
pub open spec fn wakes(
    config: Config,
    desired: Seq<(Seq<char>, u32)>,
    was_active: Seq<(Seq<char>, u32)>,
) -> spec_fn(int) -> bool {
    |i: int|
        {
            let entry = config.targets.values()[i];
            &&& entry.cec matches Some(conf) && conf.power_on
            &&& desired.contains(entry.key@)
            &&& !was_active.contains(entry.key@)
        }
}

/// Whether a change puts the target listed at a place to sleep: it is no longer
/// active, and its config opts into that.
pub open spec fn sleeps(
    config: Config,
    desired: Seq<(Seq<char>, u32)>,
    was_active: Seq<(Seq<char>, u32)>,
) -> spec_fn(int) -> bool {
    |i: int|
        {
            let entry = config.targets.values()[i];
            &&& entry.cec matches Some(conf) && conf.standby
            &&& !desired.contains(entry.key@)
            &&& was_active.contains(entry.key@)
        }
}

/// Whether a list names the targets listed at some places, with their CEC
/// configuration.
pub open spec fn names_targets(list: Seq<CecTarget>, config: Config, places: Seq<int>) -> bool {
    &&& list.len() == places.len()
    &&& forall|k: int|
        #![trigger list[k]]
        0 <= k < list.len() ==> {
            &&& list[k].name@ == config.targets.names()[places[k]]
            &&& config.targets.values()[places[k]].cec == Some(list[k].conf)
        }
}

impl CecPlan {
    /// Whether a plan acts on exactly the displays whose active state changes, in
    /// name order, and only where the config opts into that direction.
    pub open spec fn fits_change(
        self,
        config: Config,
        desired: Seq<(Seq<char>, u32)>,
        was_active: Seq<(Seq<char>, u32)>,
    ) -> bool {
        let n = config.targets.names().len();
        &&& names_targets(
            self.waking@,
            config,
            slots_where(n, wakes(config, desired, was_active)),
        )
        &&& names_targets(
            self.sleeping@,
            config,
            slots_where(n, sleeps(config, desired, was_active)),
        )
    }

    /// The names of the displays that a plan acts on.
    pub open spec fn affected(self) -> Seq<Seq<char>> {
        self.waking@.map_values(|t: CecTarget| t.name@) + self.sleeping@.map_values(
            |t: CecTarget| t.name@,
        )
    }
}

/// The CEC-capable displays this change should wake, and those it should put to
/// sleep: only ones whose active state actually changes, and only where the
/// config opts into that direction.
pub fn cec_transitions(config: &Config, desired: &[TargetKey], was_active: &[TargetKey]) -> (r:
    CecPlan)
    ensures
        r.fits_change(*config, keys_of(desired@), keys_of(was_active@)),
{
    let mut waking: Vec<CecTarget> = Vec::new();
    let mut sleeping: Vec<CecTarget> = Vec::new();
    let ghost want = keys_of(desired@);
    let ghost had_keys = keys_of(was_active@);
    let n = config.targets.len();
    for i in 0..n
        invariant
            n == config.targets.names().len(),
            config.targets.wf(),
            want == keys_of(desired@),
            had_keys == keys_of(was_active@),
            names_targets(
                waking@,
                *config,
                slots_where(i as nat, wakes(*config, want, had_keys)),
            ),
            names_targets(
                sleeping@,
                *config,
                slots_where(i as nat, sleeps(*config, want, had_keys)),
            ),
    {
        let entry = config.targets.value_at(i);
        if let Some(conf) = entry.cec {
            let wanted = has_key(desired, &entry.key);
            let had = has_key(was_active, &entry.key);
            if wanted && !had && conf.power_on {
                waking.push(CecTarget { name: config.targets.name_at(i).clone(), conf });
            } else if had && !wanted && conf.standby {
                sleeping.push(CecTarget { name: config.targets.name_at(i).clone(), conf });
            }
        }
    }
    CecPlan { waking, sleeping }
}

/// What a build without power control says of the displays that it would have
/// powered: nothing, where there are none.
pub open spec fn unpowered_notes(affected: Seq<Seq<char>>) -> Seq<Seq<char>> {
    if affected.len() == 0 {
        Seq::empty()
    } else {
        seq![
            join(affected, ", "@)
                + " would have been powered over CEC, but this build has the \"cec\" feature off"@,
        ]
    }
}

// The names of some displays, behind others.
fn push_names(names: &mut Vec<String>, list: &Vec<CecTarget>)
    ensures
        texts(final(names)@) == texts(old(names)@) + list@.map_values(|t: CecTarget| t.name@),
{
    let ghost start = texts(names@);
    let ghost all = list@.map_values(|t: CecTarget| t.name@);
    assert(start + all.take(0) =~= start);
    for i in 0..list.len()
        invariant
            all == list@.map_values(|t: CecTarget| t.name@),
            texts(names@) == start + all.take(i as int),
    {
        let ghost before = names@;
        names.push(list[i].name.clone());
        assert(texts(names@) =~= texts(before).push(all[i as int]));
        assert(start + all.take(i + 1) =~= (start + all.take(i as int)).push(all[i as int]));
    }
    assert(all.take(list@.len() as int) =~= all);
}

/// Without power control there is nothing to do about a plan, but a config
/// written for a build that had it still describes some, and silently ignoring
/// that would be a quiet no-op. Only displays that this change would actually
/// have powered are mentioned.
pub fn run_cec(plan: &CecPlan) -> (r: Vec<String>)
    ensures
        texts(r@) == unpowered_notes(plan.affected()),
{
    let mut affected: Vec<String> = Vec::new();
    assert(texts(affected@) =~= Seq::empty());
    push_names(&mut affected, &plan.waking);
    push_names(&mut affected, &plan.sleeping);
    assert(texts(affected@) =~= plan.affected());
    let mut notes: Vec<String> = Vec::new();
    if affected.len() > 0 {
        let list = joined(affected.as_slice(), ", ");
        notes.push(
            cat2(
                list.as_str(),
                " would have been powered over CEC, but this build has the \"cec\" feature off",
            ),
        );
    }
    assert(texts(notes@) =~= unpowered_notes(plan.affected()));
    notes
}

/// Something that CEC is to do about a display.
#[derive(Debug, Clone, Copy, PartialEq, Eq, Structural)]
pub enum Power {
    Standby,
    On,
}

/// A display that is to be powered on or off.
#[derive(Debug)]
pub struct PowerStep {
    pub target: CecTarget,
    pub power: Power,
}

/// What is to be done about some displays.
pub open spec fn steps_of(targets: Seq<CecTarget>, power: Power) -> Seq<PowerStep> {
    targets.map_values(|target: CecTarget| PowerStep { target, power })
}

// Add what is to be done about some displays.
fn push_steps(steps: &mut Vec<PowerStep>, targets: Vec<CecTarget>, power: Power)
    ensures
        final(steps)@ == old(steps)@ + steps_of(targets@, power),
{
    let ghost all = steps_of(targets@, power);
    assert(steps@ =~= old(steps)@ + all.take(0));
    for target in it: targets
        invariant
            all == steps_of(it.seq(), power),
            steps@ == old(steps)@ + all.take(it.index()),
    {
        assert(all.take(it.index() + 1) =~= all.take(it.index()).push(all[it.index()]));
        steps.push(PowerStep { target, power });
    }
    assert(all.take(all.len() as int) =~= all);
}

/// What is to be done about displays once a change was made, in turn: those that
/// are to sleep come first.
pub fn power_steps(plan: CecPlan) -> (r: Vec<PowerStep>)
    ensures
        r@ == steps_of(plan.sleeping@, Power::Standby) + steps_of(plan.waking@, Power::On),
{
    let mut steps: Vec<PowerStep> = Vec::new();
    push_steps(&mut steps, plan.sleeping, Power::Standby);
    push_steps(&mut steps, plan.waking, Power::On);
    assert(steps@ =~= steps_of(plan.sleeping@, Power::Standby) + steps_of(
        plan.waking@,
        Power::On,
    ));
    steps
}

/// What is said of what CEC did about a display. A failure is a note like any
/// other: it never undoes a change of topology.
pub open spec fn cec_note_text(
    name: Seq<char>,
    power: Power,
    outcome: Result<Seq<char>, Seq<char>>,
) -> Seq<char> {
    match (power, outcome) {
        (_, Ok(msg)) => name + ": "@ + msg,
        (Power::Standby, Err(e)) => name + ": CEC standby failed: "@ + e,
        (Power::On, Err(e)) => name + ": CEC power-on failed: "@ + e,
    }
}

/// The note on what CEC did about a display.
pub fn cec_note(name: &str, power: Power, outcome: &Result<String, String>) -> (r: String)
    ensures
        r@ == cec_note_text(
            name@,
            power,
            match *outcome {
                Ok(msg) => Ok(msg@),
                Err(e) => Err(e@),
            },
        ),
{
    match outcome {
        Ok(msg) => cat3(name, ": ", msg.as_str()),
        Err(e) => match power {
            Power::Standby => cat3(name, ": CEC standby failed: ", e.as_str()),
            Power::On => cat3(name, ": CEC power-on failed: ", e.as_str()),
        },
    }
}

// A list of targets holds those at its places.
proof fn lemma_names_targets(list: Seq<CecTarget>, config: Config, places: Seq<int>, i: int)
    requires
        names_targets(list, config, places),
        config.targets.wf(),
        0 <= i < config.targets.names().len(),
        forall|k: int|
            0 <= k < places.len() ==> 0 <= #[trigger] places[k] < config.targets.names().len(),
    ensures
        places.contains(i) <==> exists|k: int|
            0 <= k < list.len() && (#[trigger] list[k]).name@ == config.targets.names()[i],
        forall|k: int|
            0 <= k < list.len() && (#[trigger] list[k]).name@ == config.targets.names()[i]
                ==> config.targets.values()[i].cec == Some(list[k].conf),
{
    if places.contains(i) {
        let k = choose|k: int| 0 <= k < places.len() && places[k] == i;
        assert(list[k].name@ == config.targets.names()[i]);
    }
    assert forall|k: int|
        0 <= k < list.len() && (#[trigger] list[k]).name@ == config.targets.names()[i] implies
        places[k] == i by {
        lemma_ascending_distinct(config.targets.names(), places[k], i);
    }
}

/// A change wakes a display exactly if it becomes active and its config says that it
/// is to be powered on then, and puts one to sleep exactly if it is no longer active
/// and its config says that it is to stand by then. Each is addressed as its config
/// says.
pub proof fn law_a_change_powers_the_displays_that_it_changes(
    plan: CecPlan,
    config: Config,
    desired: Seq<(Seq<char>, u32)>,
    was_active: Seq<(Seq<char>, u32)>,
    i: int,
)
    requires
        plan.fits_change(config, desired, was_active),
        config.targets.wf(),
        0 <= i < config.targets.names().len(),
    ensures
        ({
            let entry = config.targets.values()[i];
            let name = config.targets.names()[i];
            let (on, was_on) = (desired.contains(entry.key@), was_active.contains(entry.key@));
            let woken = exists|k: int|
                0 <= k < plan.waking@.len() && (#[trigger] plan.waking@[k]).name@ == name;
            let slept = exists|k: int|
                0 <= k < plan.sleeping@.len() && (#[trigger] plan.sleeping@[k]).name@ == name;
            &&& woken <==> entry.cec is Some && entry.cec->0.power_on && on && !was_on
            &&& slept <==> entry.cec is Some && entry.cec->0.standby && !on && was_on
            &&& forall|k: int|
                0 <= k < plan.waking@.len() && (#[trigger] plan.waking@[k]).name@ == name
                    ==> entry.cec == Some(plan.waking@[k].conf)
            &&& forall|k: int|
                0 <= k < plan.sleeping@.len() && (#[trigger] plan.sleeping@[k]).name@ == name
                    ==> entry.cec == Some(plan.sleeping@[k].conf)
        }),
{
    let n = config.targets.names().len();
    let wake = slots_where(n, wakes(config, desired, was_active));
    let sleep = slots_where(n, sleeps(config, desired, was_active));
    lemma_slots_where(n, wakes(config, desired, was_active));
    lemma_slots_where(n, sleeps(config, desired, was_active));
    assert forall|k: int| 0 <= k < wake.len() implies 0 <= #[trigger] wake[k] < n by {
        assert(wake.contains(wake[k]));
    }
    assert forall|k: int| 0 <= k < sleep.len() implies 0 <= #[trigger] sleep[k] < n by {
        assert(sleep.contains(sleep[k]));
    }
    lemma_names_targets(plan.waking@, config, wake, i);
    lemma_names_targets(plan.sleeping@, config, sleep, i);
}

/// Displays that are to sleep are dealt with before any that is to wake, each once.
pub proof fn law_displays_sleep_before_others_wake(plan: CecPlan, steps: Seq<PowerStep>, i: int)
    requires
        steps == steps_of(plan.sleeping@, Power::Standby) + steps_of(plan.waking@, Power::On),
        0 <= i < steps.len(),
    ensures
        steps.len() == plan.sleeping@.len() + plan.waking@.len(),
        i < plan.sleeping@.len() ==> steps[i].power == Power::Standby && steps[i].target
            == plan.sleeping@[i],
        i >= plan.sleeping@.len() ==> steps[i].power == Power::On && steps[i].target
            == plan.waking@[i - plan.sleeping@.len()],
{
}

/// A note names its display, and says which of the two things failed, where one did.
pub proof fn law_a_note_names_its_display(
    name: Seq<char>,
    power: Power,
    said: Seq<char>,
)
    ensures
        cec_note_text(name, power, Ok(said)) == name + ": "@ + said,
        cec_note_text(name, Power::Standby, Err(said)) == name + ": CEC standby failed: "@ + said,
        cec_note_text(name, Power::On, Err(said)) == name + ": CEC power-on failed: "@ + said,
{
}

/// A display that stays as it is, active or not, is never woken or put to sleep.
pub proof fn law_an_unchanged_display_is_left_alone(
    config: Config,
    desired: Seq<(Seq<char>, u32)>,
    was_active: Seq<(Seq<char>, u32)>,
    i: int,
)
    requires
        0 <= i < config.targets.names().len(),
        desired.contains(config.targets.values()[i].key@) == was_active.contains(
            config.targets.values()[i].key@,
        ),
    ensures
        !slots_where(config.targets.names().len(), wakes(config, desired, was_active)).contains(i),
        !slots_where(config.targets.names().len(), sleeps(config, desired, was_active)).contains(i),
{
    lemma_slots_where(config.targets.names().len(), wakes(config, desired, was_active));
    lemma_slots_where(config.targets.names().len(), sleeps(config, desired, was_active));
}

/// No display is both woken and put to sleep by one change.
pub proof fn law_no_display_is_woken_and_put_to_sleep(
    config: Config,
    desired: Seq<(Seq<char>, u32)>,
    was_active: Seq<(Seq<char>, u32)>,
    i: int,
)
    ensures
        !(slots_where(config.targets.names().len(), wakes(config, desired, was_active)).contains(i)
            && slots_where(
            config.targets.names().len(),
            sleeps(config, desired, was_active),
        ).contains(i)),
{
    lemma_slots_where(config.targets.names().len(), wakes(config, desired, was_active));
    lemma_slots_where(config.targets.names().len(), sleeps(config, desired, was_active));
}

// ---------------------------------------------------------------------------
// The change itself
// ---------------------------------------------------------------------------

pub const SDC_TOPOLOGY_SUPPLIED: u32 = 16;

pub const SDC_USE_SUPPLIED_DISPLAY_CONFIG: u32 = 32;

pub const SDC_VALIDATE: u32 = 64;

pub const SDC_APPLY: u32 = 128;

pub const SDC_SAVE_TO_DATABASE: u32 = 512;

pub const SDC_ALLOW_CHANGES: u32 = 1024;

pub const SDC_ALLOW_PATH_ORDER_CHANGES: u32 = 8192;

/// Where the modes of a change came from.
#[derive(Debug, Clone, Copy, PartialEq, Eq, Structural)]
pub enum Tier {
    /// Windows supplied the modes from its database of layouts. The normal,
    /// expected way.
    Database,
    /// The database had nothing for this combination, so Windows chose modes
    /// itself. Works, but the layout may not be what was arranged.
    BestMode,
}

impl Tier {
    /// Where the modes came from, in words.
    pub open spec fn described(self) -> Seq<char> {
        match self {
            Tier::Database => "using the saved layout from Windows' display database"@,
            Tier::BestMode =>
                "Windows had no saved layout for this combination and picked modes itself"@,
        }
    }

    /// Where the modes came from, in words.
    pub fn describe(self) -> (r: &'static str)
        ensures
            r@ == self.described(),
    {
        match self {
            Tier::Database => "using the saved layout from Windows' display database",
            Tier::BestMode =>
                "Windows had no saved layout for this combination and picked modes itself",
        }
    }
}

/// What became of a change.
#[derive(Debug, Clone, Copy, PartialEq, Eq, Structural)]
pub enum Outcome {
    /// The requested outputs were already the active ones. No call was made.
    AlreadyActive,
    /// Validated only; nothing was changed.
    Validated,
    Applied(Tier),
}

/// The result of applying a profile: what happened to the display topology,
/// plus whatever CEC power control had to say about it.
#[derive(Debug)]
pub struct Report {
    pub outcome: Outcome,
    /// Human-readable notes from CEC actions, failures among them. These never
    /// abort an apply: the topology change is the part that must work.
    pub cec: Vec<String>,
}

/// How far a change has come. Every state but the last two waits for an answer
/// to a call of `SetDisplayConfig`.
#[derive(Debug)]
pub enum ApplyState {
    /// The change is to be validated; in a dry run, no more than that.
    Validate { dry_run: bool },
    /// It is to be made with the modes from Windows' database.
    Database,
    /// It is to be made with modes that Windows chooses, and saved, so that the
    /// database can serve the next call.
    BestMode { database: Answer },
    Done { outcome: Outcome },
    Failed { error: Error },
}

impl ApplyState {
    /// The flags of the call that a state waits for.
    pub open spec fn wanted_flags(self) -> Option<u32> {
        match self {
            ApplyState::Validate { .. } => Some(
                SDC_VALIDATE | SDC_TOPOLOGY_SUPPLIED | SDC_ALLOW_PATH_ORDER_CHANGES,
            ),
            ApplyState::Database => Some(
                SDC_APPLY | SDC_TOPOLOGY_SUPPLIED | SDC_ALLOW_PATH_ORDER_CHANGES,
            ),
            ApplyState::BestMode { .. } => Some(
                SDC_APPLY | SDC_USE_SUPPLIED_DISPLAY_CONFIG | SDC_ALLOW_CHANGES
                    | SDC_SAVE_TO_DATABASE,
            ),
            ApplyState::Done { .. } => None,
            ApplyState::Failed { .. } => None,
        }
    }

    /// The flags of the call that is to be made next; none once the change is
    /// over.
    pub fn call_flags(&self) -> (r: Option<u32>)
        ensures
            r == self.wanted_flags(),
    {
        match self {
            ApplyState::Validate { .. } => Some(
                SDC_VALIDATE | SDC_TOPOLOGY_SUPPLIED | SDC_ALLOW_PATH_ORDER_CHANGES,
            ),
            ApplyState::Database => Some(
                SDC_APPLY | SDC_TOPOLOGY_SUPPLIED | SDC_ALLOW_PATH_ORDER_CHANGES,
            ),
            ApplyState::BestMode { .. } => Some(
                SDC_APPLY | SDC_USE_SUPPLIED_DISPLAY_CONFIG | SDC_ALLOW_CHANGES
                    | SDC_SAVE_TO_DATABASE,
            ),
            ApplyState::Done { .. } => None,
            ApplyState::Failed { .. } => None,
        }
    }
}

/// Where a change stands once the call it was waiting for has been answered.
pub open spec fn apply_next(state: ApplyState, answer: Answer) -> ApplyState {
    match state {
        ApplyState::Validate { dry_run } => if !dry_run {
            ApplyState::Database
        } else if answer.code == ERROR_SUCCESS {
            ApplyState::Done { outcome: Outcome::Validated }
        } else {
            ApplyState::Failed { error: Error::Validation { answer } }
        },
        ApplyState::Database => if answer.code == ERROR_SUCCESS {
            ApplyState::Done { outcome: Outcome::Applied(Tier::Database) }
        } else {
            ApplyState::BestMode { database: answer }
        },
        ApplyState::BestMode { database } => if answer.code == ERROR_SUCCESS {
            ApplyState::Done { outcome: Outcome::Applied(Tier::BestMode) }
        } else {
            ApplyState::Failed { error: Error::Apply { database, best_mode: answer } }
        },
        ApplyState::Done { outcome } => ApplyState::Done { outcome },
        ApplyState::Failed { error } => ApplyState::Failed { error },
    }
}

/// Take the answer to the call that a change was waiting for.
///
/// A dry run stops at the validation. Validation failing has two quite different
/// causes, of which a real apply recovers from one, so it does not stop a real
/// apply, and no recovery is promised.
pub fn apply_step(state: ApplyState, answer: &Answer) -> (r: ApplyState)
    ensures
        r == apply_next(state, *answer),
{
    match state {
        ApplyState::Validate { dry_run } => if !dry_run {
            ApplyState::Database
        } else if answer.code == ERROR_SUCCESS {
            ApplyState::Done { outcome: Outcome::Validated }
        } else {
            ApplyState::Failed { error: Error::Validation { answer: answer.clone() } }
        },
        ApplyState::Database => if answer.code == ERROR_SUCCESS {
            ApplyState::Done { outcome: Outcome::Applied(Tier::Database) }
        } else {
            ApplyState::BestMode { database: answer.clone() }
        },
        ApplyState::BestMode { database } => if answer.code == ERROR_SUCCESS {
            ApplyState::Done { outcome: Outcome::Applied(Tier::BestMode) }
        } else {
            ApplyState::Failed { error: Error::Apply { database, best_mode: answer.clone() } }
        },
        ApplyState::Done { outcome } => ApplyState::Done { outcome },
        ApplyState::Failed { error } => ApplyState::Failed { error },
    }
}

/// Where a change stands after a row of answers.
pub open spec fn apply_after(start: ApplyState, answers: Seq<Answer>) -> ApplyState
    decreases answers.len(),
{
    if answers.len() == 0 {
        start
    } else {
        apply_next(apply_after(start, answers.drop_last()), answers.last())
    }
}

/// A dry run changes nothing: it makes one call, which validates and does not
/// apply, and is over.
pub proof fn law_a_dry_run_only_validates(answers: Seq<Answer>)
    ensures
        answers.len() == 0 ==> apply_after(ApplyState::Validate { dry_run: true }, answers)
            == (ApplyState::Validate { dry_run: true }),
        answers.len() > 0 ==> {
            let end = apply_after(ApplyState::Validate { dry_run: true }, answers);
            ||| answers[0].code == ERROR_SUCCESS && end == (ApplyState::Done {
                outcome: Outcome::Validated,
            })
            ||| answers[0].code != ERROR_SUCCESS && end == (ApplyState::Failed {
                error: Error::Validation { answer: answers[0] },
            })
        },
        (ApplyState::Validate { dry_run: true }).wanted_flags()->0 & SDC_APPLY == 0,
    decreases answers.len(),
{
    assert((64u32 | 16u32 | 8192u32) & 128u32 == 0) by (bit_vector);
    if answers.len() > 0 {
        law_a_dry_run_only_validates(answers.drop_last());
        if answers.len() > 1 {
            assert(answers.drop_last()[0] == answers[0]);
        }
    }
}

/// A real apply is over after three calls at most. It asks for the saved layout
/// first; Windows chooses modes only where that failed; and what the validation
/// said does not matter.
pub proof fn law_a_real_apply(answers: Seq<Answer>)
    requires
        answers.len() >= 3,
    ensures
        apply_after(ApplyState::Validate { dry_run: false }, answers.take(1))
            == ApplyState::Database,
        apply_after(ApplyState::Validate { dry_run: false }, answers) == if answers[1].code
            == ERROR_SUCCESS {
            ApplyState::Done { outcome: Outcome::Applied(Tier::Database) }
        } else if answers[2].code == ERROR_SUCCESS {
            ApplyState::Done { outcome: Outcome::Applied(Tier::BestMode) }
        } else {
            ApplyState::Failed {
                error: Error::Apply { database: answers[1], best_mode: answers[2] },
            }
        },
    decreases answers.len(),
{
    let start = ApplyState::Validate { dry_run: false };
    assert(answers.take(1).drop_last() =~= Seq::empty());
    assert(apply_after(start, Seq::empty()) == start);
    if answers.len() > 3 {
        law_a_real_apply(answers.drop_last());
        assert(answers.drop_last()[1] == answers[1] && answers.drop_last()[2] == answers[2]);
    } else {
        assert(answers.drop_last().drop_last() =~= answers.take(1));
        assert(answers.drop_last().last() == answers[1]);
        assert(answers.last() == answers[2]);
    }
}

/// The ways of asking are never mixed: a call either lets the database supply the
/// topology or supplies a configuration, and the order of paths may change only
/// in the former.
pub proof fn law_flag_sets_are_disjoint(state: ApplyState)
    requires
        state.wanted_flags() is Some,
    ensures
        ({
            let flags = state.wanted_flags()->0;
            &&& (flags & SDC_TOPOLOGY_SUPPLIED != 0) != (flags & SDC_USE_SUPPLIED_DISPLAY_CONFIG
                != 0)
            &&& flags & SDC_ALLOW_PATH_ORDER_CHANGES != 0 ==> flags & SDC_TOPOLOGY_SUPPLIED != 0
            &&& (flags & SDC_VALIDATE != 0) != (flags & SDC_APPLY != 0)
        }),
{
    assert((64u32 | 16u32 | 8192u32) & 16u32 != 0 && (64u32 | 16u32 | 8192u32) & 32u32 == 0 && (64u32
        | 16u32 | 8192u32) & 64u32 != 0 && (64u32 | 16u32 | 8192u32) & 128u32 == 0) by (bit_vector);
    assert((128u32 | 16u32 | 8192u32) & 16u32 != 0 && (128u32 | 16u32 | 8192u32) & 32u32 == 0 && (
    128u32 | 16u32 | 8192u32) & 64u32 == 0 && (128u32 | 16u32 | 8192u32) & 128u32 != 0)
        by (bit_vector);
    assert((128u32 | 32u32 | 1024u32 | 512u32) & 16u32 == 0 && (128u32 | 32u32 | 1024u32 | 512u32)
        & 32u32 != 0 && (128u32 | 32u32 | 1024u32 | 512u32) & 8192u32 == 0 && (128u32 | 32u32
        | 1024u32 | 512u32) & 64u32 == 0 && (128u32 | 32u32 | 1024u32 | 512u32) & 128u32 != 0)
        by (bit_vector);
}

/// Each call has its flags, by their Windows values: the first validates a supplied
/// topology; the second applies it; the third applies a supplied configuration, which
/// Windows may change and saves.
pub proof fn law_each_call_has_its_flags(dry_run: bool, database: Answer, outcome: Outcome, error: Error)
    ensures
        (ApplyState::Validate { dry_run }).wanted_flags() == Some(0x2050u32),
        ApplyState::Database.wanted_flags() == Some(0x2090u32),
        (ApplyState::BestMode { database }).wanted_flags() == Some(0x6A0u32),
        (ApplyState::Done { outcome }).wanted_flags() is None,
        (ApplyState::Failed { error }).wanted_flags() is None,
        SDC_TOPOLOGY_SUPPLIED == 0x10 && SDC_USE_SUPPLIED_DISPLAY_CONFIG == 0x20,
        SDC_VALIDATE == 0x40 && SDC_APPLY == 0x80 && SDC_SAVE_TO_DATABASE == 0x200,
        SDC_ALLOW_CHANGES == 0x400 && SDC_ALLOW_PATH_ORDER_CHANGES == 0x2000,
{
    assert(64u32 | 16u32 | 8192u32 == 0x2050u32) by (bit_vector);
    assert(128u32 | 16u32 | 8192u32 == 0x2090u32) by (bit_vector);
    assert(128u32 | 32u32 | 1024u32 | 512u32 == 0x6A0u32) by (bit_vector);
}

/// A change that has been worked out: the paths to send, how far it has come, and
/// which outputs it is between.
#[derive(Debug)]
pub struct Applying {
    pub state: ApplyState,
    pub paths: Vec<PathInfo>,
    pub desired: Vec<TargetKey>,
    pub was_active: Vec<TargetKey>,
}

/// What working out a change comes to. No call is made where the wanted outputs
/// are the active ones, unless it is a dry run, which always validates.
pub open spec fn is_apply(
    r: Result<Applying, Error>,
    topo: Topology,
    names: &FixedNames,
    desired: Seq<TargetKey>,
    dry_run: bool,
) -> bool {
    match first_refusal(topo.paths@, names, unresolved(names)) {
        Some(refusal) => r matches Err(e) && e == refusal,
        None => exists|ms: Seq<Monitor>|
            #![trigger is_listing(ms, topo, names)]
            is_listing(ms, topo, names) && if !dry_run && same_outputs(
                keys_of(desired),
                active_of(ms),
            ) {
                r matches Ok(a) && {
                    &&& a.state == (ApplyState::Done { outcome: Outcome::AlreadyActive })
                    &&& a.paths@.len() == 0
                    &&& a.desired@ == desired
                    &&& keys_of(a.was_active@) == active_of(ms)
                }
            } else {
                match r {
                    Ok(a) => {
                        &&& is_build(Ok(a.paths), topo, names, desired)
                        &&& a.state == (ApplyState::Validate { dry_run })
                        &&& a.desired@ == desired
                        &&& keys_of(a.was_active@) == active_of(ms)
                    },
                    Err(e) => is_build(Err(e), topo, names, desired),
                }
            },
    }
}

/// Work out how to make exactly the desired outputs the active ones.
pub fn apply_targets(
    topo: &Topology,
    names: &FixedNames,
    desired: Vec<TargetKey>,
    dry_run: bool,
) -> (r: Result<Applying, Error>)
    ensures
        is_apply(r, *topo, names, desired@, dry_run),
{
    let monitors = match enumerate(topo, names) {
        Ok(monitors) => monitors,
        Err(e) => return Err(e),
    };
    assert(is_listing(monitors@, *topo, names));
    let active = active_keys(monitors.as_slice());
    if !dry_run && same_set(desired.as_slice(), active.as_slice()) {
        return Ok(
            Applying {
                state: ApplyState::Done { outcome: Outcome::AlreadyActive },
                paths: Vec::new(),
                desired,
                was_active: active,
            },
        );
    }
    match build_paths(topo, desired.as_slice(), names) {
        Ok(paths) => Ok(
            Applying {
                state: ApplyState::Validate { dry_run },
                paths,
                desired,
                was_active: active,
            },
        ),
        Err(e) => Err(e),
    }
}

/// Applying what is already active is a no-op: no call is made.
pub proof fn law_applying_what_is_active_makes_no_call(
    r: Result<Applying, Error>,
    topo: Topology,
    names: &FixedNames,
    desired: Seq<TargetKey>,
    ms: Seq<Monitor>,
)
    requires
        is_apply(r, topo, names, desired, false),
        is_listing(ms, topo, names),
        first_refusal(topo.paths@, names, unresolved(names)) is None,
        same_outputs(keys_of(desired), active_of(ms)),
    ensures
        r matches Ok(a) && a.state.wanted_flags() is None,
{
    let other = choose|other: Seq<Monitor>|
        #![trigger is_listing(other, topo, names)]
        is_listing(other, topo, names) && if same_outputs(keys_of(desired), active_of(other)) {
            r matches Ok(a) && {
                &&& a.state == (ApplyState::Done { outcome: Outcome::AlreadyActive })
                &&& a.paths@.len() == 0
                &&& a.desired@ == desired
                &&& keys_of(a.was_active@) == active_of(other)
            }
        } else {
            match r {
                Ok(a) => {
                    &&& is_build(Ok(a.paths), topo, names, desired)
                    &&& a.state == (ApplyState::Validate { dry_run: false })
                    &&& a.desired@ == desired
                    &&& keys_of(a.was_active@) == active_of(other)
                },
                Err(e) => is_build(Err(e), topo, names, desired),
            }
        };
    law_listing_is_determined(ms, other, topo, names);
}

/// A change is validated first wherever the wanted outputs are not exactly the active
/// ones, and in a dry run always. What is sent is what was built, and the outputs that
/// the change is between are the wanted ones and those that were active.
pub proof fn law_a_change_starts_with_a_validation(
    r: Result<Applying, Error>,
    topo: Topology,
    names: &FixedNames,
    desired: Seq<TargetKey>,
    dry_run: bool,
    ms: Seq<Monitor>,
)
    requires
        is_apply(r, topo, names, desired, dry_run),
        is_listing(ms, topo, names),
        first_refusal(topo.paths@, names, unresolved(names)) is None,
    ensures
        r matches Ok(a) ==> {
            &&& a.desired@ == desired
            &&& exactly_active(keys_of(a.was_active@), ms)
            &&& dry_run || !exactly_active(keys_of(desired), ms) ==> a.state == (
            ApplyState::Validate { dry_run }) && is_build(Ok(a.paths), topo, names, desired)
            &&& !dry_run && exactly_active(keys_of(desired), ms) ==> a.state == (
            ApplyState::Done { outcome: Outcome::AlreadyActive }) && a.paths@.len() == 0
        },
        r matches Err(e) ==> (dry_run || !exactly_active(keys_of(desired), ms)) && is_build(
            Err(e),
            topo,
            names,
            desired,
        ),
{
    lemma_exactly_active(keys_of(desired), ms);
    lemma_exactly_active(active_of(ms), ms);
    let other = choose|other: Seq<Monitor>|
        #![trigger is_listing(other, topo, names)]
        is_listing(other, topo, names) && if !dry_run && same_outputs(
            keys_of(desired),
            active_of(other),
        ) {
            r matches Ok(a) && {
                &&& a.state == (ApplyState::Done { outcome: Outcome::AlreadyActive })
                &&& a.paths@.len() == 0
                &&& a.desired@ == desired
                &&& keys_of(a.was_active@) == active_of(other)
            }
        } else {
            match r {
                Ok(a) => {
                    &&& is_build(Ok(a.paths), topo, names, desired)
                    &&& a.state == (ApplyState::Validate { dry_run })
                    &&& a.desired@ == desired
                    &&& keys_of(a.was_active@) == active_of(other)
                },
                Err(e) => is_build(Err(e), topo, names, desired),
            }
        };
    law_listing_is_determined(ms, other, topo, names);
}

/// What working out the change to a profile comes to. A wrong name, of a profile
/// or in one, comes before anything that is wrong with the displays.
pub open spec fn is_apply_profile(
    r: Result<Applying, Error>,
    config: Config,
    profile: Seq<char>,
    dry_run: bool,
    seen: Result<(Topology, FixedNames), Error>,
) -> bool {
    let named = config.profiles@.dom().contains(profile);
    if !named || !resolvable(config, config.profiles@[profile]@) {
        r matches Err(e) && is_wanted(Err(e), config, profile)
    } else {
        match seen {
            Err(error) => r matches Err(e) && e == error,
            Ok((topo, names)) => exists|desired: Seq<TargetKey>|
                #![trigger keys_of(desired)]
                keys_of(desired) == resolved(config, config.profiles@[profile]@) && is_apply(
                    r,
                    topo,
                    &names,
                    desired,
                    dry_run,
                ),
        }
    }
}

/// Work out how to make a profile's outputs the active ones, given what was seen
/// of the displays.
pub fn apply_profile(
    config: &Config,
    profile: &str,
    dry_run: bool,
    seen: Result<(Topology, FixedNames), Error>,
) -> (r: Result<Applying, Error>)
    ensures
        is_apply_profile(r, *config, profile@, dry_run, seen),
{
    let desired = match wanted(config, profile) {
        Ok(desired) => desired,
        Err(e) => return Err(e),
    };
    match seen {
        Ok((topo, names)) => {
            let ghost keys = desired@;
            let r = apply_targets(&topo, &names, desired, dry_run);
            assert(keys_of(keys) == resolved(*config, config.profiles@[profile@]@));
            r
        },
        Err(e) => Err(e),
    }
}

/// A profile is applied only where it is there and all of its members are known
/// targets, whatever the displays are; otherwise that is what fails.
pub proof fn law_a_wrong_name_comes_before_the_displays(
    r: Result<Applying, Error>,
    config: Config,
    profile: Seq<char>,
    dry_run: bool,
    seen: Result<(Topology, FixedNames), Error>,
)
    requires
        is_apply_profile(r, config, profile, dry_run, seen),
    ensures
        !config.profiles@.dom().contains(profile) ==> (r matches Err(Error::UnknownProfile {
            name,
            known,
        }) && name@ == profile && texts(known@) == config.profiles.names()),
        config.profiles@.dom().contains(profile) && (exists|k: int|
            0 <= k < config.profiles@[profile]@.len() && !config.targets@.dom().contains(
                (#[trigger] config.profiles@[profile]@[k])@,
            )) ==> (r matches Err(e) && e is UnknownTarget),
        config.profiles@.dom().contains(profile) && (forall|k: int|
            0 <= k < config.profiles@[profile]@.len() ==> config.targets@.dom().contains(
                (#[trigger] config.profiles@[profile]@[k])@,
            )) ==> match seen {
            Err(error) => r matches Err(e) && e == error,
            Ok(seen) => exists|desired: Seq<TargetKey>|
                #![trigger keys_of(desired)]
                keys_of(desired) == resolved(config, config.profiles@[profile]@) && is_apply(
                    r,
                    seen.0,
                    &seen.1,
                    desired,
                    dry_run,
                ),
        },
{
    let members = config.profiles@[profile]@;
    lemma_first_where(members, unknown(config));
    let f = first_where(members, unknown(config));
    if f < members.len() {
        assert(unknown(config)(members[f]));
    }
    assert forall|k: int| 0 <= k < members.len() && f >= members.len() implies config.targets@.dom().contains(
        (#[trigger] members[k])@,
    ) by {
        assert(!unknown(config)(members[k]));
    }
}

/// The CEC actions that belong to a change that is over: none where nothing was
/// changed.
pub fn power_plan(
    config: &Config,
    outcome: Outcome,
    desired: &[TargetKey],
    was_active: &[TargetKey],
) -> (r: CecPlan)
    ensures
        match outcome {
            Outcome::Applied(_) => r.fits_change(*config, keys_of(desired@), keys_of(was_active@)),
            _ => r.waking@.len() == 0 && r.sleeping@.len() == 0,
        },
{
    match outcome {
        Outcome::Applied(_) => cec_transitions(config, desired, was_active),
        _ => CecPlan { waking: Vec::new(), sleeping: Vec::new() },
    }
}

// ---------------------------------------------------------------------------
// Alternating
// ---------------------------------------------------------------------------

/// Which of two profiles to go to, with some outputs active: the second where the
/// first is what is on screen, and the first from anywhere else.
pub open spec fn switch_target(
    config: Config,
    a: Seq<char>,
    b: Seq<char>,
    active: Seq<(Seq<char>, u32)>,
) -> Seq<char> {
    if same_outputs(resolved(config, config.profiles@[a]@), active) {
        b
    } else {
        a
    }
}

/// Alternate between two profiles: whichever one is not currently active wins.
///
/// Both names are checked before anything else counts, so a typo in either one
/// fails without touching the displays. Anything that is not the first profile
/// leads to it, so that a hotkey recovers from an odd state rather than refusing.
pub fn switch(config: &Config, a: &str, b: &str, seen: Result<Vec<Monitor>, Error>) -> (r: Result<
    String,
    Error,
>)
    ensures
        if !config.profiles@.dom().contains(a@) {
            r matches Err(e) && is_members(Err(e), *config, a@)
        } else if !config.profiles@.dom().contains(b@) {
            r matches Err(e) && is_members(Err(e), *config, b@)
        } else if !resolvable(*config, config.profiles@[a@]@) {
            r matches Err(e) && is_resolve(Err(e), *config, config.profiles@[a@]@)
        } else {
            match seen {
                Err(error) => r matches Err(e) && e == error,
                Ok(ms) => r matches Ok(name) && name@ == switch_target(
                    *config,
                    a@,
                    b@,
                    active_of(ms@),
                ),
            }
        },
{
    let members = match members_of(config, a) {
        Ok(members) => members,
        Err(e) => return Err(e),
    };
    if let Err(e) = members_of(config, b) {
        return Err(e);
    }
    let first = match resolve(config, members.as_slice()) {
        Ok(first) => first,
        Err(e) => return Err(e),
    };
    let active = match seen {
        Ok(ms) => active_keys(ms.as_slice()),
        Err(e) => return Err(e),
    };
    if same_set(first.as_slice(), active.as_slice()) {
        Ok(b.to_owned())
    } else {
        Ok(a.to_owned())
    }
}

/// Whether some outputs are active and no others.
pub open spec fn exactly_active(outputs: Seq<(Seq<char>, u32)>, ms: Seq<Monitor>) -> bool {
    forall|key: (Seq<char>, u32)| #[trigger]
        outputs.contains(key) <==> exists|i: int|
            0 <= i < ms.len() && (#[trigger] ms[i]).active && ms[i].key@ == key
}

/// The outputs that count as active are those of the active entries of a listing.
pub proof fn law_active_entries_are_active(ms: Seq<Monitor>, key: (Seq<char>, u32))
    ensures
        active_of(ms).contains(key) <==> exists|i: int|
            0 <= i < ms.len() && (#[trigger] ms[i]).active && ms[i].key@ == key,
    decreases ms.len(),
{
    if ms.len() > 0 {
        let earlier = ms.drop_last();
        law_active_entries_are_active(earlier, key);
        if active_of(ms).contains(key) {
            let k = choose|k: int| 0 <= k < active_of(ms).len() && active_of(ms)[k] == key;
            if k < active_of(earlier).len() {
                assert(active_of(earlier)[k] == key);
                let i = choose|i: int|
                    0 <= i < earlier.len() && (#[trigger] earlier[i]).active && earlier[i].key@
                        == key;
                assert(ms[i] == earlier[i]);
            } else {
                assert(ms[ms.len() - 1].active);
            }
        }
        if exists|i: int| 0 <= i < ms.len() && (#[trigger] ms[i]).active && ms[i].key@ == key {
            let i = choose|i: int|
                0 <= i < ms.len() && (#[trigger] ms[i]).active && ms[i].key@ == key;
            if i < earlier.len() {
                assert(earlier[i] == ms[i]);
                let k = choose|k: int|
                    0 <= k < active_of(earlier).len() && active_of(earlier)[k] == key;
                assert(active_of(ms)[k] == key);
            } else {
                assert(active_of(ms)[active_of(ms).len() - 1] == key);
            }
        }
    }
}

// Lists of the same outputs are those of which one holds what the other does.
proof fn lemma_same_outputs(a: Seq<(Seq<char>, u32)>, b: Seq<(Seq<char>, u32)>)
    ensures
        same_outputs(a, b) <==> forall|key: (Seq<char>, u32)| #[trigger]
            a.contains(key) <==> b.contains(key),
{
    if same_outputs(a, b) {
        assert forall|key: (Seq<char>, u32)| #[trigger] a.contains(key) <==> b.contains(key) by {
            assert(a.to_set().contains(key) == b.to_set().contains(key));
        }
    }
    if forall|key: (Seq<char>, u32)| #[trigger] a.contains(key) <==> b.contains(key) {
        assert(a.to_set() =~= b.to_set());
    }
}

// Outputs are the active ones where they are those of the active entries.
proof fn lemma_exactly_active(outputs: Seq<(Seq<char>, u32)>, ms: Seq<Monitor>)
    ensures
        same_outputs(outputs, active_of(ms)) <==> exactly_active(outputs, ms),
{
    lemma_same_outputs(outputs, active_of(ms));
    assert forall|key: (Seq<char>, u32)| #[trigger]
        active_of(ms).contains(key) <==> exists|i: int|
            0 <= i < ms.len() && (#[trigger] ms[i]).active && ms[i].key@ == key by {
        law_active_entries_are_active(ms, key);
    }
    if same_outputs(outputs, active_of(ms)) {
        assert forall|key: (Seq<char>, u32)| #[trigger]
            outputs.contains(key) <==> exists|i: int|
                0 <= i < ms.len() && (#[trigger] ms[i]).active && ms[i].key@ == key by {
            assert(outputs.contains(key) <==> active_of(ms).contains(key));
        }
    }
    if exactly_active(outputs, ms) {
        assert forall|key: (Seq<char>, u32)| #[trigger]
            outputs.contains(key) <==> active_of(ms).contains(key) by {}
    }
}

/// A switch leads to the second profile only from the first, that is where the
/// active outputs are exactly those of the first. From anywhere else it leads to
/// the first, whatever the second is.
pub proof fn law_anything_but_the_first_profile_leads_to_it(
    config: Config,
    a: Seq<char>,
    b: Seq<char>,
    ms: Seq<Monitor>,
)
    ensures
        exactly_active(resolved(config, config.profiles@[a]@), ms) ==> switch_target(
            config,
            a,
            b,
            active_of(ms),
        ) == b,
        !exactly_active(resolved(config, config.profiles@[a]@), ms) ==> switch_target(
            config,
            a,
            b,
            active_of(ms),
        ) == a,
{
    lemma_exactly_active(resolved(config, config.profiles@[a]@), ms);
}

/// A profile is on screen if every one of its members is a known target, and the
/// active outputs are exactly theirs.
pub proof fn law_a_profile_on_screen_is_what_is_active(config: Config, ms: Seq<Monitor>, i: int)
    ensures
        on_screen(config, active_of(ms))(i) <==> {
            let members = config.profiles.values()[i]@;
            &&& forall|k: int|
                0 <= k < members.len() ==> config.targets@.dom().contains((#[trigger] members[k])@)
            &&& exactly_active(resolved(config, members), ms)
        },
{
    let members = config.profiles.values()[i]@;
    lemma_exactly_active(resolved(config, members), ms);
    lemma_first_where(members, unknown(config));
    let f = first_where(members, unknown(config));
    assert forall|k: int| resolvable(config, members) && 0 <= k < members.len() implies
        config.targets@.dom().contains((#[trigger] members[k])@) by {
        assert(!unknown(config)(members[k]));
    }
}

/// The profile that is called the current one is on screen, and no profile before
/// it in name order is; where none is called that, none is on screen.
pub proof fn law_the_current_profile_is_the_first_on_screen(
    config: Config,
    ms: Seq<Monitor>,
    i: int,
)
    requires
        0 <= i < config.profiles.names().len(),
    ensures
        ({
            let current = first_slot(
                config.profiles.names().len(),
                on_screen(config, active_of(ms)),
            );
            let shown = {
                let members = config.profiles.values()[i]@;
                &&& forall|k: int|
                    0 <= k < members.len() ==> config.targets@.dom().contains(
                        (#[trigger] members[k])@,
                    )
                &&& exactly_active(resolved(config, members), ms)
            };
            &&& i < current ==> !shown
            &&& i == current ==> shown
        }),
{
    law_a_profile_on_screen_is_what_is_active(config, ms, i);
    let all = Seq::new(config.profiles.names().len(), |k: int| k);
    lemma_first_where(all, on_screen(config, active_of(ms)));
    assert(all[i] == i);
}

/// Switching alternates: from the outputs of the profile that one switch goes to,
/// the next switch goes to the other. That the two profiles are not the same set
/// of outputs is all it takes, whatever other profiles there are.
pub proof fn law_switch_alternates(
    config: Config,
    a: Seq<char>,
    b: Seq<char>,
    active: Seq<(Seq<char>, u32)>,
)
    requires
        !same_outputs(
            resolved(config, config.profiles@[a]@),
            resolved(config, config.profiles@[b]@),
        ),
    ensures
        ({
            let first = switch_target(config, a, b, active);
            let then = resolved(config, config.profiles@[first]@);
            switch_target(config, a, b, then) == if first == a {
                b
            } else {
                a
            }
        }),
{
}

/// Profiles whose outputs are exactly the active ones. One that names an unknown
/// target describes no set of outputs.
pub open spec fn on_screen(config: Config, active: Seq<(Seq<char>, u32)>) -> spec_fn(int) -> bool {
    |i: int|
        {
            &&& resolvable(config, config.profiles.values()[i]@)
            &&& same_outputs(resolved(config, config.profiles.values()[i]@), active)
        }
}

/// The profile that is on screen, if one is: the first in name order.
pub fn current_profile(config: &Config, monitors: &[Monitor]) -> (r: Option<String>)
    ensures
        ({
            let n = config.profiles.names().len();
            let i = first_slot(n, on_screen(*config, active_of(monitors@)));
            opt_text(r) == if i < n {
                Some(config.profiles.names()[i])
            } else {
                None
            }
        }),
{
    let active = active_keys(monitors);
    let ghost meets = on_screen(*config, active_of(monitors@));
    let n = config.profiles.len();
    for i in 0..n
        invariant
            n == config.profiles.names().len(),
            config.profiles.wf(),
            keys_of(active@) == active_of(monitors@),
            meets == on_screen(*config, active_of(monitors@)),
            forall|j: int| 0 <= j < i ==> !#[trigger] meets(j),
    {
        if let Ok(keys) = resolve(config, config.profiles.value_at(i).as_slice()) {
            if same_set(keys.as_slice(), active.as_slice()) {
                proof {
                    lemma_first_slot_is(n as nat, meets, i as int);
                }
                return Some(config.profiles.name_at(i).clone());
            }
        }
    }
    proof {
        lemma_first_slot_is(n as nat, meets, n as int);
    }
    None
}

/// A build without power control mentions each display that it would have powered, those
/// to wake first, in one note, and says nothing where there are none.
pub proof fn law_unpowered_displays_are_mentioned(plan: CecPlan, a: Seq<char>, b: Seq<char>)
    ensures
        plan.affected().len() == plan.waking@.len() + plan.sleeping@.len(),
        forall|i: int|
            0 <= i < plan.waking@.len() ==> plan.affected()[i] == (
            #[trigger] plan.waking@[i]).name@,
        forall|i: int|
            0 <= i < plan.sleeping@.len() ==> plan.affected()[plan.waking@.len() + i] == (
            #[trigger] plan.sleeping@[i]).name@,
        unpowered_notes(Seq::empty()).len() == 0,
        unpowered_notes(seq![a, b]) == seq![
            a + ", "@ + b
                + " would have been powered over CEC, but this build has the \"cec\" feature off"@,
        ],
{
    reveal_with_fuel(join, 3);
    assert(seq![a, b].drop_last() =~= seq![a]);
    assert(seq![a].drop_last() =~= Seq::empty());
    assert(join(seq![a, b], ", "@) =~= a + ", "@ + b);
}

/// An output that is there is told of by its label and its target id.
pub proof fn law_an_output_that_is_there_is_told_of(ms: Seq<Monitor>, i: int)
    requires
        0 <= i < ms.len(),
    ensures
        present_lines(ms).len() == ms.len(),
        present_lines(ms)[i] == ms[i].name.labelled() + " (target "@ + decimal(
            ms[i].key.target_id as nat,
        ) + ")"@,
{
}

/// Displays are powered only about a change that was made.
pub proof fn law_only_a_change_powers_displays(
    config: &Config,
    outcome: Outcome,
    desired: &[TargetKey],
    was_active: &[TargetKey],
    r: CecPlan,
)
    requires
        call_ensures(power_plan, (config, outcome, desired, was_active), r),
    ensures
        outcome is Applied ==> r.fits_change(*config, keys_of(desired@), keys_of(was_active@)),
        !(outcome is Applied) ==> r.affected().len() == 0,
{
    if !(outcome is Applied) {
        assert(r.affected() =~= Seq::empty());
    }
}

/// The laws on built paths, profiles and changes are about what the functions here return.
pub proof fn law_changes_are_worked_out_as_stated(
    topo: &Topology,
    names: &FixedNames,
    config: &Config,
    desired: &[TargetKey],
    active: &[TargetKey],
    members: &[String],
    monitors: &[Monitor],
    state: ApplyState,
    answer: &Answer,
)
    ensures
        forall|r: Result<Vec<PathInfo>, Error>|
            call_ensures(build_paths, (topo, desired, names), r) ==> is_build(
                r,
                *topo,
                names,
                desired@,
            ),
        forall|r: Result<Vec<TargetKey>, Error>|
            call_ensures(resolve, (config, members), r) ==> is_resolve(r, *config, members@),
        forall|r: Vec<TargetKey>|
            call_ensures(active_keys, (monitors,), r) ==> keys_of(r@) == active_of(monitors@),
        forall|r: bool|
            call_ensures(same_set, (desired, active), r) ==> r == same_outputs(
                keys_of(desired@),
                keys_of(active@),
            ),
        forall|r: CecPlan|
            call_ensures(cec_transitions, (config, desired, active), r) ==> r.fits_change(
                *config,
                keys_of(desired@),
                keys_of(active@),
            ),
        forall|r: ApplyState|
            call_ensures(apply_step, (state, answer), r) ==> r == apply_next(state, *answer),
        forall|r: Option<u32>|
            call_ensures(ApplyState::call_flags, (&state,), r) ==> r == state.wanted_flags(),
{
}

/// A switch between two profiles that are there, with known members, goes to the second
/// exactly where what is active is the first, and to the first from anywhere else. A name
/// that is not there, the first before the second, is refused whatever is active.
pub proof fn law_a_switch_goes_by_what_is_active(
    config: &Config,
    a: &str,
    b: &str,
    seen: Result<Vec<Monitor>, Error>,
    r: Result<String, Error>,
)
    requires
        call_ensures(switch, (config, a, b, seen), r),
    ensures
        !config.profiles@.dom().contains(a@) ==> (r matches Err(Error::UnknownProfile {
            name,
            known,
        }) && name@ == a@),
        config.profiles@.dom().contains(a@) && !config.profiles@.dom().contains(b@) ==> (
        r matches Err(Error::UnknownProfile { name, known }) && name@ == b@),
        config.profiles@.dom().contains(a@) && config.profiles@.dom().contains(b@) && (forall|
            k: int,
        |
            0 <= k < config.profiles@[a@]@.len() ==> config.targets@.dom().contains(
                (#[trigger] config.profiles@[a@]@[k])@,
            )) ==> match seen {
            Ok(ms) => r matches Ok(name) && if exactly_active(
                resolved(*config, config.profiles@[a@]@),
                ms@,
            ) {
                name@ == b@
            } else {
                name@ == a@
            },
            Err(error) => r matches Err(e) && e == error,
        },
{
    if let Ok(ms) = seen {
        law_anything_but_the_first_profile_leads_to_it(*config, a@, b@, ms@);
    }
    if config.profiles@.dom().contains(a@) {
        let members = config.profiles@[a@]@;
        lemma_first_where(members, unknown(*config));
        let f = first_where(members, unknown(*config));
        if f < members.len() {
            assert(unknown(*config)(members[f]));
            assert(!config.targets@.dom().contains(members[f]@));
        }
    }
}

/// The current profile is one whose outputs are exactly the active ones, and the first
/// such in name order; there is none only where no profile is such.
pub proof fn law_the_current_profile_is_on_screen(
    config: &Config,
    monitors: &[Monitor],
    r: Option<String>,
    i: int,
)
    requires
        call_ensures(current_profile, (config, monitors), r),
        0 <= i < config.profiles.names().len(),
        exactly_active(resolved(*config, config.profiles.values()[i]@), monitors@),
        forall|k: int|
            0 <= k < config.profiles.values()[i]@.len() ==> config.targets@.dom().contains(
                (#[trigger] config.profiles.values()[i]@[k])@,
            ),
    ensures
        r is Some,
        exists|j: int|
            0 <= j <= i && #[trigger] config.profiles.names()[j] == r->0@ && exactly_active(
                resolved(*config, config.profiles.values()[j]@),
                monitors@,
            ),
{
    let n = config.profiles.names().len();
    let current = first_slot(n, on_screen(*config, active_of(monitors@)));
    law_the_current_profile_is_the_first_on_screen(*config, monitors@, i);
    assert(current <= i);
    let all = Seq::new(n, |k: int| k);
    lemma_first_where(all, on_screen(*config, active_of(monitors@)));
    law_the_current_profile_is_the_first_on_screen(*config, monitors@, current);
    assert(config.profiles.names()[current] == r->0@);
}

/// What working out a change and powering displays come to is what the laws here speak of.
pub proof fn law_a_profile_is_applied_as_stated(
    topo: &Topology,
    names: &FixedNames,
    config: &Config,
    profile: &str,
    desired: Vec<TargetKey>,
    dry_run: bool,
    seen: Result<(Topology, FixedNames), Error>,
    plan: CecPlan,
)
    ensures
        forall|r: Result<Applying, Error>|
            call_ensures(apply_targets, (topo, names, desired, dry_run), r) ==> is_apply(
                r,
                *topo,
                names,
                desired@,
                dry_run,
            ),
        forall|r: Result<Applying, Error>|
            call_ensures(apply_profile, (config, profile, dry_run, seen), r) ==> is_apply_profile(
                r,
                *config,
                profile@,
                dry_run,
                seen,
            ),
        forall|r: Result<Vec<TargetKey>, Error>|
            call_ensures(wanted, (config, profile), r) ==> is_wanted(r, *config, profile@),
        forall|r: Vec<String>|
            call_ensures(run_cec, (&plan,), r) ==> texts(r@) == unpowered_notes(plan.affected()),
        forall|r: Vec<PowerStep>|
            call_ensures(power_steps, (plan,), r) ==> r@ == steps_of(
                plan.sleeping@,
                Power::Standby,
            ) + steps_of(plan.waking@, Power::On),
{
}

/// A build fails over the first path to an output that is there whose adapter has no known
/// device path, before anything else is wrong.
pub proof fn law_a_build_needs_every_adapter(
    r: Result<Vec<PathInfo>, Error>,
    topo: Topology,
    names: &FixedNames,
    desired: Seq<TargetKey>,
    p: int,
)
    requires
        is_build(r, topo, names, desired),
        0 <= p < topo.paths@.len(),
        topo.paths@[p].target_info.target_available,
        names.path_of(topo.paths@[p].target_info.adapter_id) is None,
        forall|q: int|
            0 <= q < p && (#[trigger] topo.paths@[q]).target_info.target_available
                ==> names.path_of(topo.paths@[q].target_info.adapter_id) is Some,
    ensures
        r matches Err(e) && e == match names.adapter_reply(topo.paths@[p].target_info.adapter_id) {
            Some(Err(answer)) => Error::AdapterName { answer },
            _ => Error::NoAdapter { adapter: topo.paths@[p].target_info.adapter_id },
        },
{
    let paths = topo.paths@;
    assert forall|q: int| 0 <= q < p implies !unroutable(names)(#[trigger] paths[q]) by {}
    lemma_first_where_is(paths, unroutable(names), p);
}

} // verus!
