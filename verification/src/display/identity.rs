//! Stable monitor identity.
//!
//! The whole design rests on a key for a physical output that survives that
//! output being switched off. Ids out of the EDID do not: once a display goes
//! inactive Windows reports them blank. The pair of adapter device path and
//! target id does, because the connector's hot-plug-detect line stays live
//! whether or not anything is being driven over it.
//!
//! The adapter's handle is no part of the key: it is resolved afresh on every
//! run and never written to disk.

use vstd::prelude::*;
use vstd::string::*;

use super::ccd::{
    FixedNames, Luid, PathInfo, SourceMode, TargetName, Topology,
};
use crate::error::Error;
use crate::seqs::{
    first_where, lemma_first_where, lemma_first_where_is, lemma_first_where_take,
    lemma_ordered_unique,
};
use crate::text::{cat4, same_text};

verus! {

/// The persistent identity of a physical output.
#[derive(Debug, PartialEq, Eq)]
pub struct TargetKey {
    /// Device path of the GPU, such as `\\?\PCI#VEN_10DE&DEV_2705#...`.
    pub adapter: String,
    /// Target id of the output on that adapter.
    pub target_id: u32,
}

/// What a key says: the adapter's device path and the target id.
impl View for TargetKey {
    type V = (Seq<char>, u32);

    open spec fn view(&self) -> (Seq<char>, u32) {
        (self.adapter@, self.target_id)
    }
}

impl Clone for TargetKey {
    fn clone(&self) -> (r: TargetKey)
        ensures
            r == *self,
    {
        TargetKey { adapter: self.adapter.clone(), target_id: self.target_id }
    }
}

impl TargetKey {
    /// Whether two keys stand for the same output.
    pub fn same_key(&self, other: &TargetKey) -> (r: bool)
        ensures
            r == (self@ == other@),
    {
        self.target_id == other.target_id && same_text(
            self.adapter.as_str(),
            other.adapter.as_str(),
        )
    }
}

/// A refresh rate, as the fraction that Windows reports.
#[derive(Debug, Clone, Copy, PartialEq, Eq, Structural)]
pub struct Refresh {
    pub numerator: u32,
    pub denominator: u32,
}

/// A physical output as it exists right now.
#[derive(Debug)]
pub struct Monitor {
    pub key: TargetKey,
    /// Live handle for this run only, never stored.
    pub adapter_luid: Luid,
    pub source_id: u32,
    pub active: bool,
    pub available: bool,
    pub name: TargetName,
    pub mode: Option<SourceMode>,
    /// The refresh rate, where both numbers of it are given.
    pub refresh: Option<Refresh>,
    pub gdi_name: Option<String>,
}

impl TargetName {
    /// The best label that what an output reports makes up.
    pub open spec fn labelled(self) -> Seq<char> {
        match (self.friendly, self.edid) {
            (Some(f), Some(e)) => f@ + " ["@ + e@ + "]"@,
            (Some(f), None) => f@,
            (None, Some(e)) => e@,
            (None, None) => "(unidentified)"@,
        }
    }
}

impl Monitor {
    /// Best human-readable label available, for matching by eye.
    pub fn label(&self) -> (r: String)
        ensures
            r@ == self.name.labelled(),
    {
        match (&self.name.friendly, &self.name.edid) {
            (Some(f), Some(e)) => cat4(f.as_str(), " [", e.as_str(), "]"),
            (Some(f), None) => f.clone(),
            (None, Some(e)) => e.clone(),
            (None, None) => "(unidentified)".to_owned(),
        }
    }
}

// ---------------------------------------------------------------------------
// One entry per physical output
// ---------------------------------------------------------------------------

/// Whether a path leads to an output that exists. Targets that the GPU does not
/// report as available are phantoms, unless they are active.
pub open spec fn shown(path: PathInfo) -> bool {
    path.available() || path.active()
}

/// The key of the output that a path leads to.
pub open spec fn key_of(names: &FixedNames, path: PathInfo) -> (Seq<char>, u32) {
    (names.path_of(path.target_info.adapter_id)->0@, path.target_info.id)
}

/// Paths that lead to the output with a key.
pub open spec fn mentions(names: &FixedNames, key: (Seq<char>, u32)) -> spec_fn(PathInfo) -> bool {
    |p: PathInfo| shown(p) && key_of(names, p) == key
}

/// Active paths that lead to the output with a key.
pub open spec fn drives(names: &FixedNames, key: (Seq<char>, u32)) -> spec_fn(PathInfo) -> bool {
    |p: PathInfo| p.active() && key_of(names, p) == key
}

/// The path from which the entry for an output is made: the first active one,
/// since only it carries a mode, or else the first of all.
pub open spec fn chosen(paths: Seq<PathInfo>, names: &FixedNames, key: (Seq<char>, u32)) -> int {
    let driving = first_where(paths, drives(names, key));
    if driving < paths.len() {
        driving
    } else {
        first_where(paths, mentions(names, key))
    }
}

/// The entry that a path gives.
pub open spec fn monitor_of(path: PathInfo, topo: Topology, names: &FixedNames) -> Monitor {
    Monitor {
        key: TargetKey {
            adapter: names.path_of(path.target_info.adapter_id)->0,
            target_id: path.target_info.id,
        },
        adapter_luid: path.target_info.adapter_id,
        source_id: path.source_info.id,
        active: path.active(),
        available: path.available(),
        name: names.name_of(path.target_info.adapter_id, path.target_info.id),
        mode: if path.active() {
            topo.mode_of(path)
        } else {
            None
        },
        refresh: if path.target_info.refresh_denominator != 0
            && path.target_info.refresh_numerator != 0 {
            Some(
                Refresh {
                    numerator: path.target_info.refresh_numerator,
                    denominator: path.target_info.refresh_denominator,
                },
            )
        } else {
            None
        },
        gdi_name: if path.active() {
            names.gdi_of(path.source_info.adapter_id, path.source_info.id)
        } else {
            None
        },
    }
}

/// Whether an output has an entry.
pub open spec fn listed(ms: Seq<Monitor>, key: (Seq<char>, u32)) -> bool {
    exists|i: int| 0 <= i < ms.len() && (#[trigger] ms[i]).key@ == key
}

/// The order of entries: active displays first, then by target id. Where two
/// adapters use the same target id, the one mentioned first comes first.
pub open spec fn precedes(
    paths: Seq<PathInfo>,
    names: &FixedNames,
    a: Monitor,
    b: Monitor,
) -> bool {
    if a.active != b.active {
        a.active
    } else if a.key.target_id != b.key.target_id {
        a.key.target_id < b.key.target_id
    } else {
        first_where(paths, mentions(names, a.key@)) < first_where(paths, mentions(names, b.key@))
    }
}

/// Every entry is the one that its output's chosen path gives.
pub open spec fn entries_of(ms: Seq<Monitor>, paths: Seq<PathInfo>, topo: Topology, names: &FixedNames) -> bool {
    forall|i: int|
        #![trigger ms[i]]
        0 <= i < ms.len() ==> {
            &&& 0 <= chosen(paths, names, ms[i].key@) < paths.len()
            &&& ms[i] == monitor_of(paths[chosen(paths, names, ms[i].key@)], topo, names)
        }
}

/// Every output that a path leads to has an entry.
pub open spec fn covers(ms: Seq<Monitor>, paths: Seq<PathInfo>, names: &FixedNames) -> bool {
    forall|p: int|
        0 <= p < paths.len() && shown(#[trigger] paths[p]) ==> listed(ms, key_of(names, paths[p]))
}

/// The listing of a topology: one entry for each output, in order.
pub open spec fn is_listing(ms: Seq<Monitor>, topo: Topology, names: &FixedNames) -> bool {
    &&& entries_of(ms, topo.paths@, topo, names)
    &&& covers(ms, topo.paths@, names)
    &&& forall|i: int, j: int|
        0 <= i < j < ms.len() ==> precedes(topo.paths@, names, #[trigger] ms[i], #[trigger] ms[j])
}

/// Paths to existing outputs whose adapter has no known device path.
pub open spec fn unresolved(names: &FixedNames) -> spec_fn(PathInfo) -> bool {
    |p: PathInfo| shown(p) && names.path_of(p.target_info.adapter_id) is None
}

/// The error for the first of the paths that meet a condition, for want of a
/// device path of its adapter.
pub open spec fn first_refusal(
    paths: Seq<PathInfo>,
    names: &FixedNames,
    meets: spec_fn(PathInfo) -> bool,
) -> Option<Error> {
    let p = first_where(paths, meets);
    if p < paths.len() {
        Some(names.refusal_of(paths[p].target_info.adapter_id))
    } else {
        None
    }
}

// The entry that a path gives, under the key that it was resolved to.
fn build(path: &PathInfo, key: TargetKey, topo: &Topology, names: &FixedNames) -> (r: Monitor)
    requires
        key == monitor_of(*path, *topo, names).key,
    ensures
        r == monitor_of(*path, *topo, names),
{
    let active = path.is_active();
    let adapter_luid = path.target_info.adapter_id;
    let source_id: u32 = path.source_info.id;
    let refresh = if path.target_info.refresh_denominator != 0
        && path.target_info.refresh_numerator != 0 {
        Some(
            Refresh {
                numerator: path.target_info.refresh_numerator,
                denominator: path.target_info.refresh_denominator,
            },
        )
    } else {
        None
    };
    Monitor {
        key,
        adapter_luid,
        source_id,
        active,
        available: path.target_info.target_available,
        name: names.target_name(adapter_luid, path.target_info.id),
        mode: if active {
            topo.source_mode(path)
        } else {
            None
        },
        refresh,
        gdi_name: if active {
            names.source_gdi_name(path.source_info.adapter_id, source_id)
        } else {
            None
        },
    }
}

// Where the entry for a key stands.
fn entry_for(ms: &Vec<Monitor>, key: &TargetKey) -> (r: Option<usize>)
    ensures
        match r {
            Some(i) => i < ms@.len() && ms@[i as int].key@ == key@,
            None => !listed(ms@, key@),
        },
{
    for i in 0..ms.len()
        invariant
            forall|j: int| 0 <= j < i ==> (#[trigger] ms@[j]).key@ != key@,
    {
        if ms[i].key.same_key(key) {
            return Some(i);
        }
    }
    None
}

/// Entries in the order in which their outputs are first mentioned.
spec fn by_mention(ms: Seq<Monitor>, paths: Seq<PathInfo>, names: &FixedNames) -> bool {
    forall|i: int, j: int|
        #![trigger ms[i], ms[j]]
        0 <= i < j < ms.len() ==> first_where(paths, mentions(names, ms[i].key@)) < first_where(
            paths,
            mentions(names, ms[j].key@),
        )
}

// What one path more changes about which path is chosen and mentioned first.
proof fn lemma_next_path(
    paths: Seq<PathInfo>,
    names: &FixedNames,
    key: (Seq<char>, u32),
    n: int,
)
    requires
        0 <= n < paths.len(),
    ensures
        ({
            let now = paths.take(n);
            let next = paths.take(n + 1);
            &&& 0 <= first_where(now, mentions(names, key)) <= n
            &&& first_where(now, mentions(names, key)) < n ==> first_where(
                next,
                mentions(names, key),
            ) == first_where(now, mentions(names, key))
            &&& 0 <= chosen(now, names, key) <= n
            &&& chosen(now, names, key) < n <==> first_where(now, mentions(names, key)) < n
            &&& chosen(now, names, key) < n ==> key_of(names, paths[chosen(now, names, key)]) == key
                && shown(paths[chosen(now, names, key)])
            &&& chosen(now, names, key) < n && !(mentions(names, key)(paths[n])
                && paths[n].active() && !paths[chosen(now, names, key)].active()) ==> chosen(
                next,
                names,
                key,
            ) == chosen(now, names, key)
            &&& chosen(now, names, key) < n && mentions(names, key)(paths[n]) && paths[n].active()
                && !paths[chosen(now, names, key)].active() ==> chosen(next, names, key) == n
            &&& chosen(now, names, key) == n && mentions(names, key)(paths[n]) ==> chosen(
                next,
                names,
                key,
            ) == n && first_where(next, mentions(names, key)) == n
        }),
{
    let now = paths.take(n);
    lemma_first_where(now, mentions(names, key));
    lemma_first_where(now, drives(names, key));
    lemma_first_where_take(paths, mentions(names, key), n);
    lemma_first_where_take(paths, drives(names, key), n);
    let m = first_where(now, mentions(names, key));
    let d = first_where(now, drives(names, key));
    if d < n {
        assert(drives(names, key)(now[d]));
        assert(mentions(names, key)(now[d]));
        if m == n {
            assert(!mentions(names, key)(now[d]));
        }
    } else if m < n {
        assert(mentions(names, key)(now[m]));
        assert(!drives(names, key)(now[m]));
    }
}

/// What collapsing the first paths of a topology has come to.
spec fn collapsed(ms: Seq<Monitor>, topo: Topology, names: &FixedNames, n: int) -> bool {
    &&& entries_of(ms, topo.paths@.take(n), topo, names)
    &&& covers(ms, topo.paths@.take(n), names)
    &&& by_mention(ms, topo.paths@.take(n), names)
}

// An existing entry keeps its place, and its path unless a first active one
// comes along.
proof fn lemma_collapse_kept(
    ms: Seq<Monitor>,
    topo: Topology,
    names: &FixedNames,
    n: int,
    after: Seq<Monitor>,
)
    requires
        0 <= n < topo.paths@.len(),
        collapsed(ms, topo, names, n),
        after.len() == ms.len(),
        shown(topo.paths@[n]) ==> listed(ms, key_of(names, topo.paths@[n])),
        forall|j: int|
            #![trigger after[j]]
            0 <= j < ms.len() ==> if mentions(names, ms[j].key@)(topo.paths@[n])
                && topo.paths@[n].active() && !ms[j].active {
                after[j] == monitor_of(topo.paths@[n], topo, names)
            } else {
                after[j] == ms[j]
            },
    ensures
        collapsed(after, topo, names, n + 1),
{
    let paths = topo.paths@;
    let now = paths.take(n);
    let next = paths.take(n + 1);
    assert forall|j: int| 0 <= j < ms.len() implies {
        &&& (#[trigger] after[j]).key@ == ms[j].key@
        &&& 0 <= chosen(next, names, after[j].key@) < next.len()
        &&& after[j] == monitor_of(next[chosen(next, names, after[j].key@)], topo, names)
        &&& first_where(next, mentions(names, after[j].key@)) == first_where(
            now,
            mentions(names, ms[j].key@),
        )
    } by {
        lemma_next_path(paths, names, ms[j].key@, n);
        assert(now[chosen(now, names, ms[j].key@)] == paths[chosen(now, names, ms[j].key@)]);
    }
    assert forall|p: int| 0 <= p < next.len() && shown(#[trigger] next[p]) implies listed(
        after,
        key_of(names, next[p]),
    ) by {
        if p < n {
            assert(now[p] == next[p]);
        }
        assert(listed(ms, key_of(names, next[p])));
        let j = choose|j: int| 0 <= j < ms.len() && (#[trigger] ms[j]).key@ == key_of(names, next[p]);
        assert(after[j].key@ == key_of(names, next[p]));
    }
    assert forall|i: int, j: int|
        #![trigger after[i], after[j]]
        0 <= i < j < after.len() implies first_where(next, mentions(names, after[i].key@))
        < first_where(next, mentions(names, after[j].key@)) by {
        assert(first_where(now, mentions(names, ms[i].key@)) < first_where(
            now,
            mentions(names, ms[j].key@),
        ));
    }
}

// An output that was not mentioned before gets an entry at the end.
proof fn lemma_collapse_new(ms: Seq<Monitor>, topo: Topology, names: &FixedNames, n: int)
    requires
        0 <= n < topo.paths@.len(),
        collapsed(ms, topo, names, n),
        shown(topo.paths@[n]),
        !listed(ms, key_of(names, topo.paths@[n])),
    ensures
        collapsed(ms.push(monitor_of(topo.paths@[n], topo, names)), topo, names, n + 1),
{
    let paths = topo.paths@;
    let now = paths.take(n);
    let next = paths.take(n + 1);
    let key = key_of(names, paths[n]);
    let after = ms.push(monitor_of(paths[n], topo, names));
    lemma_next_path(paths, names, key, n);
    lemma_first_where(now, mentions(names, key));
    let m = first_where(now, mentions(names, key));
    if m < n {
        assert(shown(now[m]) && key_of(names, now[m]) == key);
    }
    assert(after[ms.len() as int].key@ == key);
    assert forall|j: int| 0 <= j < ms.len() implies {
        &&& (#[trigger] after[j]) == ms[j]
        &&& 0 <= chosen(next, names, after[j].key@) < next.len()
        &&& after[j] == monitor_of(next[chosen(next, names, after[j].key@)], topo, names)
        &&& first_where(next, mentions(names, after[j].key@)) == first_where(
            now,
            mentions(names, ms[j].key@),
        )
        &&& first_where(now, mentions(names, ms[j].key@)) < n
    } by {
        lemma_next_path(paths, names, ms[j].key@, n);
        assert(now[chosen(now, names, ms[j].key@)] == paths[chosen(now, names, ms[j].key@)]);
        assert(ms[j].key@ != key);
    }
    assert forall|p: int| 0 <= p < next.len() && shown(#[trigger] next[p]) implies listed(
        after,
        key_of(names, next[p]),
    ) by {
        if p < n {
            assert(now[p] == next[p]);
            assert(listed(ms, key_of(names, next[p])));
            let j = choose|j: int|
                0 <= j < ms.len() && (#[trigger] ms[j]).key@ == key_of(names, next[p]);
            assert(after[j].key@ == key_of(names, next[p]));
        }
    }
    assert forall|i: int, j: int|
        #![trigger after[i], after[j]]
        0 <= i < j < after.len() implies first_where(next, mentions(names, after[i].key@))
        < first_where(next, mentions(names, after[j].key@)) by {
        if j < ms.len() {
            assert(first_where(now, mentions(names, ms[i].key@)) < first_where(
                now,
                mentions(names, ms[j].key@),
            ));
        }
    }
}

// One entry per physical output, in the order in which outputs are mentioned.
fn collapse(topo: &Topology, names: &FixedNames) -> (r: Result<Vec<Monitor>, Error>)
    ensures
        match r {
            Ok(ms) => first_refusal(topo.paths@, names, unresolved(names)) is None && collapsed(
                ms@,
                *topo,
                names,
                topo.paths@.len() as int,
            ),
            Err(e) => first_refusal(topo.paths@, names, unresolved(names)) == Some(e),
        },
{
    let mut out: Vec<Monitor> = Vec::new();
    for i in 0..topo.paths.len()
        invariant
            forall|j: int| 0 <= j < i ==> !unresolved(names)(#[trigger] topo.paths@[j]),
            collapsed(out@, *topo, names, i as int),
    {
        let path = &topo.paths[i];
        let ghost ms = out@;
        let active = path.is_active();
        if path.target_info.target_available || active {
            let adapter = match names.adapter_path(path.target_info.adapter_id) {
                Ok(adapter) => adapter,
                Err(e) => {
                    proof {
                        lemma_first_where_is(topo.paths@, unresolved(names), i as int);
                    }
                    return Err(e);
                },
            };
            let key = TargetKey { adapter, target_id: path.target_info.id };
            match entry_for(&out, &key) {
                Some(x) => {
                    // Keep the active path if the target was first seen on an
                    // inactive one; otherwise skip the duplicate.
                    if active && !out[x].active {
                        let better = build(path, key, topo, names);
                        out.set(x, better);
                    }
                    proof {
                        assert forall|j: int| 0 <= j < ms.len() && j != x implies (
                        #[trigger] out@[j]).key@ != key@ by {
                            assert(ms[j].key@ != ms[x as int].key@);
                        }
                        lemma_collapse_kept(ms, *topo, names, i as int, out@);
                    }
                },
                None => {
                    out.push(build(path, key, topo, names));
                    proof {
                        lemma_collapse_new(ms, *topo, names, i as int);
                    }
                },
            }
        } else {
            proof {
                lemma_collapse_kept(ms, *topo, names, i as int, out@);
            }
        }
    }
    proof {
        lemma_first_where_is(topo.paths@, unresolved(names), topo.paths@.len() as int);
    }
    Ok(out)
}

// Whether an entry sorts before another.
fn before_entry(a: &Monitor, b: &Monitor) -> (r: bool)
    ensures
        r == sorts_before(*a, *b),
{
    if a.active != b.active {
        a.active
    } else {
        a.key.target_id < b.key.target_id
    }
}

// Where to put an entry among entries that are in order: behind all that are not
// behind it by activity and target id.
fn place_for(ms: &Vec<Monitor>, m: &Monitor) -> (pos: usize)
    ensures
        pos <= ms@.len(),
        forall|j: int| 0 <= j < pos ==> !sorts_before(*m, #[trigger] ms@[j]),
        pos < ms@.len() ==> sorts_before(*m, ms@[pos as int]),
{
    let mut pos: usize = 0;
    while pos < ms.len() && !before_entry(m, &ms[pos])
        invariant
            pos <= ms@.len(),
            forall|j: int| 0 <= j < pos ==> !sorts_before(*m, #[trigger] ms@[j]),
        decreases ms@.len() - pos,
    {
        pos += 1;
    }
    pos
}

/// Active before inactive, then by target id.
pub open spec fn sorts_before(a: Monitor, b: Monitor) -> bool {
    if a.active != b.active {
        a.active
    } else {
        a.key.target_id < b.key.target_id
    }
}

/// Entries in the order of a listing.
spec fn in_order(ms: Seq<Monitor>, paths: Seq<PathInfo>, names: &FixedNames) -> bool {
    forall|i: int, j: int|
        0 <= i < j < ms.len() ==> precedes(paths, names, #[trigger] ms[i], #[trigger] ms[j])
}

// Put entries that are in order of mention in the order of a listing. Entries
// that sort alike stay in order of mention.
fn sort(out: Vec<Monitor>, Ghost(paths): Ghost<Seq<PathInfo>>, names: &FixedNames) -> (r: Vec<
    Monitor,
>)
    requires
        by_mention(out@, paths, names),
    ensures
        in_order(r@, paths, names),
        forall|m: Monitor| #![trigger r@.contains(m)] #![trigger out@.contains(m)] r@.contains(m) == out@.contains(m),
{
    let ghost all = out@;
    let mut rest = out;
    let mut sorted: Vec<Monitor> = Vec::new();
    let ghost mut k: int = 0;
    assert(all.skip(0) =~= all);
    while rest.len() > 0
        invariant
            0 <= k <= all.len(),
            rest@ == all.skip(k),
            by_mention(all, paths, names),
            in_order(sorted@, paths, names),
            forall|m: Monitor|
                #![trigger sorted@.contains(m)]
                #![trigger all.take(k).contains(m)]
                sorted@.contains(m) == all.take(k).contains(m),
        decreases rest@.len(),
    {
        let m = rest.remove(0);
        assert(rest@ =~= all.skip(k + 1));
        assert(m == all[k]);
        let pos = place_for(&sorted, &m);
        let ghost earlier = sorted@;
        sorted.insert(pos, m);
        proof {
            let now = sorted@;
            assert forall|j: int| 0 <= j < earlier.len() implies first_where(
                paths,
                mentions(names, (#[trigger] earlier[j]).key@),
            ) < first_where(paths, mentions(names, m.key@)) by {
                assert(earlier.contains(earlier[j]));
                assert(all.take(k).contains(earlier[j]));
                let a = choose|a: int| 0 <= a < k && all.take(k)[a] == earlier[j];
                assert(all[a] == earlier[j]);
            }
            assert forall|i: int, j: int| 0 <= i < j < now.len() implies precedes(
                paths,
                names,
                #[trigger] now[i],
                #[trigger] now[j],
            ) by {
                if j < pos {
                    assert(now[i] == earlier[i] && now[j] == earlier[j]);
                } else if j == pos {
                    assert(now[i] == earlier[i]);
                } else if i < pos {
                    assert(now[i] == earlier[i] && now[j] == earlier[j - 1]);
                } else if i == pos {
                    assert(now[j] == earlier[j - 1]);
                    if j - 1 > pos {
                        assert(precedes(paths, names, earlier[pos as int], earlier[j - 1]));
                    }
                } else {
                    assert(now[i] == earlier[i - 1] && now[j] == earlier[j - 1]);
                }
            }
            assert forall|x: Monitor|
                #![trigger now.contains(x)]
                #![trigger all.take(k + 1).contains(x)]
                now.contains(x) == all.take(k + 1).contains(x) by {
                assert(now[pos as int] == m && all.take(k + 1)[k] == m);
                if now.contains(x) {
                    let i = choose|i: int| 0 <= i < now.len() && now[i] == x;
                    if i < pos {
                        assert(earlier[i] == x);
                        assert(earlier.contains(x));
                    } else if i > pos {
                        assert(earlier[i - 1] == x);
                        assert(earlier.contains(x));
                    }
                    if x != m {
                        assert(all.take(k).contains(x));
                        let a = choose|a: int| 0 <= a < k && all.take(k)[a] == x;
                        assert(all.take(k + 1)[a] == x);
                    }
                }
                if all.take(k + 1).contains(x) {
                    let grown = all.take(k + 1);
                    let a = choose|a: int| 0 <= a < grown.len() && grown[a] == x;
                    if a < k {
                        assert(all.take(k)[a] == x);
                        assert(all.take(k).contains(x));
                        assert(earlier.contains(x));
                        let i = choose|i: int| 0 <= i < earlier.len() && earlier[i] == x;
                        if i < pos {
                            assert(now[i] == x);
                        } else {
                            assert(now[i + 1] == x);
                        }
                    }
                }
            }
            k = k + 1;
        }
    }
    assert(all.take(all.len() as int) =~= all);
    sorted
}

/// Collapse the paths of a topology into one entry per physical output.
///
/// A query for all paths returns roughly every source with every target, so a
/// single monitor appears many times. Where a target has several paths the
/// active one is kept, since only it carries mode information. Active displays
/// come first, then by target id, so that the listing does not follow the order
/// of the paths.
pub fn enumerate(topo: &Topology, names: &FixedNames) -> (r: Result<Vec<Monitor>, Error>)
    ensures
        match r {
            Ok(ms) => first_refusal(topo.paths@, names, unresolved(names)) is None && is_listing(
                ms@,
                *topo,
                names,
            ),
            Err(e) => first_refusal(topo.paths@, names, unresolved(names)) == Some(e),
        },
{
    match collapse(topo, names) {
        Ok(out) => {
            let ghost ms = out@;
            assert(topo.paths@.take(topo.paths@.len() as int) =~= topo.paths@);
            let sorted = sort(out, Ghost(topo.paths@), names);
            proof {
                assert forall|i: int| #![trigger sorted@[i]] 0 <= i < sorted@.len() implies {
                    &&& 0 <= chosen(topo.paths@, names, sorted@[i].key@) < topo.paths@.len()
                    &&& sorted@[i] == monitor_of(
                        topo.paths@[chosen(topo.paths@, names, sorted@[i].key@)],
                        *topo,
                        names,
                    )
                } by {
                    assert(sorted@.contains(sorted@[i]));
                    assert(ms.contains(sorted@[i]));
                }
                assert forall|p: int|
                    0 <= p < topo.paths@.len() && shown(#[trigger] topo.paths@[p]) implies listed(
                    sorted@,
                    key_of(names, topo.paths@[p]),
                ) by {
                    let key = key_of(names, topo.paths@[p]);
                    assert(listed(ms, key));
                    let j = choose|j: int| 0 <= j < ms.len() && (#[trigger] ms[j]).key@ == key;
                    assert(ms.contains(ms[j]));
                    assert(sorted@.contains(ms[j]));
                }
            }
            Ok(sorted)
        },
        Err(e) => Err(e),
    }
}

// ---------------------------------------------------------------------------
// What holds of listings
// ---------------------------------------------------------------------------

/// An output appears in a listing only once.
pub proof fn law_each_output_is_listed_once(ms: Seq<Monitor>, topo: Topology, names: &FixedNames)
    requires
        is_listing(ms, topo, names),
    ensures
        forall|i: int, j: int|
            0 <= i < j < ms.len() ==> (#[trigger] ms[i]).key@ != (#[trigger] ms[j]).key@,
{
    let paths = topo.paths@;
    assert forall|i: int, j: int| 0 <= i < j < ms.len() implies (#[trigger] ms[i]).key@ != (
    #[trigger] ms[j]).key@ by {
        assert(precedes(paths, names, ms[i], ms[j]));
    }
}

/// The entry for an output is active exactly if some path to it is.
pub proof fn law_an_active_path_wins(ms: Seq<Monitor>, topo: Topology, names: &FixedNames, i: int)
    requires
        is_listing(ms, topo, names),
        0 <= i < ms.len(),
    ensures
        ms[i].active == exists|p: int|
            0 <= p < topo.paths@.len() && (#[trigger] topo.paths@[p]).active() && key_of(
                names,
                topo.paths@[p],
            ) == ms[i].key@,
        exists|p: int|
            0 <= p < topo.paths@.len() && shown(#[trigger] topo.paths@[p]) && key_of(
                names,
                topo.paths@[p],
            ) == ms[i].key@,
{
    let key = ms[i].key@;
    let paths = topo.paths@;
    lemma_first_where(paths, drives(names, key));
    lemma_first_where(paths, mentions(names, key));
    let c = chosen(paths, names, key);
    assert(shown(paths[c]) && key_of(names, paths[c]) == key);
    if first_where(paths, drives(names, key)) < paths.len() {
        assert(paths[c].active());
    } else if exists|p: int|
        0 <= p < paths.len() && (#[trigger] paths[p]).active() && key_of(names, paths[p]) == key {
        let p = choose|p: int|
            0 <= p < paths.len() && (#[trigger] paths[p]).active() && key_of(names, paths[p])
                == key;
        assert(!drives(names, key)(paths[p]));
    }
}

/// A topology has one listing.
pub proof fn law_listing_is_determined(
    a: Seq<Monitor>,
    b: Seq<Monitor>,
    topo: Topology,
    names: &FixedNames,
)
    requires
        is_listing(a, topo, names),
        is_listing(b, topo, names),
    ensures
        a == b,
{
    let lt = |x: Monitor, y: Monitor| precedes(topo.paths@, names, x, y);
    lemma_same_entries(a, b, topo, names);
    lemma_same_entries(b, a, topo, names);
    lemma_ordered_unique(a, b, lt);
}

// What one listing of a topology holds, another holds too.
proof fn lemma_same_entries(
    a: Seq<Monitor>,
    b: Seq<Monitor>,
    topo: Topology,
    names: &FixedNames,
)
    requires
        is_listing(a, topo, names),
        is_listing(b, topo, names),
    ensures
        forall|m: Monitor| #[trigger] a.contains(m) ==> b.contains(m),
{
    assert forall|m: Monitor| #[trigger] a.contains(m) implies b.contains(m) by {
        let i = choose|i: int| 0 <= i < a.len() && a[i] == m;
        law_an_active_path_wins(a, topo, names, i);
        assert(listed(b, a[i].key@));
        let j = choose|j: int| 0 <= j < b.len() && (#[trigger] b[j]).key@ == a[i].key@;
        assert(b[j] == m);
    }
}

/// What a listing says of its outputs, in order: which are active, and their
/// keys.
pub open spec fn outline(ms: Seq<Monitor>) -> Seq<(bool, (Seq<char>, u32))> {
    ms.map_values(|m: Monitor| (m.active, m.key@))
}

/// Whether a topology has an active path to an output, or any path at all.
pub open spec fn presence(topo: Topology, names: &FixedNames, key: (Seq<char>, u32)) -> (
    bool,
    bool,
) {
    (
        first_where(topo.paths@, drives(names, key)) < topo.paths@.len(),
        first_where(topo.paths@, mentions(names, key)) < topo.paths@.len(),
    )
}

/// The listing does not follow the order of the paths: where no two outputs have
/// the same target id, topologies with the same outputs, and the same of them
/// active, are listed in the same order, however their paths are arranged.
pub proof fn law_listing_ignores_path_order(
    a: Seq<Monitor>,
    ta: Topology,
    na: &FixedNames,
    b: Seq<Monitor>,
    tb: Topology,
    nb: &FixedNames,
)
    requires
        is_listing(a, ta, na),
        is_listing(b, tb, nb),
        forall|key: (Seq<char>, u32)| presence(ta, na, key) == presence(tb, nb, key),
        forall|i: int, j: int|
            0 <= i < j < a.len() ==> (#[trigger] a[i]).key.target_id != (
            #[trigger] a[j]).key.target_id,
    ensures
        outline(a) == outline(b),
{
    let lt = |x: (bool, (Seq<char>, u32)), y: (bool, (Seq<char>, u32))|
        if x.0 != y.0 {
            x.0
        } else {
            x.1.1 < y.1.1
        };
    lemma_same_outline(a, ta, na, b, tb, nb);
    lemma_same_outline(b, tb, nb, a, ta, na);
    law_each_output_is_listed_once(b, tb, nb);
    assert forall|i: int, j: int| 0 <= i < j < outline(a).len() implies lt(
        #[trigger] outline(a)[i],
        #[trigger] outline(a)[j],
    ) by {
        assert(precedes(ta.paths@, na, a[i], a[j]));
    }
    assert forall|i: int, j: int| 0 <= i < j < outline(b).len() implies lt(
        #[trigger] outline(b)[i],
        #[trigger] outline(b)[j],
    ) by {
        assert(precedes(tb.paths@, nb, b[i], b[j]));
        assert(outline(b).contains(outline(b)[i]));
        assert(outline(b).contains(outline(b)[j]));
        let x = choose|x: int| 0 <= x < outline(a).len() && outline(a)[x] == outline(b)[i];
        let y = choose|y: int| 0 <= y < outline(a).len() && outline(a)[y] == outline(b)[j];
        assert(a[x].key@ == b[i].key@ && a[y].key@ == b[j].key@);
        assert(a[x].key.target_id == b[i].key.target_id);
        assert(x != y);
        assert(a[x].key.target_id != a[y].key.target_id);
    }
    lemma_ordered_unique(outline(a), outline(b), lt);
}

// What one listing says of an output, a listing of the same outputs says too.
proof fn lemma_same_outline(
    a: Seq<Monitor>,
    ta: Topology,
    na: &FixedNames,
    b: Seq<Monitor>,
    tb: Topology,
    nb: &FixedNames,
)
    requires
        is_listing(a, ta, na),
        is_listing(b, tb, nb),
        forall|key: (Seq<char>, u32)| presence(ta, na, key) == presence(tb, nb, key),
    ensures
        forall|x: (bool, (Seq<char>, u32))| #[trigger] outline(a).contains(x) ==> outline(b).contains(x),
{
    assert forall|x: (bool, (Seq<char>, u32))| #[trigger]
        outline(a).contains(x) implies outline(b).contains(x) by {
        let i = choose|i: int| 0 <= i < outline(a).len() && outline(a)[i] == x;
        let key = a[i].key@;
        assert(presence(ta, na, key) == presence(tb, nb, key));
        lemma_presence(a, ta, na, i);
        let m = first_where(tb.paths@, mentions(nb, key));
        lemma_first_where(tb.paths@, mentions(nb, key));
        assert(shown(tb.paths@[m]) && key_of(nb, tb.paths@[m]) == key);
        let j = choose|j: int| 0 <= j < b.len() && (#[trigger] b[j]).key@ == key;
        lemma_presence(b, tb, nb, j);
        assert(outline(b)[j] == x);
    }
}

// An entry says of its output what the topology does.
proof fn lemma_presence(ms: Seq<Monitor>, topo: Topology, names: &FixedNames, i: int)
    requires
        is_listing(ms, topo, names),
        0 <= i < ms.len(),
    ensures
        presence(topo, names, ms[i].key@) == (ms[i].active, true),
{
    let key = ms[i].key@;
    lemma_first_where(topo.paths@, drives(names, key));
    lemma_first_where(topo.paths@, mentions(names, key));
    let c = chosen(topo.paths@, names, key);
    let d = first_where(topo.paths@, drives(names, key));
    if d < topo.paths@.len() {
        assert(drives(names, key)(topo.paths@[d]));
        assert(mentions(names, key)(topo.paths@[d]));
    } else {
        assert(mentions(names, key)(topo.paths@[c]));
        assert(!drives(names, key)(topo.paths@[c]));
    }
}

/// An entry says of its output what a path to it does: the first that is in use, or,
/// where none is, the first to an output that is there. An output that is not active
/// has no mode and no device name, however its path looks.
pub proof fn law_an_entry_says_what_its_path_does(
    ms: Seq<Monitor>,
    topo: Topology,
    names: &FixedNames,
    i: int,
)
    requires
        is_listing(ms, topo, names),
        0 <= i < ms.len(),
    ensures
        exists|p: int|
            #![trigger topo.paths@[p]]
            {
                let (m, path) = (ms[i], topo.paths@[p]);
                let on = path.flags & 1u32 != 0;
                let target = path.target_info;
                &&& 0 <= p < topo.paths@.len()
                &&& m.key@ == (names.path_of(target.adapter_id)->0@, target.id)
                &&& forall|q: int|
                    0 <= q < p && key_of(names, #[trigger] topo.paths@[q]) == m.key@
                        ==> topo.paths@[q].flags & 1u32 == 0 && (on
                        || !topo.paths@[q].target_info.target_available)
                &&& !on ==> target.target_available && forall|q: int|
                    0 <= q < topo.paths@.len() && key_of(names, #[trigger] topo.paths@[q])
                        == m.key@ ==> topo.paths@[q].flags & 1u32 == 0
                &&& m.active == on
                &&& m.available == target.target_available
                &&& m.adapter_luid == target.adapter_id
                &&& m.source_id == path.source_info.id
                &&& m.name == names.name_of(target.adapter_id, target.id)
                &&& on ==> m.mode == topo.mode_of(path) && m.gdi_name == names.gdi_of(
                    path.source_info.adapter_id,
                    path.source_info.id,
                )
                &&& !on ==> m.mode is None && m.gdi_name is None
                &&& m.refresh is Some <==> target.refresh_numerator != 0
                    && target.refresh_denominator != 0
                &&& m.refresh matches Some(rate) ==> rate.numerator == target.refresh_numerator
                    && rate.denominator == target.refresh_denominator
            },
{
    let key = ms[i].key@;
    let paths = topo.paths@;
    lemma_first_where(paths, drives(names, key));
    lemma_first_where(paths, mentions(names, key));
    let c = chosen(paths, names, key);
    let d = first_where(paths, drives(names, key));
    assert(ms[i] == monitor_of(paths[c], topo, names));
    assert forall|q: int| 0 <= q < c && key_of(names, #[trigger] paths[q]) == key implies paths[q].flags
        & 1u32 == 0 && (paths[c].flags & 1u32 != 0 || !paths[q].target_info.target_available) by {
        if d < paths.len() {
            assert(!drives(names, key)(paths[q]));
        } else {
            assert(!mentions(names, key)(paths[q]));
            assert(!drives(names, key)(paths[q]));
        }
    }
    if d >= paths.len() {
        assert forall|q: int| 0 <= q < paths.len() && key_of(names, #[trigger] paths[q]) == key implies paths[q].flags
            & 1u32 == 0 by {
            assert(!drives(names, key)(paths[q]));
        }
        assert(mentions(names, key)(paths[c]));
    } else {
        assert(drives(names, key)(paths[d]));
    }
}

/// Every output that is there, or in use, is in the listing, and no other.
pub proof fn law_every_output_is_in_the_listing(
    ms: Seq<Monitor>,
    topo: Topology,
    names: &FixedNames,
    key: (Seq<char>, u32),
)
    requires
        is_listing(ms, topo, names),
    ensures
        (exists|i: int| 0 <= i < ms.len() && (#[trigger] ms[i]).key@ == key) <==> exists|p: int|
            0 <= p < topo.paths@.len() && key_of(names, #[trigger] topo.paths@[p]) == key && (
            topo.paths@[p].target_info.target_available || topo.paths@[p].flags & 1u32 != 0),
{
    let paths = topo.paths@;
    if exists|i: int| 0 <= i < ms.len() && (#[trigger] ms[i]).key@ == key {
        let i = choose|i: int| 0 <= i < ms.len() && (#[trigger] ms[i]).key@ == key;
        law_an_active_path_wins(ms, topo, names, i);
    }
    if exists|p: int|
        0 <= p < paths.len() && key_of(names, #[trigger] paths[p]) == key && (
        paths[p].target_info.target_available || paths[p].flags & 1u32 != 0) {
        let p = choose|p: int|
            0 <= p < paths.len() && key_of(names, #[trigger] paths[p]) == key && (
            paths[p].target_info.target_available || paths[p].flags & 1u32 != 0);
        assert(shown(paths[p]));
        assert(listed(ms, key));
    }
}

/// Active outputs are listed first, and the lower target id before the higher among
/// those that are active, and among those that are not.
pub proof fn law_active_outputs_come_first(
    ms: Seq<Monitor>,
    topo: Topology,
    names: &FixedNames,
    i: int,
    j: int,
)
    requires
        is_listing(ms, topo, names),
        0 <= i < j < ms.len(),
    ensures
        ms[j].active ==> ms[i].active,
        ms[i].active == ms[j].active ==> ms[i].key.target_id <= ms[j].key.target_id,
{
    assert(precedes(topo.paths@, names, ms[i], ms[j]));
}

/// An output is known by the device path of its adapter and its target id, and by
/// nothing else: neither the source that feeds it nor any handle changes its key.
pub proof fn law_a_key_is_a_device_path_and_a_target_id(
    names: &FixedNames,
    path: PathInfo,
    other: PathInfo,
)
    requires
        names.path_of(path.target_info.adapter_id) is Some,
        names.path_of(other.target_info.adapter_id) is Some,
    ensures
        key_of(names, path) == key_of(names, other) <==> path.target_info.id
            == other.target_info.id && names.path_of(path.target_info.adapter_id)->0@
            == names.path_of(other.target_info.adapter_id)->0@,
{
}

/// A label holds the name of a monitor and its EDID id in brackets behind it, as far as
/// they are known.
pub proof fn law_a_label_holds_what_is_known(name: TargetName)
    ensures
        name.friendly is None && name.edid is None ==> name.labelled() == "(unidentified)"@,
        name.friendly is Some && name.edid is None ==> name.labelled() == name.friendly->0@,
        name.friendly is None && name.edid is Some ==> name.labelled() == name.edid->0@,
        name.friendly is Some && name.edid is Some ==> {
            let (f, e) = (name.friendly->0@, name.edid->0@);
            let label = name.labelled();
            &&& label.len() == f.len() + e.len() + 3
            &&& label.take(f.len() as int) == f
            &&& label.subrange(f.len() as int + 2, f.len() as int + 2 + e.len()) == e
            &&& label[f.len() as int] == ' ' && label[f.len() as int + 1] == '[' && label.last()
                == ']'
        },
{
    reveal_strlit(" [");
    reveal_strlit("]");
    if name.friendly is Some && name.edid is Some {
        let (f, e) = (name.friendly->0@, name.edid->0@);
        let label = name.labelled();
        assert(label.take(f.len() as int) =~= f);
        assert(label.subrange(f.len() as int + 2, f.len() as int + 2 + e.len()) =~= e);
    }
}

/// The laws on listings are about what the functions here return.
pub proof fn law_outputs_are_listed_as_stated(
    topo: &Topology,
    names: &FixedNames,
    key: &TargetKey,
    other: &TargetKey,
    m: &Monitor,
)
    ensures
        forall|r: Result<Vec<Monitor>, Error>|
            call_ensures(enumerate, (topo, names), r) ==> match r {
                Ok(ms) => first_refusal(topo.paths@, names, unresolved(names)) is None
                    && is_listing(ms@, *topo, names),
                Err(e) => first_refusal(topo.paths@, names, unresolved(names)) == Some(e),
            },
        forall|r: bool|
            call_ensures(TargetKey::same_key, (key, other), r) ==> (r <==> key.adapter@
                == other.adapter@ && key.target_id == other.target_id),
        forall|r: String| call_ensures(Monitor::label, (m,), r) ==> r@ == m.name.labelled(),
{
}

/// A listing fails exactly if some path to an output that is there or in use runs over an
/// adapter without a known device path, and over the first such: with what Windows said of
/// the adapter where it refused to name it.
pub proof fn law_a_listing_needs_every_adapter(paths: Seq<PathInfo>, names: &FixedNames, p: int)
    requires
        0 <= p <= paths.len(),
        forall|q: int|
            0 <= q < p && ((#[trigger] paths[q]).target_info.target_available || paths[q].flags
                & 1u32 != 0) ==> names.path_of(paths[q].target_info.adapter_id) is Some,
        p < paths.len() ==> (paths[p].target_info.target_available || paths[p].flags & 1u32 != 0)
            && names.path_of(paths[p].target_info.adapter_id) is None,
    ensures
        p == paths.len() ==> first_refusal(paths, names, unresolved(names)) is None,
        p < paths.len() ==> first_refusal(paths, names, unresolved(names)) == Some(
            match names.adapter_reply(paths[p].target_info.adapter_id) {
                Some(Err(answer)) => Error::AdapterName { answer },
                _ => Error::NoAdapter { adapter: paths[p].target_info.adapter_id },
            },
        ),
{
    assert forall|q: int| 0 <= q < p implies !unresolved(names)(#[trigger] paths[q]) by {}
    lemma_first_where_is(paths, unresolved(names), p);
}

/// Outputs that are alike in being active and in their target ids are listed in the order
/// in which they are first mentioned.
pub proof fn law_outputs_that_sort_alike_stay_in_order(
    ms: Seq<Monitor>,
    topo: Topology,
    names: &FixedNames,
    i: int,
    j: int,
    p: int,
)
    requires
        is_listing(ms, topo, names),
        0 <= i < j < ms.len(),
        ms[i].active == ms[j].active,
        ms[i].key.target_id == ms[j].key.target_id,
        0 <= p < topo.paths@.len(),
        topo.paths@[p].target_info.target_available || topo.paths@[p].flags & 1u32 != 0,
        key_of(names, topo.paths@[p]) == ms[j].key@,
    ensures
        exists|q: int|
            0 <= q < p && key_of(names, #[trigger] topo.paths@[q]) == ms[i].key@ && (
            topo.paths@[q].target_info.target_available || topo.paths@[q].flags & 1u32 != 0),
{
    let paths = topo.paths@;
    assert(precedes(paths, names, ms[i], ms[j]));
    lemma_first_where(paths, mentions(names, ms[i].key@));
    lemma_first_where(paths, mentions(names, ms[j].key@));
    let q = first_where(paths, mentions(names, ms[i].key@));
    assert(mentions(names, ms[j].key@)(paths[p]));
    if p < first_where(paths, mentions(names, ms[j].key@)) {
        assert(!mentions(names, ms[j].key@)(paths[p]));
    }
    assert(mentions(names, ms[i].key@)(paths[q]));
    assert(key_of(names, paths[q]) == ms[i].key@);
}

} // verus!
