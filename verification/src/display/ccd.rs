//! A display configuration as plain values.
//!
//! What Windows reports about displays is numbers: adapter handles, target ids,
//! indices into a table of modes. This module holds those numbers, interprets
//! the replies to the calls that ask about them, and decides when a query has to
//! be made again. The calls themselves are the caller's.

use vstd::prelude::*;
use vstd::string::*;

use crate::error::Error;
use crate::seqs::{lemma_mentioned, lemma_mentioned_next, mentioned};
use crate::text::{
    digits_value, hex, hex_text, is_scalar_value, law_hex_reads_back,
    law_trimming_takes_off_white_space, lemma_hex_width, same_text, sixteen_to, trim, trimmed,
    whitespace,
};
use crate::winerr::{opt_text, Answer, ERROR_INSUFFICIENT_BUFFER, ERROR_SUCCESS};

verus! {

/// `DISPLAYCONFIG_PATH_ACTIVE`: the path is in use.
pub const DISPLAYCONFIG_PATH_ACTIVE: u32 = 1;

/// `DISPLAYCONFIG_PATH_MODE_IDX_INVALID`: a path half that points at no mode.
pub const DISPLAYCONFIG_PATH_MODE_IDX_INVALID: u32 = 0xFFFF_FFFF;

/// `QDC_ALL_PATHS`: every path, also those to outputs that are switched off.
pub const QDC_ALL_PATHS: u32 = 1;

/// `DISPLAYCONFIG_MODE_INFO_TYPE_SOURCE`.
pub const DISPLAYCONFIG_MODE_INFO_TYPE_SOURCE: i32 = 1;

pub const DISPLAYCONFIG_OUTPUT_TECHNOLOGY_HD15: i32 = 0;

pub const DISPLAYCONFIG_OUTPUT_TECHNOLOGY_DVI: i32 = 4;

pub const DISPLAYCONFIG_OUTPUT_TECHNOLOGY_HDMI: i32 = 5;

pub const DISPLAYCONFIG_OUTPUT_TECHNOLOGY_DISPLAYPORT_EXTERNAL: i32 = 10;

pub const DISPLAYCONFIG_OUTPUT_TECHNOLOGY_DISPLAYPORT_EMBEDDED: i32 = 11;

pub const DISPLAYCONFIG_OUTPUT_TECHNOLOGY_MIRACAST: i32 = 15;

pub const DISPLAYCONFIG_OUTPUT_TECHNOLOGY_INDIRECT_WIRED: i32 = 16;

pub const DISPLAYCONFIG_OUTPUT_TECHNOLOGY_INDIRECT_VIRTUAL: i32 = 17;

pub const DISPLAYCONFIG_OUTPUT_TECHNOLOGY_DISPLAYPORT_USB_TUNNEL: i32 = 18;

pub const DISPLAYCONFIG_OUTPUT_TECHNOLOGY_INTERNAL: i32 = -2147483648;

/// How often a query is made before the configuration counts as unreadable.
pub const QUERY_ATTEMPTS: u32 = 5;

/// A handle to an adapter. Good for this run only: Windows hands out new ones
/// on every restart.
#[derive(Debug, Clone, Copy, PartialEq, Eq, Structural)]
pub struct Luid {
    pub low_part: u32,
    pub high_part: i32,
}

/// The GPU's end of a path.
#[derive(Debug, Clone, Copy, PartialEq, Eq, Structural)]
pub struct SourceInfo {
    pub adapter_id: Luid,
    pub id: u32,
    pub mode_info_idx: u32,
    pub status_flags: u32,
}

/// The display's end of a path.
#[derive(Debug, Clone, Copy, PartialEq, Eq, Structural)]
pub struct TargetInfo {
    pub adapter_id: Luid,
    pub id: u32,
    pub mode_info_idx: u32,
    pub output_technology: i32,
    pub rotation: i32,
    pub scaling: i32,
    pub refresh_numerator: u32,
    pub refresh_denominator: u32,
    pub scan_line_ordering: i32,
    pub target_available: bool,
    pub status_flags: u32,
}

/// One way of feeding an output from a GPU source.
#[derive(Debug, Clone, Copy, PartialEq, Eq, Structural)]
pub struct PathInfo {
    pub source_info: SourceInfo,
    pub target_info: TargetInfo,
    pub flags: u32,
}

/// A resolution, and where on the desktop it sits.
#[derive(Debug, Clone, Copy, PartialEq, Eq, Structural)]
pub struct SourceMode {
    pub width: u32,
    pub height: u32,
    pub x: i32,
    pub y: i32,
}

/// An entry in the table of modes. Only some entries describe a source.
#[derive(Debug, Clone, Copy, PartialEq, Eq, Structural)]
pub enum ModeInfo {
    Source(SourceMode),
    Other,
}

/// A snapshot of the display configuration.
#[derive(Debug)]
pub struct Topology {
    pub paths: Vec<PathInfo>,
    pub modes: Vec<ModeInfo>,
}

impl PathInfo {
    /// Whether the path is in use.
    pub open spec fn active(self) -> bool {
        self.flags & DISPLAYCONFIG_PATH_ACTIVE != 0
    }

    /// Whether the path leads to an output that is there.
    pub open spec fn available(self) -> bool {
        self.target_info.target_available
    }

    /// Whether the path is in use.
    pub fn is_active(&self) -> (r: bool)
        ensures
            r == self.active(),
    {
        self.flags & DISPLAYCONFIG_PATH_ACTIVE != 0
    }
}

impl Topology {
    /// The source mode a path points at.
    pub open spec fn mode_of(self, path: PathInfo) -> Option<SourceMode> {
        let idx = path.source_info.mode_info_idx as int;
        if idx < self.modes@.len() {
            match self.modes@[idx] {
                ModeInfo::Source(m) => Some(m),
                ModeInfo::Other => None,
            }
        } else {
            None
        }
    }

    /// The source mode (resolution and desktop position) a path points at, if it
    /// has one. Inactive paths generally do not.
    pub fn source_mode(&self, path: &PathInfo) -> (r: Option<SourceMode>)
        ensures
            r == self.mode_of(*path),
    {
        let idx: u64 = path.source_info.mode_info_idx as u64;
        if idx < self.modes.len() as u64 {
            match self.modes[idx as usize] {
                ModeInfo::Source(m) => Some(m),
                ModeInfo::Other => None,
            }
        } else {
            None
        }
    }
}

/// What Windows knows about a physical output.
///
/// Every field is best-effort: an inactive target may report nothing but its
/// connector. Nothing here is ever used as a key.
#[derive(Debug)]
pub struct TargetName {
    pub friendly: Option<String>,
    pub device_path: Option<String>,
    pub edid: Option<String>,
    pub output_technology: i32,
}

/// The name of an output that reports nothing.
pub open spec fn unnamed() -> TargetName {
    TargetName { friendly: None, device_path: None, edid: None, output_technology: 0 }
}

impl Default for TargetName {
    fn default() -> (r: TargetName)
        ensures
            r == unnamed(),
    {
        TargetName { friendly: None, device_path: None, edid: None, output_technology: 0 }
    }
}

impl Clone for TargetName {
    fn clone(&self) -> (r: TargetName)
        ensures
            r == *self,
    {
        TargetName {
            friendly: copy_text(&self.friendly),
            device_path: copy_text(&self.device_path),
            edid: copy_text(&self.edid),
            output_technology: self.output_technology,
        }
    }
}

/// A copy of a string that may be absent.
pub fn copy_text(s: &Option<String>) -> (r: Option<String>)
    ensures
        r == *s,
{
    match s {
        Some(t) => Some(t.clone()),
        None => None,
    }
}

// ---------------------------------------------------------------------------
// Names for handles
// ---------------------------------------------------------------------------

/// What Windows is to be asked about a configuration: the name of every adapter,
/// target and source in it, each once. A configuration mentions most of them dozens
/// of times over.
#[derive(Debug)]
pub struct SystemNames {
    pub adapters: Vec<Luid>,
    pub targets: Vec<(Luid, u32)>,
    pub sources: Vec<(Luid, u32)>,
}

/// The adapters that paths lead through.
pub open spec fn adapters_of(paths: Seq<PathInfo>) -> Seq<Luid> {
    paths.map_values(|p: PathInfo| p.target_info.adapter_id)
}

/// The targets that paths lead to.
pub open spec fn targets_of(paths: Seq<PathInfo>) -> Seq<(Luid, u32)> {
    paths.map_values(|p: PathInfo| (p.target_info.adapter_id, p.target_info.id))
}

/// The sources that paths come from.
pub open spec fn sources_of(paths: Seq<PathInfo>) -> Seq<(Luid, u32)> {
    paths.map_values(|p: PathInfo| (p.source_info.adapter_id, p.source_info.id))
}

// Add an adapter, unless it is there.
fn add_adapter(all: &mut Vec<Luid>, adapter: Luid)
    ensures
        final(all)@ == if old(all)@.contains(adapter) {
            old(all)@
        } else {
            old(all)@.push(adapter)
        },
{
    for i in 0..all.len()
        invariant
            all@ == old(all)@,
            forall|j: int| 0 <= j < i ==> all@[j] != adapter,
    {
        if all[i] == adapter {
            return;
        }
    }
    all.push(adapter);
}

// Add something of an adapter's, unless it is there.
fn add_numbered(all: &mut Vec<(Luid, u32)>, adapter: Luid, id: u32)
    ensures
        final(all)@ == if old(all)@.contains((adapter, id)) {
            old(all)@
        } else {
            old(all)@.push((adapter, id))
        },
{
    for i in 0..all.len()
        invariant
            all@ == old(all)@,
            forall|j: int| 0 <= j < i ==> all@[j] != (adapter, id),
    {
        if all[i].0 == adapter && all[i].1 == id {
            assert(all@[i as int] == (adapter, id));
            return;
        }
    }
    all.push((adapter, id));
}

impl SystemNames {
    /// What Windows is to be asked about a configuration.
    pub fn of(topo: &Topology) -> (r: SystemNames)
        ensures
            r.adapters@ == mentioned(adapters_of(topo.paths@)),
            r.targets@ == mentioned(targets_of(topo.paths@)),
            r.sources@ == mentioned(sources_of(topo.paths@)),
    {
        let mut adapters: Vec<Luid> = Vec::new();
        let mut targets: Vec<(Luid, u32)> = Vec::new();
        let mut sources: Vec<(Luid, u32)> = Vec::new();
        let ghost paths = topo.paths@;
        assert(adapters@ =~= mentioned(adapters_of(paths).take(0)));
        assert(targets@ =~= mentioned(targets_of(paths).take(0)));
        assert(sources@ =~= mentioned(sources_of(paths).take(0)));
        for i in 0..topo.paths.len()
            invariant
                paths == topo.paths@,
                adapters@ == mentioned(adapters_of(paths).take(i as int)),
                targets@ == mentioned(targets_of(paths).take(i as int)),
                sources@ == mentioned(sources_of(paths).take(i as int)),
        {
            let p = &topo.paths[i];
            proof {
                lemma_mentioned_next(adapters_of(paths), i as int);
                lemma_mentioned_next(targets_of(paths), i as int);
                lemma_mentioned_next(sources_of(paths), i as int);
            }
            add_adapter(&mut adapters, p.target_info.adapter_id);
            add_numbered(&mut targets, p.target_info.adapter_id, p.target_info.id);
            add_numbered(&mut sources, p.source_info.adapter_id, p.source_info.id);
        }
        assert(adapters_of(paths).take(paths.len() as int) =~= adapters_of(paths));
        assert(targets_of(paths).take(paths.len() as int) =~= targets_of(paths));
        assert(sources_of(paths).take(paths.len() as int) =~= sources_of(paths));
        SystemNames { adapters, targets, sources }
    }
}

/// Windows is asked about everything in a configuration, and about nothing twice.
pub proof fn law_everything_is_asked_about_once(paths: Seq<PathInfo>, i: int)
    requires
        0 <= i < paths.len(),
    ensures
        mentioned(adapters_of(paths)).no_duplicates(),
        mentioned(targets_of(paths)).no_duplicates(),
        mentioned(sources_of(paths)).no_duplicates(),
        mentioned(adapters_of(paths)).contains(paths[i].target_info.adapter_id),
        mentioned(targets_of(paths)).contains(
            (paths[i].target_info.adapter_id, paths[i].target_info.id),
        ),
        mentioned(sources_of(paths)).contains(
            (paths[i].source_info.adapter_id, paths[i].source_info.id),
        ),
{
    lemma_mentioned(adapters_of(paths));
    lemma_mentioned(targets_of(paths));
    lemma_mentioned(sources_of(paths));
    assert(adapters_of(paths).contains(adapters_of(paths)[i]));
    assert(targets_of(paths).contains(targets_of(paths)[i]));
    assert(sources_of(paths).contains(sources_of(paths)[i]));
}

/// What has been found out about the handles in a topology.
///
/// A topology is just numbers, and every question about what they refer to is
/// another trip into Windows. The answers are collected here, so that a topology
/// is interpreted without asking anything. The first answer recorded for a
/// handle is the one that counts.
#[derive(Debug)]
pub struct FixedNames {
    adapters: Vec<(Luid, Result<String, Answer>)>,
    targets: Vec<((Luid, u32), TargetName)>,
    sources: Vec<((Luid, u32), String)>,
}

/// The first answer recorded under a key.
pub open spec fn first_answer<K, T>(known: Seq<(K, T)>, key: K) -> Option<T>
    decreases known.len(),
{
    if known.len() == 0 {
        None
    } else if known[0].0 == key {
        Some(known[0].1)
    } else {
        first_answer(known.skip(1), key)
    }
}

/// A further answer counts only where there was none.
proof fn lemma_first_answer_push<K, T>(known: Seq<(K, T)>, entry: (K, T), key: K)
    ensures
        first_answer(known.push(entry), key) == match first_answer(known, key) {
            Some(answer) => Some(answer),
            None => if entry.0 == key {
                Some(entry.1)
            } else {
                None
            },
        },
    decreases known.len(),
{
    reveal_with_fuel(first_answer, 2);
    if known.len() > 0 {
        assert(known.push(entry).skip(1) =~= known.skip(1).push(entry));
        lemma_first_answer_push(known.skip(1), entry, key);
    }
}

impl FixedNames {
    /// What is recorded about an adapter: its device path, or the answer with
    /// which Windows declined to give one.
    pub closed spec fn adapter_reply(&self, adapter: Luid) -> Option<Result<String, Answer>> {
        first_answer(self.adapters@, adapter)
    }

    /// The device path recorded for an adapter.
    pub open spec fn path_of(&self, adapter: Luid) -> Option<String> {
        match self.adapter_reply(adapter) {
            Some(Ok(path)) => Some(path),
            _ => None,
        }
    }

    /// Why an adapter has no device path.
    pub open spec fn refusal_of(&self, adapter: Luid) -> Error {
        match self.adapter_reply(adapter) {
            Some(Err(answer)) => Error::AdapterName { answer },
            _ => Error::NoAdapter { adapter },
        }
    }

    /// What is recorded about a target.
    pub closed spec fn target_reply(&self, adapter: Luid, target_id: u32) -> Option<TargetName> {
        first_answer(self.targets@, (adapter, target_id))
    }

    /// What a target reports; one about which nothing is recorded reports
    /// nothing.
    pub open spec fn name_of(&self, adapter: Luid, target_id: u32) -> TargetName {
        match self.target_reply(adapter, target_id) {
            Some(name) => name,
            None => unnamed(),
        }
    }

    /// The GDI device name recorded for a source.
    pub closed spec fn gdi_of(&self, adapter: Luid, source_id: u32) -> Option<String> {
        first_answer(self.sources@, (adapter, source_id))
    }

    /// Nothing found out yet.
    pub fn new() -> (r: FixedNames)
        ensures
            forall|a: Luid| r.adapter_reply(a) is None,
            forall|a: Luid, id: u32| r.target_reply(a, id) is None,
            forall|a: Luid, id: u32| r.gdi_of(a, id) is None,
    {
        FixedNames { adapters: Vec::new(), targets: Vec::new(), sources: Vec::new() }
    }

    /// Record what Windows answered about an adapter, unless there is an answer
    /// already.
    pub fn learn_adapter(&mut self, adapter: Luid, reply: Result<String, Answer>)
        ensures
            forall|a: Luid|
                final(self).adapter_reply(a) == match old(self).adapter_reply(a) {
                    Some(known) => Some(known),
                    None => if a == adapter {
                        Some(reply)
                    } else {
                        None
                    },
                },
            forall|a: Luid, id: u32|
                final(self).target_reply(a, id) == old(self).target_reply(a, id),
            forall|a: Luid, id: u32| final(self).gdi_of(a, id) == old(self).gdi_of(a, id),
    {
        let ghost entry = (adapter, reply);
        self.adapters.push((adapter, reply));
        proof {
            assert forall|a: Luid| #[trigger]
                self.adapter_reply(a) == match old(self).adapter_reply(a) {
                    Some(known) => Some(known),
                    None => if a == adapter {
                        Some(reply)
                    } else {
                        None
                    },
                } by {
                lemma_first_answer_push(old(self).adapters@, entry, a);
            }
        }
    }

    /// Record what a target reports, unless something is recorded already.
    pub fn learn_target(&mut self, adapter: Luid, target_id: u32, name: TargetName)
        ensures
            forall|a: Luid, id: u32|
                final(self).target_reply(a, id) == match old(self).target_reply(a, id) {
                    Some(known) => Some(known),
                    None => if a == adapter && id == target_id {
                        Some(name)
                    } else {
                        None
                    },
                },
            forall|a: Luid| final(self).adapter_reply(a) == old(self).adapter_reply(a),
            forall|a: Luid, id: u32| final(self).gdi_of(a, id) == old(self).gdi_of(a, id),
    {
        let ghost entry = ((adapter, target_id), name);
        self.targets.push(((adapter, target_id), name));
        proof {
            assert forall|a: Luid, id: u32| #[trigger]
                self.target_reply(a, id) == match old(self).target_reply(a, id) {
                    Some(known) => Some(known),
                    None => if a == adapter && id == target_id {
                        Some(name)
                    } else {
                        None
                    },
                } by {
                lemma_first_answer_push(old(self).targets@, entry, (a, id));
            }
        }
    }

    /// Record a source's GDI device name, unless there is one already.
    pub fn learn_source(&mut self, adapter: Luid, source_id: u32, gdi_name: String)
        ensures
            forall|a: Luid, id: u32|
                final(self).gdi_of(a, id) == match old(self).gdi_of(a, id) {
                    Some(known) => Some(known),
                    None => if a == adapter && id == source_id {
                        Some(gdi_name)
                    } else {
                        None
                    },
                },
            forall|a: Luid| final(self).adapter_reply(a) == old(self).adapter_reply(a),
            forall|a: Luid, id: u32|
                final(self).target_reply(a, id) == old(self).target_reply(a, id),
    {
        let ghost entry = ((adapter, source_id), gdi_name);
        self.sources.push(((adapter, source_id), gdi_name));
        proof {
            assert forall|a: Luid, id: u32| #[trigger]
                self.gdi_of(a, id) == match old(self).gdi_of(a, id) {
                    Some(known) => Some(known),
                    None => if a == adapter && id == source_id {
                        Some(gdi_name)
                    } else {
                        None
                    },
                } by {
                lemma_first_answer_push(old(self).sources@, entry, (a, id));
            }
        }
    }

    /// The device path of an adapter. An adapter that cannot be resolved is an
    /// error: without its path there is no stable identity.
    pub fn adapter_path(&self, adapter: Luid) -> (r: Result<String, Error>)
        ensures
            match r {
                Ok(path) => self.path_of(adapter) == Some(path),
                Err(e) => self.path_of(adapter) is None && e == self.refusal_of(adapter),
            },
    {
        assert(self.adapters@.skip(0) =~= self.adapters@);
        for i in 0..self.adapters.len()
            invariant
                first_answer(self.adapters@.skip(i as int), adapter) == self.adapter_reply(adapter),
        {
            assert(self.adapters@.skip(i as int).skip(1) =~= self.adapters@.skip(i + 1));
            if self.adapters[i].0 == adapter {
                return match &self.adapters[i].1 {
                    Ok(path) => Ok(path.clone()),
                    Err(answer) => Err(Error::AdapterName { answer: answer.clone() }),
                };
            }
        }
        Err(Error::NoAdapter { adapter })
    }

    /// What a target reports. One that is unknown merely has no name, which is
    /// what an output that is switched off looks like.
    pub fn target_name(&self, adapter: Luid, target_id: u32) -> (r: TargetName)
        ensures
            r == self.name_of(adapter, target_id),
    {
        assert(self.targets@.skip(0) =~= self.targets@);
        for i in 0..self.targets.len()
            invariant
                first_answer(self.targets@.skip(i as int), (adapter, target_id))
                    == self.target_reply(adapter, target_id),
        {
            assert(self.targets@.skip(i as int).skip(1) =~= self.targets@.skip(i + 1));
            if self.targets[i].0.0 == adapter && self.targets[i].0.1 == target_id {
                return self.targets[i].1.clone();
            }
        }
        TargetName::default()
    }

    /// The GDI device name of a source, if one is known.
    pub fn source_gdi_name(&self, adapter: Luid, source_id: u32) -> (r: Option<String>)
        ensures
            r == self.gdi_of(adapter, source_id),
    {
        assert(self.sources@.skip(0) =~= self.sources@);
        for i in 0..self.sources.len()
            invariant
                first_answer(self.sources@.skip(i as int), (adapter, source_id)) == self.gdi_of(
                    adapter,
                    source_id,
                ),
        {
            assert(self.sources@.skip(i as int).skip(1) =~= self.sources@.skip(i + 1));
            if self.sources[i].0.0 == adapter && self.sources[i].0.1 == source_id {
                return Some(self.sources[i].1.clone());
            }
        }
        None
    }
}

impl Default for FixedNames {
    fn default() -> (r: FixedNames)
        ensures
            forall|a: Luid| r.adapter_reply(a) is None,
            forall|a: Luid, id: u32| r.target_reply(a, id) is None,
            forall|a: Luid, id: u32| r.gdi_of(a, id) is None,
    {
        FixedNames::new()
    }
}

// ---------------------------------------------------------------------------
// Reading the configuration
// ---------------------------------------------------------------------------

/// How far a query of the display configuration has come.
///
/// Asking for the buffer sizes and filling the buffers are two calls, and a
/// display that is plugged in between them makes the sizes wrong. The second
/// call then says that the buffers are too small, and both are made again.
#[derive(Debug)]
pub enum QueryState {
    /// `GetDisplayConfigBufferSizes` is to be called, for the given attempt.
    Sizing { attempt: u32 },
    /// `QueryDisplayConfig` is to be called, for the given attempt.
    Reading { attempt: u32 },
    /// The buffers hold the configuration.
    Done,
    /// There is no configuration to be had.
    Failed { error: Error },
}

/// Where a query stands once the call it was waiting for has been answered.
pub open spec fn query_next(state: QueryState, answer: Answer) -> QueryState {
    match state {
        QueryState::Sizing { attempt } => if answer.code == ERROR_SUCCESS {
            QueryState::Reading { attempt }
        } else {
            QueryState::Failed { error: Error::BufferSizes { answer } }
        },
        QueryState::Reading { attempt } => if answer.code == ERROR_SUCCESS {
            QueryState::Done
        } else if answer.code != ERROR_INSUFFICIENT_BUFFER {
            QueryState::Failed { error: Error::Query { answer } }
        } else if attempt < QUERY_ATTEMPTS {
            QueryState::Sizing { attempt: (attempt + 1) as u32 }
        } else {
            QueryState::Failed { error: Error::KeptChanging }
        },
        QueryState::Done => QueryState::Done,
        QueryState::Failed { error } => QueryState::Failed { error },
    }
}

/// Start reading the display configuration.
pub fn query() -> (r: QueryState)
    ensures
        r == (QueryState::Sizing { attempt: 1 }),
{
    QueryState::Sizing { attempt: 1 }
}

/// Take the answer to the call that a query was waiting for.
pub fn query_step(state: QueryState, answer: &Answer) -> (r: QueryState)
    ensures
        r == query_next(state, *answer),
{
    match state {
        QueryState::Sizing { attempt } => if answer.code == ERROR_SUCCESS {
            QueryState::Reading { attempt }
        } else {
            QueryState::Failed { error: Error::BufferSizes { answer: answer.clone() } }
        },
        QueryState::Reading { attempt } => if answer.code == ERROR_SUCCESS {
            QueryState::Done
        } else if answer.code != ERROR_INSUFFICIENT_BUFFER {
            QueryState::Failed { error: Error::Query { answer: answer.clone() } }
        } else if attempt < QUERY_ATTEMPTS {
            QueryState::Sizing { attempt: attempt + 1 }
        } else {
            QueryState::Failed { error: Error::KeptChanging }
        },
        QueryState::Done => QueryState::Done,
        QueryState::Failed { error } => QueryState::Failed { error },
    }
}

/// Where a query stands after a row of answers.
pub open spec fn query_after(answers: Seq<Answer>) -> QueryState
    decreases answers.len(),
{
    if answers.len() == 0 {
        QueryState::Sizing { attempt: 1 }
    } else {
        query_next(query_after(answers.drop_last()), answers.last())
    }
}

/// How many calls a query can still make.
pub open spec fn calls_left(state: QueryState) -> int {
    match state {
        QueryState::Sizing { attempt } => 2 * (QUERY_ATTEMPTS - attempt + 1),
        QueryState::Reading { attempt } => 2 * (QUERY_ATTEMPTS - attempt) + 1,
        QueryState::Done => 0,
        QueryState::Failed { .. } => 0,
    }
}

/// A query ends, whatever Windows answers: after at most two calls for each of
/// five attempts it has the configuration or an error.
pub proof fn law_query_ends(answers: Seq<Answer>)
    ensures
        0 <= calls_left(query_after(answers)),
        calls_left(query_after(answers)) <= 2 * QUERY_ATTEMPTS,
        answers.len() >= 2 * QUERY_ATTEMPTS ==> query_after(answers) is Done || query_after(
            answers,
        ) is Failed,
        query_after(answers) is Done || query_after(answers) is Failed || calls_left(
            query_after(answers),
        ) <= 2 * QUERY_ATTEMPTS - answers.len(),
    decreases answers.len(),
{
    if answers.len() > 0 {
        law_query_ends(answers.drop_last());
    }
}

/// Answers by which every attempt finds its buffers too small.
pub open spec fn keeps_changing(answers: Seq<Answer>) -> bool {
    forall|i: int|
        0 <= i < answers.len() ==> (#[trigger] answers[i]).code == if i % 2 == 0 {
            ERROR_SUCCESS
        } else {
            ERROR_INSUFFICIENT_BUFFER
        }
}

// As long as a query has not ended, every attempt so far was in vain.
proof fn lemma_query_unended(answers: Seq<Answer>)
    requires
        answers.len() < 2 * QUERY_ATTEMPTS,
    ensures
        query_after(answers) != (QueryState::Failed { error: Error::KeptChanging }),
        keeps_changing(answers) ==> query_after(answers) == if answers.len() % 2 == 0 {
            QueryState::Sizing { attempt: (answers.len() / 2 + 1) as u32 }
        } else {
            QueryState::Reading { attempt: (answers.len() / 2 + 1) as u32 }
        },
        !keeps_changing(answers) ==> query_after(answers) is Done || query_after(
            answers,
        ) is Failed,
    decreases answers.len(),
{
    if answers.len() > 0 {
        lemma_query_unended(answers.drop_last());
        assert forall|i: int| keeps_changing(answers) && 0 <= i < answers.len() - 1 implies (
        #[trigger] answers.drop_last()[i]).code == if i % 2 == 0 {
            ERROR_SUCCESS
        } else {
            ERROR_INSUFFICIENT_BUFFER
        } by {
            assert(answers[i] == answers.drop_last()[i]);
        }
        if keeps_changing(answers.drop_last()) {
            let n = answers.len() - 1;
            if answers.last().code == if n % 2 == 0 {
                ERROR_SUCCESS
            } else {
                ERROR_INSUFFICIENT_BUFFER
            } {
                assert forall|i: int| 0 <= i < answers.len() implies (#[trigger] answers[i]).code
                    == if i % 2 == 0 {
                    ERROR_SUCCESS
                } else {
                    ERROR_INSUFFICIENT_BUFFER
                } by {
                    if i < n {
                        assert(answers.drop_last()[i] == answers[i]);
                    }
                }
            } else {
                assert(answers[n] == answers.last());
            }
        }
    }
}

/// A query gives up on a configuration that keeps changing if and only if five
/// attempts in a row found their buffers too small.
pub proof fn law_query_gives_up_after_five_attempts(answers: Seq<Answer>)
    ensures
        query_after(answers) == (QueryState::Failed { error: Error::KeptChanging }) <==> {
            &&& answers.len() >= 2 * QUERY_ATTEMPTS
            &&& keeps_changing(answers.take(2 * QUERY_ATTEMPTS as int))
        },
    decreases answers.len(),
{
    if answers.len() < 2 * QUERY_ATTEMPTS {
        lemma_query_unended(answers);
    } else if answers.len() == 2 * QUERY_ATTEMPTS {
        assert(answers.take(10) =~= answers);
        lemma_query_unended(answers.drop_last());
        assert forall|i: int| 0 <= i < 9 implies answers[i] == answers.drop_last()[i] by {}
        assert(answers[9] == answers.last());
        if keeps_changing(answers.drop_last()) && answers.last().code
            == ERROR_INSUFFICIENT_BUFFER {
            assert forall|i: int| 0 <= i < answers.len() implies (#[trigger] answers[i]).code
                == if i % 2 == 0 {
                ERROR_SUCCESS
            } else {
                ERROR_INSUFFICIENT_BUFFER
            } by {
                if i < 9 {
                    assert(answers.drop_last()[i] == answers[i]);
                }
            }
        }
    } else {
        law_query_gives_up_after_five_attempts(answers.drop_last());
        law_query_ends(answers.drop_last());
        assert(answers.drop_last().take(10) =~= answers.take(10));
    }
}

/// The configuration that a query read into its buffers: as many entries of each
/// as the call says it wrote.
pub fn read_topology(
    paths: Vec<PathInfo>,
    modes: Vec<ModeInfo>,
    paths_written: usize,
    modes_written: usize,
) -> (r: Topology)
    ensures
        r.paths@ == if paths_written <= paths@.len() {
            paths@.take(paths_written as int)
        } else {
            paths@
        },
        r.modes@ == if modes_written <= modes@.len() {
            modes@.take(modes_written as int)
        } else {
            modes@
        },
{
    let mut paths = paths;
    let mut modes = modes;
    paths.truncate(paths_written);
    modes.truncate(modes_written);
    Topology { paths, modes }
}

// ---------------------------------------------------------------------------
// Reading replies
// ---------------------------------------------------------------------------

/// A character code in a Windows string that is the first half of a pair.
pub open spec fn high_surrogate(u: u16) -> bool {
    0xD800 <= u <= 0xDBFF
}

/// A character code in a Windows string that is the second half of a pair.
pub open spec fn low_surrogate(u: u16) -> bool {
    0xDC00 <= u <= 0xDFFF
}

/// The character that a pair of halves stands for.
pub open spec fn paired(high: u16, low: u16) -> char {
    (0x10000 + (high - 0xD800) * 0x400 + (low - 0xDC00)) as char
}

/// UTF-16 decoded. A half without its other half becomes the replacement
/// character.
pub open spec fn utf16(s: Seq<u16>) -> Seq<char>
    decreases s.len(),
{
    if s.len() == 0 {
        Seq::empty()
    } else if !high_surrogate(s[0]) && !low_surrogate(s[0]) {
        seq![s[0] as char] + utf16(s.skip(1))
    } else if s.len() > 1 && high_surrogate(s[0]) && low_surrogate(s[1]) {
        seq![paired(s[0], s[1])] + utf16(s.skip(2))
    } else {
        seq!['\u{FFFD}'] + utf16(s.skip(1))
    }
}

/// What stands in a buffer in front of its terminator, or all of it where it has
/// none.
pub open spec fn terminated(s: Seq<u16>) -> Seq<u16>
    decreases s.len(),
{
    if s.len() == 0 || s[0] == 0 {
        Seq::empty()
    } else {
        seq![s[0]] + terminated(s.skip(1))
    }
}

/// The text in a buffer.
pub open spec fn wide_text(buf: Seq<u16>) -> Seq<char> {
    trim(utf16(terminated(buf)))
}

// The character with the given code.
fn char_of(code: u32) -> (c: char)
    requires
        is_scalar_value(code),
    ensures
        c == code as char,
{
    match char::from_u32(code) {
        Some(c) => c,
        None => '\u{FFFD}',
    }
}

/// Decode UTF-16 from the start of a buffer up to an index.
pub fn decode_utf16(buf: &[u16], end: usize) -> (r: String)
    requires
        end <= buf@.len(),
    ensures
        r@ == utf16(buf@.take(end as int)),
{
    let mut out = String::new();
    let mut i: usize = 0;
    let ghost all = buf@.take(end as int);
    assert(out@ + utf16(all.skip(0)) =~= utf16(all)) by {
        assert(all.skip(0) =~= all);
    }
    while i < end
        invariant
            i <= end <= buf@.len(),
            all == buf@.take(end as int),
            out@ + utf16(all.skip(i as int)) == utf16(all),
        decreases end - i,
    {
        let ghost rest = all.skip(i as int);
        let ghost done = out@;
        let u: u16 = buf[i];
        assert(rest[0] == u);
        assert(rest.skip(1) =~= all.skip(i + 1));
        if u < 0xD800 || u > 0xDFFF {
            out.push(char_of(u as u32));
            assert(done + utf16(rest) =~= out@ + utf16(rest.skip(1)));
            i += 1;
        } else if u <= 0xDBFF && i + 1 < end && 0xDC00 <= buf[i + 1] && buf[i + 1] <= 0xDFFF {
            assert(rest[1] == buf@[i + 1]);
            assert(rest.skip(2) =~= all.skip(i + 2));
            let high: u32 = u as u32 - 0xD800;
            let low: u32 = buf[i + 1] as u32 - 0xDC00;
            out.push(char_of(0x10000 + high * 0x400 + low));
            assert(done + utf16(rest) =~= out@ + utf16(rest.skip(2)));
            i += 2;
        } else {
            out.push('\u{FFFD}');
            assert(done + utf16(rest) =~= out@ + utf16(rest.skip(1)));
            i += 1;
        }
    }
    assert(all.skip(end as int) =~= Seq::empty());
    assert(out@ + utf16(Seq::<u16>::empty()) =~= out@);
    out
}

/// A character in UTF-16: one code, or a pair of halves.
pub open spec fn units_of(c: char) -> Seq<u16> {
    let code = c as int;
    if code < 0x10000 {
        seq![code as u16]
    } else {
        seq![(0xD800 + (code - 0x10000) / 0x400) as u16, (0xDC00 + (code - 0x10000) % 0x400) as u16]
    }
}

/// A text in UTF-16.
pub open spec fn encoded(s: Seq<char>) -> Seq<u16>
    decreases s.len(),
{
    if s.len() == 0 {
        Seq::empty()
    } else {
        encoded(s.drop_last()) + units_of(s.last())
    }
}

// Add a character in UTF-16.
fn push_units(out: &mut Vec<u16>, c: char)
    ensures
        final(out)@ == old(out)@ + units_of(c),
{
    let code: u32 = c as u32;
    assert(code == c as int);
    if code < 0x10000 {
        out.push(code as u16);
    } else {
        let rest: u32 = code - 0x10000;
        assert(code <= 0x10FFFF);
        let high: u32 = 0xD800 + rest / 0x400;
        let low: u32 = 0xDC00 + rest % 0x400;
        out.push(high as u16);
        out.push(low as u16);
    }
    assert(out@ =~= old(out)@ + units_of(c));
}

/// Encode a text in UTF-16.
pub fn encode_utf16(s: &str) -> (r: Vec<u16>)
    ensures
        r@ == encoded(s@),
{
    let mut out: Vec<u16> = Vec::new();
    for c in it: s.chars()
        invariant
            it.seq() == s@,
            out@ == encoded(s@.take(it.index())),
    {
        assert(s@.take(it.index() + 1).drop_last() =~= s@.take(it.index()));
        push_units(&mut out, c);
    }
    assert(s@.take(s@.len() as int) =~= s@);
    out
}

// What is decoded from behind a whole character is decoded on its own.
proof fn lemma_decoded_in_front(c: char, rest: Seq<u16>)
    ensures
        utf16(units_of(c) + rest) == seq![c] + utf16(rest),
{
    let all = units_of(c) + rest;
    assert(all.skip(units_of(c).len() as int) =~= rest);
    if (c as int) >= 0x10000 {
        assert(paired(all[0], all[1]) == c);
    }
}

// A text in UTF-16 starts with its first character.
proof fn lemma_encoded_first(s: Seq<char>)
    requires
        s.len() > 0,
    ensures
        encoded(s) == units_of(s[0]) + encoded(s.skip(1)),
    decreases s.len(),
{
    if s.len() == 1 {
        assert(s.drop_last() =~= Seq::empty());
        assert(s.skip(1) =~= Seq::empty());
        reveal_with_fuel(encoded, 2);
        assert(encoded(s) =~= units_of(s[0]) + encoded(s.skip(1)));
    } else {
        lemma_encoded_first(s.drop_last());
        assert(s.drop_last().skip(1) =~= s.skip(1).drop_last());
        assert(encoded(s) =~= units_of(s[0]) + encoded(s.skip(1)));
    }
}

/// Text that is handed to Windows comes back as it was: what is encoded and closed
/// with a terminator decodes to itself, as long as it holds no terminator of its
/// own.
pub proof fn law_text_survives_windows(s: Seq<char>)
    requires
        !s.contains('\0'),
    ensures
        utf16(encoded(s)) == s,
        terminated(encoded(s).push(0)) == encoded(s),
    decreases s.len(),
{
    if s.len() == 0 {
        assert(utf16(encoded(s)) =~= s);
        assert(terminated(encoded(s).push(0)) =~= encoded(s));
    } else {
        let tail = s.skip(1);
        assert(!tail.contains('\0')) by {
            if tail.contains('\0') {
                let i = tail.index_of('\0');
                assert(s[i + 1] == '\0');
            }
        }
        law_text_survives_windows(tail);
        lemma_encoded_first(s);
        lemma_decoded_in_front(s[0], encoded(tail));
        assert(seq![s[0]] + tail =~= s);
        assert(s.contains(s[0]));
        let all = encoded(s).push(0);
        let rest = encoded(tail).push(0);
        let units = units_of(s[0]);
        assert(all =~= units + rest);
        assert(all.skip(units.len() as int) =~= rest);
        assert(units[0] != 0);
        if units.len() == 2 {
            assert(all.skip(1).skip(1) =~= rest);
            assert(all.skip(1)[0] == units[1]);
            assert(terminated(all.skip(1)) == seq![units[1]] + terminated(rest));
        }
        assert(terminated(all) =~= units + terminated(rest));
    }
}

/// Where the terminator of a buffer stands, or its end where it has none.
pub fn terminated_len(buf: &[u16]) -> (len: usize)
    ensures
        len <= buf@.len(),
        buf@.take(len as int) == terminated(buf@),
{
    let mut len: usize = 0;
    assert(buf@.skip(0) =~= buf@);
    assert(buf@.take(0) + terminated(buf@) =~= terminated(buf@));
    while len < buf.len() && buf[len] != 0
        invariant
            len <= buf@.len(),
            buf@.take(len as int) + terminated(buf@.skip(len as int)) == terminated(buf@),
        decreases buf@.len() - len,
    {
        assert(buf@.skip(len as int).skip(1) =~= buf@.skip(len + 1));
        assert(buf@.take(len + 1) + terminated(buf@.skip(len + 1)) =~= buf@.take(len as int)
            + terminated(buf@.skip(len as int)));
        len += 1;
    }
    assert(buf@.take(len as int) =~= terminated(buf@));
    len
}

/// Decode the fixed-size buffers that the Win32 calls fill in: up to the
/// terminator, without white space at either end, and never failing, whatever
/// the driver put there.
pub fn wide_to_string(buf: &[u16]) -> (r: String)
    ensures
        r@ == wide_text(buf@),
{
    let len = terminated_len(buf);
    let decoded = decode_utf16(buf, len);
    trimmed(decoded.as_str())
}

/// A string, unless it is empty.
pub open spec fn unless_empty(s: Seq<char>) -> Option<Seq<char>> {
    if s.len() == 0 {
        None
    } else {
        Some(s)
    }
}

/// A blank name is no name.
pub fn non_empty(s: String) -> (r: Option<String>)
    ensures
        r == if s@.len() == 0 {
            None
        } else {
            Some(s)
        },
{
    if same_text(s.as_str(), "") {
        proof {
            reveal_strlit("");
        }
        None
    } else {
        proof {
            reveal_strlit("");
            assert(s@.len() == 0 ==> s@ =~= ""@);
        }
        Some(s)
    }
}

/// The two bytes of a number the other way round.
pub open spec fn swapped(n: u16) -> int {
    (n % 256) * 256 + n / 256
}

/// A letter packed into five bits, where 1 is `A`.
pub open spec fn packed_letter(v: int) -> char {
    if 1 <= v <= 26 {
        (64 + v) as char
    } else {
        '?'
    }
}

/// The id under which a monitor goes: the three letters of its maker, of which
/// EDID keeps five bits each, in big-endian order, and its product code.
pub open spec fn edid_id(manufacture_id: u16, product_code: u16) -> Seq<char> {
    seq![
        packed_letter(swapped(manufacture_id) / 1024 % 32),
        packed_letter(swapped(manufacture_id) / 32 % 32),
        packed_letter(swapped(manufacture_id) % 32),
    ] + hex(product_code as nat, 4)
}

// A letter packed into five bits.
fn letter(v: u16) -> (c: char)
    requires
        v < 32,
    ensures
        c == packed_letter(v as int),
{
    if 1 <= v && v <= 26 {
        (64u8 + v as u8) as char
    } else {
        '?'
    }
}

/// Decode the EDID manufacturer and product pair into the form every monitor
/// tool shows it in, such as `MSI3DD2`: three packed letters, then the product
/// code in hexadecimal. Windows hands the manufacturer id back with its bytes
/// swapped.
pub fn format_edid_id(manufacture_id: u16, product_code: u16) -> (r: String)
    ensures
        r@ == edid_id(manufacture_id, product_code),
{
    let packed: u16 = (manufacture_id % 256) * 256 + manufacture_id / 256;
    let mut out = String::new();
    out.push(letter(packed / 1024 % 32));
    out.push(letter(packed / 32 % 32));
    out.push(letter(packed % 32));
    let code = hex_text(product_code as u32, 4);
    out.append(code.as_str());
    assert(out@ =~= edid_id(manufacture_id, product_code));
    out
}

/// What connector a code stands for.
pub open spec fn connector(tech: i32) -> Seq<char> {
    if tech == DISPLAYCONFIG_OUTPUT_TECHNOLOGY_HD15 {
        "VGA"@
    } else if tech == DISPLAYCONFIG_OUTPUT_TECHNOLOGY_DVI {
        "DVI"@
    } else if tech == DISPLAYCONFIG_OUTPUT_TECHNOLOGY_HDMI {
        "HDMI"@
    } else if tech == DISPLAYCONFIG_OUTPUT_TECHNOLOGY_DISPLAYPORT_EXTERNAL {
        "DisplayPort"@
    } else if tech == DISPLAYCONFIG_OUTPUT_TECHNOLOGY_DISPLAYPORT_EMBEDDED {
        "eDP"@
    } else if tech == DISPLAYCONFIG_OUTPUT_TECHNOLOGY_DISPLAYPORT_USB_TUNNEL {
        "DP/USB-C"@
    } else if tech == DISPLAYCONFIG_OUTPUT_TECHNOLOGY_INTERNAL {
        "Internal"@
    } else if tech == DISPLAYCONFIG_OUTPUT_TECHNOLOGY_MIRACAST {
        "Miracast"@
    } else if tech == DISPLAYCONFIG_OUTPUT_TECHNOLOGY_INDIRECT_WIRED {
        "Indirect"@
    } else if tech == DISPLAYCONFIG_OUTPUT_TECHNOLOGY_INDIRECT_VIRTUAL {
        "Virtual"@
    } else {
        "other"@
    }
}

/// Human label for a connector type.
pub fn output_technology_name(tech: i32) -> (r: &'static str)
    ensures
        r@ == connector(tech),
{
    if tech == DISPLAYCONFIG_OUTPUT_TECHNOLOGY_HD15 {
        "VGA"
    } else if tech == DISPLAYCONFIG_OUTPUT_TECHNOLOGY_DVI {
        "DVI"
    } else if tech == DISPLAYCONFIG_OUTPUT_TECHNOLOGY_HDMI {
        "HDMI"
    } else if tech == DISPLAYCONFIG_OUTPUT_TECHNOLOGY_DISPLAYPORT_EXTERNAL {
        "DisplayPort"
    } else if tech == DISPLAYCONFIG_OUTPUT_TECHNOLOGY_DISPLAYPORT_EMBEDDED {
        "eDP"
    } else if tech == DISPLAYCONFIG_OUTPUT_TECHNOLOGY_DISPLAYPORT_USB_TUNNEL {
        "DP/USB-C"
    } else if tech == DISPLAYCONFIG_OUTPUT_TECHNOLOGY_INTERNAL {
        "Internal"
    } else if tech == DISPLAYCONFIG_OUTPUT_TECHNOLOGY_MIRACAST {
        "Miracast"
    } else if tech == DISPLAYCONFIG_OUTPUT_TECHNOLOGY_INDIRECT_WIRED {
        "Indirect"
    } else if tech == DISPLAYCONFIG_OUTPUT_TECHNOLOGY_INDIRECT_VIRTUAL {
        "Virtual"
    } else {
        "other"
    }
}

/// The reply to `GET_TARGET_NAME`, as it stands in the request packet.
#[derive(Debug)]
pub struct TargetReply {
    pub code: u32,
    pub flags: u32,
    pub friendly_name: Vec<u16>,
    pub device_path: Vec<u16>,
    pub edid_manufacture_id: u16,
    pub edid_product_code_id: u16,
    pub output_technology: i32,
}

/// The flag of a reply by which its EDID ids count.
pub const EDID_IDS_VALID: u32 = 2;

impl TargetReply {
    /// Whether the reply names the monitor's EDID ids.
    pub open spec fn has_edid(self) -> bool {
        self.flags & EDID_IDS_VALID != 0 || self.edid_manufacture_id != 0
    }
}

/// What a physical output reports, out of the reply that Windows gave about it.
/// Inactive targets routinely refuse to answer, which only costs a label.
pub fn target_name(reply: &TargetReply) -> (r: TargetName)
    ensures
        reply.code != ERROR_SUCCESS ==> r == unnamed(),
        reply.code == ERROR_SUCCESS ==> {
            &&& opt_text(r.friendly) == unless_empty(wide_text(reply.friendly_name@))
            &&& opt_text(r.device_path) == unless_empty(wide_text(reply.device_path@))
            &&& opt_text(r.edid) == if reply.has_edid() {
                Some(edid_id(reply.edid_manufacture_id, reply.edid_product_code_id))
            } else {
                None
            }
            &&& r.output_technology == reply.output_technology
        },
{
    if reply.code != ERROR_SUCCESS {
        return TargetName::default();
    }
    TargetName {
        friendly: non_empty(wide_to_string(reply.friendly_name.as_slice())),
        device_path: non_empty(wide_to_string(reply.device_path.as_slice())),
        edid: if reply.flags & EDID_IDS_VALID != 0 || reply.edid_manufacture_id != 0 {
            Some(format_edid_id(reply.edid_manufacture_id, reply.edid_product_code_id))
        } else {
            None
        },
        output_technology: reply.output_technology,
    }
}

/// The device path of an adapter, out of the reply to `GET_ADAPTER_NAME`.
///
/// This is the persistent half of a monitor's identity. The handle itself is
/// handed out anew on every restart and is never stored.
pub fn adapter_device_path(answer: &Answer, path: &[u16]) -> (r: Result<String, Answer>)
    ensures
        match r {
            Ok(s) => answer.code == ERROR_SUCCESS && s@ == wide_text(path@),
            Err(e) => answer.code != ERROR_SUCCESS && e == *answer,
        },
{
    if answer.code != ERROR_SUCCESS {
        Err(answer.clone())
    } else {
        Ok(wide_to_string(path))
    }
}

/// The GDI device name (`\\.\DISPLAY2`) of a source, out of the reply to
/// `GET_SOURCE_NAME`. Reference only: this numbering is reassigned as displays
/// come and go.
pub fn source_gdi_name(code: u32, name: &[u16]) -> (r: Option<String>)
    ensures
        opt_text(r) == if code == ERROR_SUCCESS {
            unless_empty(wide_text(name@))
        } else {
            None
        },
{
    if code != ERROR_SUCCESS {
        return None;
    }
    non_empty(wide_to_string(name))
}

// ---------------------------------------------------------------------------
// What holds of replies
// ---------------------------------------------------------------------------

/// A path is in use by the lowest bit of its flags, whatever the others are.
pub proof fn law_a_path_is_in_use_by_its_lowest_bit(path: PathInfo)
    ensures
        path.active() <==> path.flags % 2 == 1,
        path.available() <==> path.target_info.target_available,
{
    let flags = path.flags;
    assert(flags & 1u32 != 0 <==> flags % 2 == 1) by (bit_vector);
}

/// A path has the mode that it points at, with its position as it is there; one that
/// points at nothing, or at something that is no mode of a source, has none.
pub proof fn law_a_path_has_the_mode_it_points_at(topo: Topology, path: PathInfo, m: SourceMode)
    ensures
        topo.mode_of(path) == Some(m) <==> path.source_info.mode_info_idx < topo.modes@.len()
            && topo.modes@[path.source_info.mode_info_idx as int] == ModeInfo::Source(m),
        path.source_info.mode_info_idx >= topo.modes@.len() ==> topo.mode_of(path) is None,
{
}

/// A query goes on to read once it has the sizes, and starts over where the buffers
/// were too small. Any other failure ends it, and is reported with the answer that it
/// came with and the call that it was the answer to.
pub proof fn law_a_query_reports_what_failed(answer: Answer, attempt: u32)
    ensures
        answer.code == 0 ==> query_next(QueryState::Sizing { attempt }, answer) == (
        QueryState::Reading { attempt }) && query_next(QueryState::Reading { attempt }, answer)
            is Done,
        answer.code != 0 ==> query_next(QueryState::Sizing { attempt }, answer) == (
        QueryState::Failed { error: Error::BufferSizes { answer } }),
        answer.code != 0 && answer.code != 122 ==> query_next(
            QueryState::Reading { attempt },
            answer,
        ) == (QueryState::Failed { error: Error::Query { answer } }),
        answer.code == 122 && attempt < 5 ==> query_next(QueryState::Reading { attempt }, answer)
            == (QueryState::Sizing { attempt: (attempt + 1) as u32 }),
        answer.code == 122 && attempt >= 5 ==> query_next(QueryState::Reading { attempt }, answer)
            == (QueryState::Failed { error: Error::KeptChanging }),
{
}

/// Three letters packed into a maker's id come out as these letters, in order, and the
/// product code as four hexadecimal digits behind them. The id comes with its two
/// bytes swapped.
pub proof fn law_a_makers_letters_come_out(a: char, b: char, c: char, id: u16, product: u16)
    requires
        'A' <= a <= 'Z',
        'A' <= b <= 'Z',
        'A' <= c <= 'Z',
        id % 256 * 256 + id / 256 == (a as int - 64) * 1024 + (b as int - 64) * 32 + (c as int - 64),
    ensures
        edid_id(id, product).len() == 7,
        edid_id(id, product).take(3) == seq![a, b, c],
        digits_value(edid_id(id, product).skip(3), 16) == product,
{
    law_hex_reads_back(product as nat, 4);
    reveal_with_fuel(sixteen_to, 5);
    lemma_hex_width(product as nat, 4);
    let packed = swapped(id);
    let (x, y, z) = (a as int - 64, b as int - 64, c as int - 64);
    assert(packed == x * 1024 + y * 32 + z);
    assert(packed / 1024 == x);
    assert(packed / 32 == x * 32 + y);
    assert((x * 32 + y) % 32 == y);
    assert(packed % 32 == z);
    assert(edid_id(id, product).take(3) =~= seq![a, b, c]);
    assert(edid_id(id, product).skip(3) =~= hex(product as nat, 4));
}

/// Five bits that stand for no letter come out as a question mark.
pub proof fn law_what_is_no_letter_is_marked(v: int)
    ensures
        1 <= v <= 26 ==> 'A' <= packed_letter(v) <= 'Z' && packed_letter(v) as int - 'A' as int == v
            - 1,
        !(1 <= v <= 26) ==> packed_letter(v) == '?',
{
}

/// A connector is called by its own name, by the code that Windows has for it.
pub proof fn law_each_connector_has_its_name(tech: i32)
    ensures
        tech == 0 ==> connector(tech) == "VGA"@,
        tech == 4 ==> connector(tech) == "DVI"@,
        tech == 5 ==> connector(tech) == "HDMI"@,
        tech == 10 ==> connector(tech) == "DisplayPort"@,
        tech == 11 ==> connector(tech) == "eDP"@,
        tech == 15 ==> connector(tech) == "Miracast"@,
        tech == 16 ==> connector(tech) == "Indirect"@,
        tech == 17 ==> connector(tech) == "Virtual"@,
        tech == 18 ==> connector(tech) == "DP/USB-C"@,
        tech == i32::MIN ==> connector(tech) == "Internal"@,
        tech != 0 && tech != 4 && tech != 5 && tech != 10 && tech != 11 && tech != 15 && tech != 16
            && tech != 17 && tech != 18 && tech != i32::MIN ==> connector(tech) == "other"@,
{
}

/// A buffer is read up to its first zero, or to its end where it has none.
pub proof fn law_a_buffer_ends_at_its_first_zero(buf: Seq<u16>)
    ensures
        terminated(buf).len() <= buf.len(),
        terminated(buf) == buf.take(terminated(buf).len() as int),
        !terminated(buf).contains(0),
        terminated(buf).len() < buf.len() ==> buf[terminated(buf).len() as int] == 0,
    decreases buf.len(),
{
    if buf.len() > 0 && buf[0] != 0 {
        law_a_buffer_ends_at_its_first_zero(buf.skip(1));
        let rest = terminated(buf.skip(1));
        assert(terminated(buf) =~= buf.take(terminated(buf).len() as int));
        assert(!terminated(buf).contains(0)) by {
            if terminated(buf).contains(0) {
                let i = choose|i: int| 0 <= i < terminated(buf).len() && terminated(buf)[i] == 0;
                if i > 0 {
                    assert(rest[i - 1] == 0);
                    assert(rest.contains(0));
                }
            }
        }
    } else {
        assert(terminated(buf) =~= buf.take(0));
    }
}

/// A half of a pair that stands alone comes out as the replacement character, and does
/// not take what follows with it.
pub proof fn law_a_lone_half_is_replaced(half: u16, rest: Seq<u16>)
    requires
        0xD800 <= half <= 0xDFFF,
        half >= 0xDC00 || rest.len() == 0 || rest[0] < 0xDC00 || rest[0] > 0xDFFF,
    ensures
        utf16(seq![half] + rest) == seq!['\u{FFFD}'] + utf16(rest),
{
    assert((seq![half] + rest).skip(1) =~= rest);
}

/// A name that Windows reports is what stands in its buffer without white space at its
/// ends, and is no name where that is empty.
pub proof fn law_a_reported_name_is_not_blank(buf: Seq<u16>)
    ensures
        unless_empty(wide_text(buf)) matches Some(name) ==> {
            &&& name.len() > 0
            &&& !whitespace(name[0])
            &&& !whitespace(name.last())
            &&& exists|i: int, j: int|
                0 <= i <= j <= utf16(terminated(buf)).len() && name == #[trigger] utf16(
                    terminated(buf),
                ).subrange(i, j)
        },
        unless_empty(wide_text(buf)) is None <==> forall|i: int|
            0 <= i < utf16(terminated(buf)).len() ==> whitespace(
                #[trigger] utf16(terminated(buf))[i],
            ),
{
    law_trimming_takes_off_white_space(utf16(terminated(buf)));
}

/// A code that is no half of a pair stands for the character with that number. Pairs
/// stand for the characters from U+10000 on, one after the other, with the second half
/// counting fastest.
pub proof fn law_pairs_count_up(high: u16, low: u16, plain: u16, rest: Seq<u16>)
    requires
        0xD800 <= high <= 0xDBFF,
        0xDC00 <= low <= 0xDFFF,
        plain < 0xD800 || plain > 0xDFFF,
    ensures
        utf16(seq![plain] + rest) == seq![plain as char] + utf16(rest),
        utf16(seq![high, low] + rest) == seq![paired(high, low)] + utf16(rest),
        paired(0xD800, 0xDC00) == '\u{10000}',
        low < 0xDFFF ==> paired(high, (low + 1) as u16) as int == paired(high, low) as int + 1,
        high < 0xDBFF ==> paired((high + 1) as u16, 0xDC00) as int == paired(high, 0xDFFF) as int
            + 1,
{
    assert((seq![plain] + rest).skip(1) =~= rest);
    assert((seq![high, low] + rest).skip(2) =~= rest);
}

/// What is known of a handle is what was answered about it. An adapter that Windows
/// declined to name fails with that answer, and one that was not asked about by its
/// handle; an output about which nothing is known has no names at all.
pub proof fn law_what_is_known_is_what_was_answered(
    names: FixedNames,
    adapter: Luid,
    id: u32,
    path: String,
    answer: Answer,
)
    ensures
        names.path_of(adapter) == Some(path) <==> names.adapter_reply(adapter) == Some(
            Ok::<String, Answer>(path),
        ),
        names.adapter_reply(adapter) == Some(Err::<String, Answer>(answer)) ==> names.refusal_of(
            adapter,
        ) == (Error::AdapterName { answer }),
        names.adapter_reply(adapter) is None ==> names.refusal_of(adapter) == (Error::NoAdapter {
            adapter,
        }),
        names.target_reply(adapter, id) is Some ==> names.name_of(adapter, id)
            == names.target_reply(adapter, id)->0,
        names.target_reply(adapter, id) is None ==> {
            let name = names.name_of(adapter, id);
            name.friendly is None && name.device_path is None && name.edid is None
                && name.output_technology == 0
        },
{
}

/// What Windows says of an output counts exactly if the call went well: a name that is not
/// empty, and an id only where there is one.
pub proof fn law_a_reply_counts_if_windows_says_so(
    reply: &TargetReply,
    name: TargetName,
    code: u32,
    buf: &[u16],
    gdi: Option<String>,
    answer: &Answer,
    path: Result<String, Answer>,
)
    requires
        call_ensures(target_name, (reply,), name),
        call_ensures(source_gdi_name, (code, buf), gdi),
        call_ensures(adapter_device_path, (answer, buf), path),
    ensures
        reply.code != 0 ==> name == unnamed(),
        reply.code == 0 ==> name.output_technology == reply.output_technology && (
        name.friendly is Some <==> wide_text(reply.friendly_name@).len() > 0) && (
        name.device_path is Some <==> wide_text(reply.device_path@).len() > 0) && (name.edid
            is Some <==> reply.has_edid()),
        reply.code == 0 && name.friendly is Some ==> name.friendly->0@ == wide_text(
            reply.friendly_name@,
        ),
        reply.code == 0 && name.device_path is Some ==> name.device_path->0@ == wide_text(
            reply.device_path@,
        ),
        reply.code == 0 && name.edid is Some ==> name.edid->0@ == edid_id(
            reply.edid_manufacture_id,
            reply.edid_product_code_id,
        ),
        gdi is Some <==> code == 0 && wide_text(buf@).len() > 0,
        gdi matches Some(text) ==> text@ == wide_text(buf@),
        path is Ok <==> answer.code == 0,
        path matches Ok(text) ==> text@ == wide_text(buf@),
        path matches Err(e) ==> e == *answer,
{
}

/// Of what Windows had room for, as much counts as it says that it wrote.
pub proof fn law_a_topology_is_what_was_written(
    paths: Vec<PathInfo>,
    modes: Vec<ModeInfo>,
    paths_written: usize,
    modes_written: usize,
    r: Topology,
    i: int,
)
    requires
        call_ensures(read_topology, (paths, modes, paths_written, modes_written), r),
    ensures
        paths_written <= paths@.len() ==> r.paths@.len() == paths_written,
        modes_written <= modes@.len() ==> r.modes@.len() == modes_written,
        0 <= i < r.paths@.len() ==> r.paths@[i] == paths@[i],
        0 <= i < r.modes@.len() ==> r.modes@[i] == modes@[i],
{
}

/// The laws on texts, names, modes and queries are about what the functions here return.
pub proof fn law_replies_are_read_as_stated(
    names: &FixedNames,
    adapter: Luid,
    id: u32,
    path: &PathInfo,
    topo: &Topology,
    state: QueryState,
    answer: &Answer,
    buf: &[u16],
    maker: u16,
    product: u16,
    tech: i32,
)
    ensures
        forall|r: bool| call_ensures(PathInfo::is_active, (path,), r) ==> r == path.active(),
        forall|r: Option<SourceMode>|
            call_ensures(Topology::source_mode, (topo, path), r) ==> r == topo.mode_of(*path),
        forall|r: Result<String, Error>|
            call_ensures(FixedNames::adapter_path, (names, adapter), r) ==> match r {
                Ok(path) => names.path_of(adapter) == Some(path),
                Err(e) => names.path_of(adapter) is None && e == names.refusal_of(adapter),
            },
        forall|r: TargetName|
            call_ensures(FixedNames::target_name, (names, adapter, id), r) ==> r == names.name_of(
                adapter,
                id,
            ),
        forall|r: Option<String>|
            call_ensures(FixedNames::source_gdi_name, (names, adapter, id), r) ==> r
                == names.gdi_of(adapter, id),
        forall|r: QueryState|
            call_ensures(query, (), r) ==> r == (QueryState::Sizing { attempt: 1 }),
        forall|r: QueryState|
            call_ensures(query_step, (state, answer), r) ==> r == query_next(state, *answer),
        forall|r: String| call_ensures(wide_to_string, (buf,), r) ==> r@ == wide_text(buf@),
        forall|r: String|
            call_ensures(format_edid_id, (maker, product), r) ==> r@ == edid_id(maker, product),
        forall|r: &'static str|
            call_ensures(output_technology_name, (tech,), r) ==> r@ == connector(tech),
{
}

} // verus!
