//! Config file: named targets, named profiles, the switch pair and the hotkeys.
//!
//! Lives at `%LOCALAPPDATA%\monitor-switcher\config.json` unless `--config`
//! says otherwise. Written by `save-profile`, hand-editable afterwards. The
//! files themselves are read and written by the caller: this module decides what
//! is made of what was found, and in which steps a config is put in place.

use vstd::prelude::*;
use vstd::string::*;

use crate::display::identity::TargetKey;
use crate::error::{chain, Error};
use crate::names::NameMap;
use crate::seqs::{first_slot, lemma_first_slot_is, lemma_first_where};
use crate::text::{
    before, cat2, cat3, cat4, cat5, decimal, decimal_text, join, joined, lemma_before_irreflexive,
    lemma_before_transitive, lemma_decimal_reads_back, texts,
};

verus! {

/// The whole of a config file.
#[derive(Debug)]
pub struct Config {
    /// Friendly name to the physical output it refers to.
    pub targets: NameMap<TargetEntry>,
    /// Profile name to the target names that should be active.
    pub profiles: NameMap<Vec<String>>,
    /// The two profiles `switch` alternates between when given no arguments.
    pub switch: Option<Vec<String>>,
    /// Key combination to the command that it runs.
    pub hotkeys: NameMap<String>,
}

/// A physical output, as the config knows it.
#[derive(Debug)]
pub struct TargetEntry {
    pub key: TargetKey,
    /// EDID id, such as `MSI3DD2`. Not used for topology, but it is how DDC/CI
    /// addresses a panel.
    pub edid: Option<String>,
    /// Whatever the monitor called itself when captured. Comment, not key.
    pub friendly: Option<String>,
    /// HDMI-CEC power control for this display, if it has any. Absent means the
    /// display is only ever switched at the GPU, never powered.
    pub cec: Option<CecConfig>,
}

/// Per-display CEC behaviour. Every action is opt-out, because a display with a
/// `cec` block at all is one that is to be powered along with the topology.
#[derive(Debug, Clone, Copy, PartialEq, Eq, Structural)]
pub struct CecConfig {
    /// Which numbered HDMI input on the TV the adapter's signal arrives at.
    pub hdmi_port: u8,
    /// Wake the display when a profile activates it.
    pub power_on: bool,
    /// Put the display into standby when a profile deactivates it.
    pub standby: bool,
    /// Take over the display's input after waking it.
    pub activate_source: bool,
}

/// The HDMI input of a display whose config does not say.
pub fn default_hdmi_port() -> (r: u8)
    ensures
        r == 1,
{
    1
}

/// What a CEC action is that the config does not mention: wanted.
pub fn yes() -> (r: bool)
    ensures
        r,
{
    true
}

impl Default for CecConfig {
    fn default() -> (r: CecConfig)
        ensures
            r == (CecConfig { hdmi_port: 1, power_on: true, standby: true, activate_source: true }),
    {
        CecConfig {
            hdmi_port: default_hdmi_port(),
            power_on: yes(),
            standby: yes(),
            activate_source: yes(),
        }
    }
}

impl Config {
    /// A config that says nothing.
    pub open spec fn is_blank(self) -> bool {
        &&& self.targets.names().len() == 0
        &&& self.profiles.names().len() == 0
        &&& self.switch is None
        &&& self.hotkeys.names().len() == 0
    }
}

impl Default for Config {
    fn default() -> (r: Config)
        ensures
            r.is_blank(),
    {
        Config {
            targets: NameMap::new(),
            profiles: NameMap::new(),
            switch: None,
            hotkeys: NameMap::new(),
        }
    }
}

// ---------------------------------------------------------------------------
// Reading
// ---------------------------------------------------------------------------

/// What came of reading a config file.
///
/// A file that is not there is told apart from one that could not be read: a
/// permission denial or a lock is a real problem, and is not to be reported as a
/// config that was never created.
#[derive(Debug)]
pub enum Reading {
    /// It holds a config.
    Parsed { config: Config },
    /// Its text is no config.
    Unparsable { why: String },
    /// There is no such file.
    NotFound,
    /// It could not be read.
    Failed { why: String },
}

/// Where a config would be, and what is there instead.
#[derive(Debug)]
pub struct Surroundings {
    /// The directory the file would be in, if its path has one.
    pub directory: Option<Directory>,
    /// The variable `LOCALAPPDATA`, where it is set.
    pub local_app_data: Option<String>,
}

#[derive(Debug)]
pub struct Directory {
    pub name: String,
    pub state: DirectoryState,
}

/// What came of listing a directory.
#[derive(Debug)]
pub enum DirectoryState {
    Holds { names: Vec<String> },
    Missing,
    Unreadable { why: String },
}

impl DirectoryState {
    /// The state of a directory in words.
    pub open spec fn text(self) -> Seq<char> {
        match self {
            DirectoryState::Holds { names } => if names@.len() == 0 {
                "exists but is empty"@
            } else {
                "exists and contains: "@ + join(texts(names@), ", "@)
            },
            DirectoryState::Missing => "does not exist"@,
            DirectoryState::Unreadable { why } => "cannot be read: "@ + why@,
        }
    }

    /// The state of a directory in words.
    pub fn describe(&self) -> (r: String)
        ensures
            r@ == self.text(),
    {
        match self {
            DirectoryState::Holds { names } => if names.len() == 0 {
                "exists but is empty".to_owned()
            } else {
                let list = joined(names.as_slice(), ", ");
                cat2("exists and contains: ", list.as_str())
            },
            DirectoryState::Missing => "does not exist".to_owned(),
            DirectoryState::Unreadable { why } => cat2("cannot be read: ", why.as_str()),
        }
    }
}

impl Surroundings {
    /// The line about the directory, which a bare file name does without.
    pub open spec fn directory_line(self) -> Seq<char> {
        match self.directory {
            Some(dir) => if dir.name@.len() == 0 {
                Seq::empty()
            } else {
                "\n  the directory "@ + dir.name@ + " "@ + dir.state.text()
            },
            None => Seq::empty(),
        }
    }

    /// The line about where the config is looked for.
    pub open spec fn variable_line(self) -> Seq<char> {
        match self.local_app_data {
            Some(v) => "\n  LOCALAPPDATA for this process is "@ + v@,
            None => "\n  LOCALAPPDATA is not set for this process"@,
        }
    }
}

/// What is said of a config that is not there.
pub open spec fn missing_text(path: Seq<char>, around: Surroundings) -> Seq<char> {
    "no config at "@ + path + around.directory_line() + around.variable_line()
        + "\n  Run `monitor-switcher save-profile <name>` to create one, or pass --config <path> to use one elsewhere."@
}

/// Explain a missing config in enough detail to tell apart the three reasons it
/// happens: never created, created somewhere else because `LOCALAPPDATA` differs
/// between shells, or present but invisible to this process.
pub fn missing_config_message(path: &str, around: &Surroundings) -> (r: String)
    ensures
        r@ == missing_text(path@, *around),
{
    let mut directory_line = String::new();
    if let Some(dir) = &around.directory {
        if dir.name.as_str().is_empty() {
        } else {
            let state = dir.state.describe();
            directory_line = cat4("\n  the directory ", dir.name.as_str(), " ", state.as_str());
        }
    }
    assert(directory_line@ =~= around.directory_line());
    let variable_line = match &around.local_app_data {
        Some(v) => cat2("\n  LOCALAPPDATA for this process is ", v.as_str()),
        None => "\n  LOCALAPPDATA is not set for this process".to_owned(),
    };
    cat5(
        "no config at ",
        path,
        directory_line.as_str(),
        variable_line.as_str(),
        "\n  Run `monitor-switcher save-profile <name>` to create one, or pass --config <path> to use one elsewhere.",
    )
}

/// What was read of a config file. `Ok(None)` means that the file genuinely is
/// not there.
pub fn read(path: &str, found: Reading) -> (r: Result<Option<Config>, Error>)
    ensures
        match found {
            Reading::Parsed { config } => r == Ok::<Option<Config>, Error>(Some(config)),
            Reading::NotFound => r == Ok::<Option<Config>, Error>(None),
            Reading::Unparsable { why } => r matches Err(e) && chain(e) == seq![
                    "parsing config at "@ + path@,
                    why@,
                ],
            Reading::Failed { why } => r matches Err(e) && chain(e) == seq![
                    "reading config at "@ + path@,
                    why@,
                ],
        },
{
    match found {
        Reading::Parsed { config } => Ok(Some(config)),
        Reading::NotFound => Ok(None),
        Reading::Unparsable { why } => Err(
            Error::Context { doing: cat2("parsing config at ", path), cause: why },
        ),
        Reading::Failed { why } => Err(
            Error::Context { doing: cat2("reading config at ", path), cause: why },
        ),
    }
}

/// The parts of the path at which the config is looked for, under the directory
/// that `LOCALAPPDATA` names.
pub open spec fn default_parts(base: Seq<char>) -> Seq<Seq<char>> {
    seq![base, "monitor-switcher"@, "config.json"@]
}

/// What is said where nothing says where to look for the config.
pub open spec fn no_place() -> Seq<char> {
    "LOCALAPPDATA is not set; pass --config with an explicit path"@
}

impl Config {
    /// The parts of the path at which the config is looked for.
    /// The variable comes as it was read, or with the reason why it was not.
    pub fn default_path(local_app_data: Result<String, String>) -> (r: Result<Vec<String>, Error>)
        ensures
            match r {
                Ok(parts) => local_app_data matches Ok(base) && texts(parts@) == default_parts(
                    base@,
                ),
                Err(e) => local_app_data matches Err(why) && chain(e) == seq![no_place(), why@],
            },
    {
        match local_app_data {
            Ok(base) => {
                let mut parts: Vec<String> = Vec::new();
                let ghost b = base@;
                parts.push(base);
                parts.push("monitor-switcher".to_owned());
                parts.push("config.json".to_owned());
                assert(texts(parts@) =~= default_parts(b));
                Ok(parts)
            },
            Err(why) => {
                let doing =
                    "LOCALAPPDATA is not set; pass --config with an explicit path".to_owned();
                Err(Error::Context { doing, cause: why })
            },
        }
    }

    /// The config that was read, or an empty one if the file does not exist yet.
    pub fn load_or_default(path: &str, found: Reading) -> (r: Result<Config, Error>)
        ensures
            match found {
                Reading::Parsed { config } => r == Ok::<Config, Error>(config),
                Reading::NotFound => r matches Ok(config) && config.is_blank(),
                Reading::Unparsable { why } => r matches Err(e) && chain(e) == seq![
                    "parsing config at "@ + path@,
                    why@,
                ],
                Reading::Failed { why } => r matches Err(e) && chain(e) == seq![
                    "reading config at "@ + path@,
                    why@,
                ],
            },
    {
        match read(path, found) {
            Ok(Some(config)) => Ok(config),
            Ok(None) => Ok(Config::default()),
            Err(e) => Err(e),
        }
    }

    /// The config that was read, failing if the file does not exist: for
    /// commands that cannot do anything useful without one.
    pub fn load(path: &str, found: Reading, around: &Surroundings) -> (r: Result<Config, Error>)
        ensures
            match found {
                Reading::Parsed { config } => r == Ok::<Config, Error>(config),
                Reading::NotFound => r matches Err(e) && chain(e) == seq![
                    missing_text(path@, *around),
                ],
                Reading::Unparsable { why } => r matches Err(e) && chain(e) == seq![
                    "parsing config at "@ + path@,
                    why@,
                ],
                Reading::Failed { why } => r matches Err(e) && chain(e) == seq![
                    "reading config at "@ + path@,
                    why@,
                ],
            },
    {
        match read(path, found) {
            Ok(Some(config)) => Ok(config),
            Ok(None) => Err(Error::Plain { why: missing_config_message(path, around) }),
            Err(e) => Err(e),
        }
    }

    /// Targets that stand for an output.
    pub open spec fn stands_for(self, key: (Seq<char>, u32)) -> spec_fn(int) -> bool {
        |i: int| self.targets.values()[i].key@ == key
    }

    /// The name given to an output: the first in name order, where it has several.
    pub open spec fn name_of(self, key: (Seq<char>, u32)) -> Option<Seq<char>> {
        let i = first_slot(self.targets.names().len(), self.stands_for(key));
        if i < self.targets.names().len() {
            Some(self.targets.names()[i])
        } else {
            None
        }
    }

    /// Look up the name given to a physical output, if it has one.
    pub fn name_for(&self, key: &TargetKey) -> (r: Option<&str>)
        ensures
            match r {
                Some(name) => self.name_of(key@) == Some(name@),
                None => self.name_of(key@) is None,
            },
    {
        let n = self.targets.len();
        let ghost meets = self.stands_for(key@);
        for i in 0..n
            invariant
                self.targets.wf(),
                n == self.targets.names().len(),
                meets == self.stands_for(key@),
                forall|j: int| 0 <= j < i ==> !#[trigger] meets(j),
        {
            if self.targets.value_at(i).key.same_key(key) {
                proof {
                    lemma_first_slot_is(n as nat, meets, i as int);
                }
                return Some(self.targets.name_at(i).as_str());
            }
        }
        proof {
            lemma_first_slot_is(n as nat, meets, n as int);
        }
        None
    }

    /// The two profiles `switch` should alternate between.
    pub fn switch_pair(&self) -> (r: Result<(String, String), Error>)
        ensures
            match self.switch {
                None => r matches Err(e) && e == Error::NoSwitchPair,
                Some(pair) => if pair@.len() == 2 {
                    r matches Ok(names) && names.0 == pair@[0] && names.1 == pair@[1]
                } else {
                    r matches Err(e) && e == (Error::BadSwitchPair { found: pair@.len() as usize })
                },
            },
    {
        match &self.switch {
            None => Err(Error::NoSwitchPair),
            Some(pair) => if pair.len() == 2 {
                Ok((pair[0].clone(), pair[1].clone()))
            } else {
                Err(Error::BadSwitchPair { found: pair.len() })
            },
        }
    }
}

/// Whether a name stands for an output, and no name before it does.
pub open spec fn is_first_name(
    targets: Map<Seq<char>, TargetEntry>,
    key: (Seq<char>, u32),
    name: Seq<char>,
) -> bool {
    &&& targets.dom().contains(name)
    &&& targets[name].key@ == key
    &&& forall|other: Seq<char>| #[trigger]
        targets.dom().contains(other) && targets[other].key@ == key ==> other == name || before(
            name,
            other,
        )
}

/// The first name, in name order, that stands for an output.
pub open spec fn first_name(
    targets: Map<Seq<char>, TargetEntry>,
    key: (Seq<char>, u32),
) -> Option<Seq<char>> {
    if exists|name: Seq<char>| is_first_name(targets, key, name) {
        Some(choose|name: Seq<char>| is_first_name(targets, key, name))
    } else {
        None
    }
}

impl Config {
    /// The name given to an output depends on which names stand for it, and on
    /// nothing else.
    pub proof fn lemma_name_of(self, key: (Seq<char>, u32))
        requires
            self.targets.wf(),
        ensures
            self.name_of(key) == first_name(self.targets@, key),
            first_name(self.targets@, key) is None ==> forall|name: Seq<char>| #[trigger]
                self.targets@.dom().contains(name) ==> self.targets@[name].key@ != key,
    {
        let names = self.targets.names();
        let n = names.len();
        let meets = self.stands_for(key);
        let slots = Seq::new(n, |i: int| i);
        lemma_first_where(slots, meets);
        let i = first_slot(n, meets);
        let targets = self.targets@;
        assert forall|other: Seq<char>| #[trigger]
            targets.dom().contains(other) && targets[other].key@ == key implies i < n && (other
            == names[i] || before(names[i], other)) by {
            let k = choose|k: int| 0 <= k < names.len() && names[k] == other;
            self.targets.lemma_listed(k);
            assert(slots[k] == k && meets(k));
            if k < i {
                assert(!meets(slots[k]));
            }
        }
        if i < n {
            self.targets.lemma_listed(i);
            assert(slots[i] == i);
            assert(is_first_name(targets, key, names[i]));
            let chosen = choose|name: Seq<char>| is_first_name(targets, key, name);
            if chosen != names[i] {
                lemma_before_transitive(chosen, names[i], chosen);
                lemma_before_irreflexive(chosen);
            }
        }
    }
}

// ---------------------------------------------------------------------------
// Writing
// ---------------------------------------------------------------------------

/// How far writing a config has come.
///
/// The new config goes into a file next to the one it replaces, and is moved
/// over it only once it is whole and on disk. An interruption at any point
/// leaves the whole old config or the whole new one.
#[derive(Debug)]
pub enum SaveState {
    /// The directory is to be made.
    MakeDirectory,
    /// The config is to be turned into text.
    Serialise,
    /// The temporary file is to be created.
    Create,
    /// The text is to be written to it.
    Write,
    /// It is to be flushed to disk, and closed.
    Flush,
    /// It is to be moved into place.
    Move,
    /// The config is in place.
    Done,
    /// The temporary file is to be removed, whatever comes of that.
    Tidy { error: Error },
    /// The config could not be put in place.
    Failed { error: Error },
}

/// The files that writing a config involves, as they are shown to people.
#[derive(Debug)]
pub struct SavePaths {
    pub directory: Option<String>,
    pub temporary: String,
    pub config: String,
}

/// What goes behind a config file's name for the temporary file beside it. The
/// process id keeps two concurrent runs off each other's.
pub open spec fn temporary_text(pid: u32) -> Seq<char> {
    "."@ + decimal(pid as nat) + ".tmp"@
}

/// What goes behind a config file's name for the temporary file beside it.
pub fn temporary_suffix(pid: u32) -> (r: String)
    ensures
        r@ == temporary_text(pid),
{
    let number = decimal_text(pid as u128);
    cat3(".", number.as_str(), ".tmp")
}

/// What a step of writing a config is called when it fails.
pub open spec fn doing(state: SaveState, paths: SavePaths) -> Seq<char> {
    match state {
        SaveState::MakeDirectory => "creating "@ + match paths.directory {
            Some(dir) => dir@,
            None => Seq::empty(),
        },
        SaveState::Create => "creating "@ + paths.temporary@,
        SaveState::Write => "writing "@ + paths.temporary@,
        SaveState::Flush => "flushing "@ + paths.temporary@ + " to disk"@,
        SaveState::Move => "moving "@ + paths.temporary@ + " into place as "@ + paths.config@,
        _ => Seq::empty(),
    }
}

/// Whether a step of writing a config is the one that follows another.
pub open spec fn step_follows(state: SaveState, next: SaveState) -> bool {
    match state {
        SaveState::MakeDirectory => next is Serialise,
        SaveState::Serialise => next is Create,
        SaveState::Create => next is Write,
        SaveState::Write => next is Flush,
        SaveState::Flush => next is Move,
        SaveState::Move => next is Done,
        SaveState::Done => next is Done,
        SaveState::Tidy { error } => next == (SaveState::Failed { error }),
        SaveState::Failed { error } => next == (SaveState::Failed { error }),
    }
}

/// Where writing a config stands after a step, given what came of it.
pub open spec fn save_next(
    state: SaveState,
    paths: SavePaths,
    outcome: Result<(), String>,
    next: SaveState,
) -> bool {
    match state {
        SaveState::Done | SaveState::Tidy { .. } | SaveState::Failed { .. } => step_follows(
            state,
            next,
        ),
        SaveState::MakeDirectory => match outcome {
            Ok(_) => step_follows(state, next),
            // Nothing has been put beside the config yet.
            Err(cause) => next matches SaveState::Failed { error } && chain(error) == seq![
                doing(state, paths),
                cause@,
            ],
        },
        SaveState::Serialise => match outcome {
            Ok(_) => step_follows(state, next),
            Err(cause) => next matches SaveState::Tidy { error } && chain(error) == seq![cause@],
        },
        _ => match outcome {
            Ok(_) => step_follows(state, next),
            Err(cause) => next matches SaveState::Tidy { error } && chain(error) == seq![
                doing(state, paths),
                cause@,
            ],
        },
    }
}

impl Config {
    /// Start writing a config.
    pub fn save(paths: &SavePaths) -> (r: SaveState)
        ensures
            r == if paths.directory is Some {
                SaveState::MakeDirectory
            } else {
                SaveState::Serialise
            },
    {
        if paths.directory.is_some() {
            SaveState::MakeDirectory
        } else {
            SaveState::Serialise
        }
    }
}

/// Take what came of a step of writing a config.
pub fn save_step(state: SaveState, paths: &SavePaths, outcome: Result<(), String>) -> (r: SaveState)
    ensures
        save_next(state, *paths, outcome, r),
{
    match state {
        SaveState::MakeDirectory => match outcome {
            Ok(_) => SaveState::Serialise,
            Err(cause) => {
                let doing = match &paths.directory {
                    Some(dir) => cat2("creating ", dir.as_str()),
                    None => "creating ".to_owned(),
                };
                assert("creating "@ + Seq::<char>::empty() =~= "creating "@);
                SaveState::Failed { error: Error::Context { doing, cause } }
            },
        },
        SaveState::Serialise => match outcome {
            Ok(_) => SaveState::Create,
            Err(cause) => SaveState::Tidy { error: Error::Plain { why: cause } },
        },
        SaveState::Create => match outcome {
            Ok(_) => SaveState::Write,
            Err(cause) => {
                let doing = cat2("creating ", paths.temporary.as_str());
                SaveState::Tidy { error: Error::Context { doing, cause } }
            },
        },
        SaveState::Write => match outcome {
            Ok(_) => SaveState::Flush,
            Err(cause) => {
                let doing = cat2("writing ", paths.temporary.as_str());
                SaveState::Tidy { error: Error::Context { doing, cause } }
            },
        },
        SaveState::Flush => match outcome {
            Ok(_) => SaveState::Move,
            Err(cause) => {
                let doing = cat3("flushing ", paths.temporary.as_str(), " to disk");
                SaveState::Tidy { error: Error::Context { doing, cause } }
            },
        },
        SaveState::Move => match outcome {
            Ok(_) => SaveState::Done,
            Err(cause) => {
                let doing = cat4(
                    "moving ",
                    paths.temporary.as_str(),
                    " into place as ",
                    paths.config.as_str(),
                );
                SaveState::Tidy { error: Error::Context { doing, cause } }
            },
        },
        SaveState::Done => SaveState::Done,
        SaveState::Tidy { error } => SaveState::Failed { error },
        SaveState::Failed { error } => SaveState::Failed { error },
    }
}

/// The states that writing a config goes through, given what came of each step.
pub open spec fn is_save(
    states: Seq<SaveState>,
    paths: SavePaths,
    outcomes: Seq<Result<(), String>>,
) -> bool {
    &&& states.len() == outcomes.len() + 1
    &&& states[0] is MakeDirectory || states[0] is Serialise
    &&& forall|i: int|
        0 <= i < outcomes.len() ==> save_next(
            #[trigger] states[i],
            paths,
            outcomes[i],
            states[i + 1],
        )
}

/// How many steps come before one in which the config is written.
pub open spec fn step_number(state: SaveState) -> int {
    match state {
        SaveState::MakeDirectory => 0,
        SaveState::Serialise => 1,
        SaveState::Create => 2,
        SaveState::Write => 3,
        SaveState::Flush => 4,
        SaveState::Move => 5,
        SaveState::Done => 6,
        SaveState::Tidy { .. } => 7,
        SaveState::Failed { .. } => 8,
    }
}

/// The config that is in place is replaced only by one that is whole: by the
/// time of the move the temporary file has been created, written and flushed,
/// each with success.
pub proof fn law_only_a_whole_config_is_moved_into_place(
    states: Seq<SaveState>,
    paths: SavePaths,
    outcomes: Seq<Result<(), String>>,
    n: int,
)
    requires
        is_save(states, paths, outcomes),
        0 <= n < states.len(),
        states[n] is Move,
    ensures
        n >= 4,
        states[n - 1] is Flush && outcomes[n - 1] is Ok,
        states[n - 2] is Write && outcomes[n - 2] is Ok,
        states[n - 3] is Create && outcomes[n - 3] is Ok,
        states[n - 4] is Serialise && outcomes[n - 4] is Ok,
{
    assert(save_next(states[n - 1], paths, outcomes[n - 1], states[n]));
    assert(save_next(states[n - 2], paths, outcomes[n - 2], states[n - 1]));
    assert(save_next(states[n - 3], paths, outcomes[n - 3], states[n - 2]));
    assert(save_next(states[n - 4], paths, outcomes[n - 4], states[n - 3]));
}

/// A config that could not be put in place leaves no temporary file behind: once
/// one may exist, a failure is reported only after its removal.
pub proof fn law_a_failed_save_tidies_up(
    states: Seq<SaveState>,
    paths: SavePaths,
    outcomes: Seq<Result<(), String>>,
    n: int,
    m: int,
)
    requires
        is_save(states, paths, outcomes),
        0 <= n < m < states.len(),
        states[n] is Create,
        states[m] is Failed,
    ensures
        exists|k: int| n < k < m && #[trigger] states[k] is Tidy,
    decreases m - n,
{
    assert(save_next(states[m - 1], paths, outcomes[m - 1], states[m]));
    if states[m - 1] is Failed {
        law_a_failed_save_tidies_up(states, paths, outcomes, n, m - 1);
        let k = choose|k: int| n < k < m - 1 && #[trigger] states[k] is Tidy;
        assert(n < k < m && states[k] is Tidy);
    } else if states[m - 1] is MakeDirectory {
        lemma_steps_go_forward(states, paths, outcomes, n, m - 1);
    } else {
        assert(states[m - 1] is Tidy);
    }
}

// Writing a config never goes back a step.
proof fn lemma_steps_go_forward(
    states: Seq<SaveState>,
    paths: SavePaths,
    outcomes: Seq<Result<(), String>>,
    n: int,
    m: int,
)
    requires
        is_save(states, paths, outcomes),
        0 <= n <= m < states.len(),
    ensures
        step_number(states[n]) <= step_number(states[m]),
    decreases m - n,
{
    if n < m {
        lemma_steps_go_forward(states, paths, outcomes, n, m - 1);
        assert(save_next(states[m - 1], paths, outcomes[m - 1], states[m]));
    }
}

/// A step that succeeds leads to the next: the directory, the text, the temporary file,
/// its content, the flush, the move, and then the config is in place.
pub proof fn law_a_save_goes_step_by_step(state: SaveState, paths: SavePaths, next: SaveState)
    requires
        save_next(state, paths, Ok(()), next),
    ensures
        state is MakeDirectory ==> next is Serialise,
        state is Serialise ==> next is Create,
        state is Create ==> next is Write,
        state is Write ==> next is Flush,
        state is Flush ==> next is Move,
        state is Move <==> next is Done && !(state is Done),
        state is Done ==> next is Done,
{
}

/// A step that fails is named, with the file that it was about and its cause. Where no
/// file was put beside the config yet, that is the end; otherwise that file is removed
/// first.
pub proof fn law_a_save_names_the_step_that_failed(
    state: SaveState,
    paths: SavePaths,
    cause: String,
    next: SaveState,
)
    requires
        save_next(state, paths, Err(cause), next),
    ensures
        state is MakeDirectory && paths.directory is Some ==> (next matches SaveState::Failed {
            error,
        } && chain(error) == seq!["creating "@ + paths.directory->0@, cause@]),
        state is Serialise ==> (next matches SaveState::Tidy { error } && chain(error)
            == seq![cause@]),
        state is Create ==> (next matches SaveState::Tidy { error } && chain(error) == seq![
            "creating "@ + paths.temporary@,
            cause@,
        ]),
        state is Write ==> (next matches SaveState::Tidy { error } && chain(error) == seq![
            "writing "@ + paths.temporary@,
            cause@,
        ]),
        state is Flush ==> (next matches SaveState::Tidy { error } && chain(error) == seq![
            "flushing "@ + paths.temporary@ + " to disk"@,
            cause@,
        ]),
        state is Move ==> (next matches SaveState::Tidy { error } && chain(error) == seq![
            "moving "@ + paths.temporary@ + " into place as "@ + paths.config@,
            cause@,
        ]),
        state matches SaveState::Tidy { error } ==> next == (SaveState::Failed { error }),
        state matches SaveState::Failed { error } ==> next == (SaveState::Failed { error }),
{
}

/// A save is done only once the move succeeded, and fails only once a step did.
pub proof fn law_a_save_ends_as_its_steps_did(
    states: Seq<SaveState>,
    paths: SavePaths,
    outcomes: Seq<Result<(), String>>,
    n: int,
)
    requires
        is_save(states, paths, outcomes),
        0 <= n < states.len(),
    ensures
        states[n] is Done ==> exists|k: int|
            0 <= k < n && #[trigger] states[k] is Move && outcomes[k] is Ok,
        states[n] is Tidy || states[n] is Failed ==> exists|k: int|
            0 <= k < n && step_number(#[trigger] states[k]) < 6 && outcomes[k] is Err,
    decreases n,
{
    if n > 0 {
        law_a_save_ends_as_its_steps_did(states, paths, outcomes, n - 1);
        assert(save_next(states[n - 1], paths, outcomes[n - 1], states[n]));
        if states[n] is Done && !(states[n - 1] is Done) {
            assert(states[n - 1] is Move && outcomes[n - 1] is Ok);
        }
        if (states[n] is Tidy || states[n] is Failed) && !(states[n - 1] is Tidy || states[n
            - 1] is Failed) {
            assert(step_number(states[n - 1]) < 6 && outcomes[n - 1] is Err);
        }
    }
}

/// Two processes that save at once write to different temporary files.
pub proof fn law_temporary_files_are_apart(a: u32, b: u32)
    ensures
        temporary_text(a) == temporary_text(b) <==> a == b,
        temporary_text(a).len() > 4 && temporary_text(a)[0] == '.' && temporary_text(a).skip(
            temporary_text(a).len() - 4,
        ) == ".tmp"@,
{
    reveal_strlit(".");
    reveal_strlit(".tmp");
    lemma_decimal_reads_back(a as nat);
    lemma_decimal_reads_back(b as nat);
    let (s, t) = (temporary_text(a), temporary_text(b));
    assert(s.subrange(1, s.len() - 4) =~= decimal(a as nat));
    assert(t.subrange(1, t.len() - 4) =~= decimal(b as nat));
    assert(s.skip(s.len() - 4) =~= ".tmp"@);
}

impl Config {
    /// The name of an output is that of a target which stands for it, the first in name
    /// order where there are several; an output has no name exactly if no target stands
    /// for it.
    pub proof fn law_a_name_stands_for_its_output(self, key: (Seq<char>, u32), other: Seq<char>)
        requires
            self.targets.wf(),
        ensures
            self.name_of(key) matches Some(name) ==> {
                &&& self.targets@.dom().contains(name)
                &&& self.targets@[name].key@ == key
                &&& self.targets@.dom().contains(other) && self.targets@[other].key@ == key
                    ==> other == name || before(name, other)
            },
            self.name_of(key) is None ==> !(self.targets@.dom().contains(other)
                && self.targets@[other].key@ == key),
    {
        self.lemma_name_of(key);
        if let Some(name) = self.name_of(key) {
            assert(is_first_name(self.targets@, key, name));
        }
    }

    /// A config that says nothing has no targets, no profiles, no hotkeys and no pair of
    /// profiles to switch between.
    pub proof fn law_a_blank_config_says_nothing(self, name: Seq<char>)
        requires
            self.is_blank(),
        ensures
            !self.targets@.dom().contains(name),
            !self.profiles@.dom().contains(name),
            !self.hotkeys@.dom().contains(name),
            self.switch is None,
    {
    }
}

/// What is said of a missing config names where it was looked for, what is there
/// instead, where the directory has a name, and where the place comes from.
pub proof fn law_a_missing_config_is_explained(path: Seq<char>, around: Surroundings)
    ensures
        ({
            let text = missing_text(path, around);
            let (head, tail) = ("no config at "@ + path, around.variable_line()
                + "\n  Run `monitor-switcher save-profile <name>` to create one, or pass --config <path> to use one elsewhere."@);
            let named = around.directory is Some && around.directory->0.name@.len() > 0;
            &&& text.take(head.len() as int) == head
            &&& text.skip(text.len() - tail.len()) == tail
            &&& !named ==> text == head + tail
            &&& named ==> text == head + ("\n  the directory "@ + around.directory->0.name@ + " "@
                + around.directory->0.state.text()) + tail
        }),
        around.local_app_data matches Some(v) ==> around.variable_line()
            == "\n  LOCALAPPDATA for this process is "@ + v@,
        around.local_app_data is None ==> around.variable_line()
            == "\n  LOCALAPPDATA is not set for this process"@,
{
    let text = missing_text(path, around);
    let head = "no config at "@ + path;
    let tail = around.variable_line()
        + "\n  Run `monitor-switcher save-profile <name>` to create one, or pass --config <path> to use one elsewhere."@;
    assert(text =~= head + around.directory_line() + tail);
    assert(text.take(head.len() as int) =~= head);
    assert(text.skip(text.len() - tail.len()) =~= tail);
    assert(head + Seq::<char>::empty() + tail =~= head + tail);
}

/// The state of a directory is told apart: missing, unreadable and why, empty, or with
/// what it holds.
pub proof fn law_a_directory_is_described(names: Vec<String>, why: String)
    ensures
        DirectoryState::Missing.text() == "does not exist"@,
        (DirectoryState::Unreadable { why }).text() == "cannot be read: "@ + why@,
        names@.len() == 0 ==> (DirectoryState::Holds { names }).text() == "exists but is empty"@,
        names@.len() > 0 ==> (DirectoryState::Holds { names }).text() == "exists and contains: "@
            + join(texts(names@), ", "@),
{
}

/// A config that is there is the one that is used, by every command. Where there is none,
/// commands that need one fail with an explanation and the others start from a blank one.
/// One that cannot be read is an error for all of them, with the file and the cause.
pub proof fn law_only_a_missing_config_is_done_without(
    path: &str,
    found: Reading,
    around: &Surroundings,
    needed: Result<Config, Error>,
    optional: Result<Config, Error>,
    tried: Result<Option<Config>, Error>,
)
    requires
        call_ensures(Config::load, (path, found, around), needed),
        call_ensures(Config::load_or_default, (path, found), optional),
        call_ensures(read, (path, found), tried),
    ensures
        found matches Reading::Parsed { config } ==> needed == Ok::<Config, Error>(config)
            && optional == needed && tried == Ok::<Option<Config>, Error>(Some(config)),
        found is NotFound ==> (needed matches Err(e) && chain(e) == seq![
            missing_text(path@, *around),
        ]) && (optional matches Ok(config) && config.is_blank()) && tried == Ok::<
            Option<Config>,
            Error,
        >(None),
        found matches Reading::Unparsable { why } ==> (needed matches Err(e) && chain(e) == seq![
            "parsing config at "@ + path@,
            why@,
        ]) && (optional matches Err(e) && chain(e) == seq!["parsing config at "@ + path@, why@])
            && tried is Err,
        found matches Reading::Failed { why } ==> (needed matches Err(e) && chain(e) == seq![
            "reading config at "@ + path@,
            why@,
        ]) && (optional matches Err(e) && chain(e) == seq!["reading config at "@ + path@, why@])
            && tried is Err,
{
}

/// The pair to switch between is the configured one, in its order, exactly where two
/// profiles are given for it.
pub proof fn law_a_switch_pair_is_two_profiles(config: &Config, r: Result<(String, String), Error>)
    requires
        call_ensures(Config::switch_pair, (config,), r),
    ensures
        r is Ok <==> (config.switch matches Some(pair) && pair@.len() == 2),
        r matches Ok(names) ==> (config.switch matches Some(pair) && names.0 == pair@[0]
            && names.1 == pair@[1]),
        config.switch is None ==> r == Err::<(String, String), Error>(Error::NoSwitchPair),
{
}

/// A save starts with the directory, where there is one to make, and the laws on saving
/// are about the steps that it takes.
pub proof fn law_a_save_goes_by_its_steps(
    paths: &SavePaths,
    state: SaveState,
    outcome: Result<(), String>,
    first: SaveState,
    next: SaveState,
)
    ensures
        call_ensures(Config::save, (paths,), first) ==> (first is MakeDirectory
            <==> paths.directory is Some) && (first is Serialise <==> paths.directory is None),
        call_ensures(save_step, (state, paths, outcome), next) ==> save_next(
            state,
            *paths,
            outcome,
            next,
        ),
{
}

/// The laws on names and on what is said of a missing config are about what the functions
/// here return.
pub proof fn law_a_config_is_read_as_stated(
    config: &Config,
    key: &TargetKey,
    path: &str,
    around: &Surroundings,
    place: Result<String, String>,
    pid: u32,
)
    ensures
        forall|r: Option<&str>|
            call_ensures(Config::name_for, (config, key), r) ==> match r {
                Some(name) => config.name_of(key@) == Some(name@),
                None => config.name_of(key@) is None,
            },
        forall|r: String|
            call_ensures(missing_config_message, (path, around), r) ==> r@ == missing_text(
                path@,
                *around,
            ),
        forall|r: Result<Vec<String>, Error>|
            call_ensures(Config::default_path, (place,), r) ==> match r {
                Ok(parts) => place matches Ok(base) && texts(parts@) == seq![
                    base@,
                    "monitor-switcher"@,
                    "config.json"@,
                ],
                Err(e) => place matches Err(why) && chain(e) == seq![
                    "LOCALAPPDATA is not set; pass --config with an explicit path"@,
                    why@,
                ],
            },
        forall|r: String| call_ensures(temporary_suffix, (pid,), r) ==> r@ == temporary_text(pid),
        forall|r: u8| call_ensures(default_hdmi_port, (), r) ==> r == 1,
        forall|r: bool| call_ensures(yes, (), r) ==> r,
{
}

} // verus!
