//! The notification-area icon, its menu, and the hotkeys: the daemon's whole user
//! interface and its whole reason to exist.
//!
//! There is no window and no console: the icon is the only sign that the daemon is
//! running, and the menu is the only way to talk to it. Windows, its messages and
//! the threads that actions run on are the caller's. This module holds what the
//! daemon knows, and decides what it does next.

use vstd::prelude::*;

use crate::config::Config;
use crate::display::ccd::{encode_utf16, encoded};
use crate::error::{cause_lines, caused_by, causes, chain, Error};
use crate::hotkey::{
    complaints_for, is_plan, law_every_hotkey_is_ready_or_explained, plan, planned, Action, Plan,
};
use crate::icon::Status;
use crate::text::{cat2, cat3, cat4, cat5, decimal, decimal_text, same_text, texts};
use crate::winerr::{describe_answer, Answer};

verus! {

/// The room that Windows has for what the icon says, short of the terminator.
pub const TIP_UNITS: usize = 127;

/// What the daemon knows.
#[derive(Debug)]
pub struct State {
    /// The config file, as it is shown to people.
    pub config: String,
    /// The hotkeys that are registered. Each goes by its place here.
    pub actions: Vec<Action>,
    /// Hotkeys that could not be used, and why. Shown in the menu, because a key
    /// that silently does nothing is the failure that this daemon exists to avoid.
    pub problems: Vec<String>,
    pub status: Status,
    /// The profile currently on screen, for the menu. Changes made elsewhere count
    /// as well.
    pub active: Option<String>,
}

// ---------------------------------------------------------------------------
// What the icon says
// ---------------------------------------------------------------------------

impl State {
    /// What is on screen, in words.
    pub open spec fn place_text(self) -> Seq<char> {
        match self.active {
            Some(name) => "on "@ + name@,
            None => "on an unnamed arrangement"@,
        }
    }

    /// What is wrong, in a few words.
    pub open spec fn summary(self) -> Seq<char> {
        if self.problems@.len() == 0 {
            "last action failed"@
        } else if self.problems@.len() == 1 {
            "1 hotkey unavailable"@
        } else {
            decimal(self.problems@.len()) + " hotkeys unavailable"@
        }
    }

    /// What the icon says when it is pointed at.
    pub open spec fn tip(self) -> Seq<char> {
        match self.status {
            Status::Working => "monitor-switcher — working, "@ + self.place_text(),
            Status::Problem => "monitor-switcher — "@ + self.summary() + ", "@ + self.place_text(),
            Status::Ready => "monitor-switcher — "@ + self.place_text(),
        }
    }

    /// What is wrong, in a few words.
    pub fn problem_summary(&self) -> (r: String)
        ensures
            r@ == self.summary(),
    {
        if self.problems.len() == 0 {
            "last action failed".to_owned()
        } else if self.problems.len() == 1 {
            "1 hotkey unavailable".to_owned()
        } else {
            let number = decimal_text(self.problems.len() as u128);
            cat2(number.as_str(), " hotkeys unavailable")
        }
    }

    /// What the icon says when it is pointed at.
    pub fn tooltip(&self) -> (r: String)
        ensures
            r@ == self.tip(),
    {
        let place = match &self.active {
            Some(name) => cat2("on ", name.as_str()),
            None => "on an unnamed arrangement".to_owned(),
        };
        match self.status {
            Status::Working => cat2("monitor-switcher — working, ", place.as_str()),
            Status::Problem => {
                let what = self.problem_summary();
                cat4("monitor-switcher — ", what.as_str(), ", ", place.as_str())
            },
            Status::Ready => cat2("monitor-switcher — ", place.as_str()),
        }
    }

    /// What the icon says, in the form and length that Windows takes.
    pub fn wide_tip(&self) -> (r: Vec<u16>)
        ensures
            r@ == if encoded(self.tip()).len() <= TIP_UNITS {
                encoded(self.tip())
            } else {
                encoded(self.tip()).take(TIP_UNITS as int)
            },
    {
        let text = self.tooltip();
        let mut units = encode_utf16(text.as_str());
        units.truncate(TIP_UNITS);
        units
    }

    /// The status that is shown: a daemon with a hotkey that never registered is
    /// never simply ready. That is a standing condition, not the outcome of the
    /// last action.
    pub open spec fn shown_status(self, status: Status) -> Status {
        if status == Status::Ready && self.problems@.len() > 0 {
            Status::Problem
        } else {
            status
        }
    }

    /// Take on a status. Whether the icon has to be drawn again is returned.
    pub fn set_status(&mut self, status: Status) -> (redraw: bool)
        ensures
            final(self).status == old(self).shown_status(status),
            redraw == (old(self).status != final(self).status),
            final(self).config == old(self).config,
            final(self).actions == old(self).actions,
            final(self).problems == old(self).problems,
            final(self).active == old(self).active,
    {
        let shown = if status == Status::Ready && self.problems.len() > 0 {
            Status::Problem
        } else {
            status
        };
        if self.status == shown {
            return false;
        }
        self.status = shown;
        true
    }
}

// ---------------------------------------------------------------------------
// Starting
// ---------------------------------------------------------------------------

/// What is said of a hotkey that is in use.
pub open spec fn runs_text(action: Action) -> Seq<char> {
    action.binding.description() + " runs \""@ + action.command@ + "\""@
}

/// What is said of some hotkeys that are in use.
pub open spec fn runs_texts(actions: Seq<Action>) -> Seq<Seq<char>> {
    actions.map_values(|a: Action| runs_text(a))
}

/// What is said of some hotkeys that are not.
pub open spec fn problem_texts(problems: Seq<String>) -> Seq<Seq<char>> {
    problems.map_values(|p: String| "hotkey problem: "@ + p@)
}

/// The lines on hotkeys that are in use.
pub fn runs_lines(actions: &[Action]) -> (r: Vec<String>)
    ensures
        texts(r@) == runs_texts(actions@),
{
    let mut lines: Vec<String> = Vec::new();
    let ghost expected = runs_texts(actions@);
    assert(texts(lines@) =~= expected.take(0));
    for i in 0..actions.len()
        invariant
            expected == runs_texts(actions@),
            texts(lines@) == expected.take(i as int),
    {
        let keys = actions[i].binding.describe();
        let line = cat4(keys.as_str(), " runs \"", actions[i].command.as_str(), "\"");
        let ghost before = lines@;
        lines.push(line);
        assert(texts(lines@) =~= texts(before).push(line@));
        assert(expected.take(i + 1) =~= expected.take(i as int).push(expected[i as int]));
    }
    assert(expected.take(actions@.len() as int) =~= expected);
    lines
}

/// The lines on hotkeys that are not in use.
pub fn problem_lines(problems: &[String]) -> (r: Vec<String>)
    ensures
        texts(r@) == problem_texts(problems@),
{
    let mut lines: Vec<String> = Vec::new();
    let ghost expected = problem_texts(problems@);
    assert(texts(lines@) =~= expected.take(0));
    for i in 0..problems.len()
        invariant
            expected == problem_texts(problems@),
            texts(lines@) == expected.take(i as int),
    {
        let line = cat2("hotkey problem: ", problems[i].as_str());
        let ghost before = lines@;
        lines.push(line);
        assert(texts(lines@) =~= texts(before).push(line@));
        assert(expected.take(i + 1) =~= expected.take(i as int).push(expected[i as int]));
    }
    assert(expected.take(problems@.len() as int) =~= expected);
    lines
}

/// What is said where there is nothing for the daemon to do.
pub open spec fn idle_text(path: Seq<char>) -> Seq<char> {
    "no hotkeys are configured, so the daemon would do nothing.\n  Add a \"hotkeys\" block to "@
        + path + ", for example:\n  \"hotkeys\": { \"ctrl+shift+d\": \"switch\" }"@
}

/// Whether the daemon can start, and with which hotkeys, given its config. A
/// config without hotkeys leaves it nothing to do.
pub fn start(path: &str, loaded: Result<Config, Error>, cec: bool) -> (r: Result<Plan, Error>)
    ensures
        match loaded {
            Err(error) => r matches Err(e) && e matches Error::Nested { doing, inner } && doing@
                == "the daemon needs a config at "@ + path@ && *inner == error,
            Ok(config) => if config.hotkeys.names().len() == 0 {
                r matches Err(e) && chain(e) == seq![idle_text(path@)]
            } else {
                r matches Ok(p) && is_plan(
                    p,
                    config.hotkeys,
                    planned(
                        config.hotkeys,
                        complaints_for(config.hotkeys, cec),
                        config.hotkeys.names().len(),
                    ),
                )
            },
        },
{
    let config = match loaded {
        Ok(config) => config,
        Err(error) => {
            let doing = cat2("the daemon needs a config at ", path);
            return Err(Error::Nested { doing, inner: Box::new(error) });
        },
    };
    let p = plan(&config.hotkeys, cec);
    proof {
        law_every_hotkey_is_ready_or_explained(
            config.hotkeys,
            complaints_for(config.hotkeys, cec),
            config.hotkeys.names().len(),
        );
    }
    assert(texts(p.problems@).len() == p.problems@.len());
    if p.ready.len() == 0 && p.problems.len() == 0 {
        return Err(
            Error::Plain {
                why: cat3(
                    "no hotkeys are configured, so the daemon would do nothing.\n  Add a \"hotkeys\" block to ",
                    path,
                    ", for example:\n  \"hotkeys\": { \"ctrl+shift+d\": \"switch\" }",
                ),
            },
        );
    }
    Ok(p)
}

/// What the daemon is told on its command line.
pub enum DaemonArgs {
    Config { path: Seq<char> },
    Usual,
    NoPath,
    Other { word: Seq<char> },
}

/// What the daemon is told on its command line, without the program's name. It
/// takes one option, and nothing behind that counts.
pub open spec fn daemon_args(args: Seq<Seq<char>>) -> DaemonArgs {
    if args.len() == 0 {
        DaemonArgs::Usual
    } else if args[0] != "--config"@ {
        DaemonArgs::Other { word: args[0] }
    } else if args.len() == 1 {
        DaemonArgs::NoPath
    } else {
        DaemonArgs::Config { path: args[1] }
    }
}

/// The config file that the daemon's command line names, if it names one.
pub fn config_path(args: &[String]) -> (r: Result<Option<String>, Error>)
    ensures
        match daemon_args(texts(args@)) {
            DaemonArgs::Config { path } => r matches Ok(Some(p)) && p@ == path,
            DaemonArgs::Usual => r matches Ok(p) && p is None,
            DaemonArgs::NoPath => r matches Err(e) && chain(e) == seq![
                "--config needs a path after it"@,
            ],
            DaemonArgs::Other { word } => r matches Err(e) && chain(e) == seq![
                "monitor-switcher-tray takes only --config <path>, not \""@ + word
                    + "\".\nIt runs the hotkeys from the config; the commands themselves are monitor-switcher's."@,
            ],
        },
{
    if args.len() == 0 {
        return Ok(None);
    }
    assert(texts(args@)[0] == args@[0]@);
    if !same_text(args[0].as_str(), "--config") {
        return Err(
            Error::Plain {
                why: cat3(
                    "monitor-switcher-tray takes only --config <path>, not \"",
                    args[0].as_str(),
                    "\".\nIt runs the hotkeys from the config; the commands themselves are monitor-switcher's.",
                ),
            },
        );
    }
    if args.len() == 1 {
        return Err(Error::Plain { why: "--config needs a path after it".to_owned() });
    }
    assert(texts(args@)[1] == args@[1]@);
    Ok(Some(args[1].clone()))
}

/// What a failure to start is reported as, which a windowless program can only do
/// in a message box.
pub open spec fn failure_text(parts: Seq<Seq<char>>) -> Seq<char>
    decreases parts.len(),
{
    if parts.len() == 0 {
        Seq::empty()
    } else if parts.len() == 1 {
        parts[0]
    } else {
        failure_text(parts.drop_last()) + "\n\ncaused by: "@ + parts.last()
    }
}

/// What a failure to start is reported as.
pub fn failure(e: &Error) -> (r: String)
    ensures
        r@ == failure_text(chain(*e)),
{
    let parts = causes(e);
    let ghost all = texts(parts@);
    let mut out = parts[0].clone();
    assert(out@ =~= failure_text(all.take(1))) by {
        assert(all.take(1)[0] == parts@[0]@);
    }
    for i in 1..parts.len()
        invariant
            all == texts(parts@),
            out@ == failure_text(all.take(i as int)),
    {
        assert(all.take(i + 1).drop_last() =~= all.take(i as int));
        assert(all.take(i + 1).last() == parts@[i as int]@);
        out.append("\n\ncaused by: ");
        out.append(parts[i].as_str());
    }
    assert(all.take(parts@.len() as int) =~= all);
    out
}

/// What is said where a daemon is running already. Two would both try to register
/// the same hotkeys, and the second would be the one that failed.
pub fn already_running() -> (e: Error)
    ensures
        chain(e) == seq![
            "monitor-switcher-tray is already running.\n  Its icon is in the notification area; use Exit there before starting another."@,
        ],
{
    Error::Plain {
        why: "monitor-switcher-tray is already running.\n  Its icon is in the notification area; use Exit there before starting another.".to_owned(),
    }
}

// ---------------------------------------------------------------------------
// Registering hotkeys
// ---------------------------------------------------------------------------

/// The hotkeys that are in use after another one was tried.
pub open spec fn with_outcome(actions: Seq<Action>, action: Action, took: bool) -> Seq<Action> {
    if took {
        actions.push(action)
    } else {
        actions
    }
}

/// What is said of a hotkey that Windows would not register. Nearly always another
/// program has the combination already.
pub open spec fn refused_text(action: Action, answer: Answer) -> Seq<char> {
    action.spec@ + ": Windows would not register it ("@ + answer.described()
        + "). Another program probably has it."@
}

impl State {
    /// Take the hotkeys that are planned, to register them one by one.
    pub fn take_planned(&mut self) -> (r: Vec<Action>)
        ensures
            r == old(self).actions,
            final(self).actions@ == Seq::<Action>::empty(),
            final(self).config == old(self).config,
            final(self).problems == old(self).problems,
            final(self).status == old(self).status,
            final(self).active == old(self).active,
    {
        let mut planned: Vec<Action> = Vec::new();
        std::mem::swap(&mut planned, &mut self.actions);
        planned
    }

    /// The id under which the next hotkey is to be registered: the place that it
    /// will have.
    pub fn next_id(&self) -> (id: usize)
        ensures
            id == self.actions@.len(),
    {
        self.actions.len()
    }

    /// Take what came of registering a hotkey: nothing to say where it took, or
    /// else Windows' answer.
    ///
    /// Only those that take are kept, and the id of each is the place at which it
    /// ends up. Dropping a refused one afterwards would shift every later one away
    /// from the id that it was registered under.
    pub fn registered(&mut self, action: Action, refused: Option<&Answer>)
        ensures
            final(self).actions@ == with_outcome(old(self).actions@, action, refused is None),
            match refused {
                None => final(self).problems@ == old(self).problems@,
                Some(answer) => texts(final(self).problems@) == texts(old(self).problems@).push(
                    refused_text(action, *answer),
                ),
            },
            final(self).config == old(self).config,
            final(self).status == old(self).status,
            final(self).active == old(self).active,
    {
        match refused {
            None => {
                self.actions.push(action);
            },
            Some(answer) => {
                let why = describe_answer(answer);
                let problem = cat4(
                    action.spec.as_str(),
                    ": Windows would not register it (",
                    why.as_str(),
                    "). Another program probably has it.",
                );
                let ghost before = self.problems@;
                self.problems.push(problem);
                assert(texts(self.problems@) =~= texts(before).push(problem@));
            },
        }
    }
}

/// The hotkeys that are in use once the first so many planned ones were tried,
/// given which of them took.
pub open spec fn kept(planned: Seq<Action>, took: Seq<bool>, n: nat) -> Seq<Action>
    decreases n,
{
    if n == 0 {
        Seq::empty()
    } else {
        with_outcome(kept(planned, took, (n - 1) as nat), planned[n - 1], took[n - 1])
    }
}

/// A hotkey's id is its place: whichever hotkeys Windows refuses, one that took is
/// found under the id that it was registered under.
pub proof fn law_a_hotkeys_id_is_its_place(
    planned: Seq<Action>,
    took: Seq<bool>,
    k: int,
    n: nat,
)
    requires
        0 <= k < n,
        took[k],
    ensures
        ({
            let id = kept(planned, took, k as nat).len() as int;
            &&& id < kept(planned, took, n).len()
            &&& kept(planned, took, n)[id] == planned[k]
        }),
    decreases n,
{
    if k < n - 1 {
        law_a_hotkeys_id_is_its_place(planned, took, k, (n - 1) as nat);
    }
}

impl State {
    /// Settle the status once the hotkeys are registered for the first time.
    pub fn started(&mut self)
        ensures
            final(self).status == if old(self).problems@.len() > 0 {
                Status::Problem
            } else {
                old(self).status
            },
            final(self).config == old(self).config,
            final(self).actions == old(self).actions,
            final(self).problems == old(self).problems,
            final(self).active == old(self).active,
    {
        if self.problems.len() > 0 {
            self.status = Status::Problem;
        }
    }
}

// ---------------------------------------------------------------------------
// Reloading
// ---------------------------------------------------------------------------

/// What is said where no hotkey of a config is usable.
pub open spec fn unusable_lines(problems: Seq<Seq<char>>) -> Seq<Seq<char>> {
    seq!["reload found no usable hotkey, keeping the ones already registered:"@]
        + problems.map_values(|p: Seq<char>| "  "@ + p)
}

/// What to do about a config that was read again: new hotkeys to register in place
/// of those that are, or what to say about keeping those.
///
/// A config that no longer parses, or one whose hotkeys are all unusable, leaves
/// the running set alone: losing working hotkeys to a half-finished edit would be
/// worse than ignoring the edit. A config that deliberately has no hotkeys left is
/// a different thing and is honoured.
pub fn reload(loaded: Result<Config, Error>, cec: bool) -> (r: Result<Plan, Vec<String>>)
    ensures
        match loaded {
            Err(error) => r matches Err(lines) && texts(lines@) == seq![
                "reload failed, keeping the hotkeys already registered: "@ + error.text(),
            ],
            Ok(config) => {
                let p = planned(
                    config.hotkeys,
                    complaints_for(config.hotkeys, cec),
                    config.hotkeys.names().len(),
                );
                if p.ready.len() == 0 && p.problems.len() > 0 {
                    r matches Err(lines) && texts(lines@) == unusable_lines(p.problems)
                } else {
                    r matches Ok(new) && is_plan(new, config.hotkeys, p)
                }
            },
        },
{
    let config = match loaded {
        Ok(config) => config,
        Err(error) => {
            let why = error.message();
            let mut lines: Vec<String> = Vec::new();
            lines.push(
                cat2("reload failed, keeping the hotkeys already registered: ", why.as_str()),
            );
            assert(texts(lines@) =~= seq![
                "reload failed, keeping the hotkeys already registered: "@ + error.text(),
            ]);
            return Err(lines);
        },
    };
    let new = plan(&config.hotkeys, cec);
    let ghost p = planned(
        config.hotkeys,
        complaints_for(config.hotkeys, cec),
        config.hotkeys.names().len(),
    );
    assert(texts(new.problems@).len() == new.problems@.len());
    if new.ready.len() == 0 && new.problems.len() > 0 {
        let mut lines: Vec<String> = Vec::new();
        lines.push(
            "reload found no usable hotkey, keeping the ones already registered:".to_owned(),
        );
        let ghost expected = unusable_lines(p.problems);
        assert(texts(lines@) =~= expected.take(1));
        for i in 0..new.problems.len()
            invariant
                texts(new.problems@) == p.problems,
                expected == unusable_lines(p.problems),
                texts(lines@) == expected.take(i + 1),
        {
            let line = cat2("  ", new.problems[i].as_str());
            let ghost before = lines@;
            lines.push(line);
            assert(texts(lines@) =~= texts(before).push(line@));
            assert(p.problems[i as int] == new.problems@[i as int]@);
            assert(expected.take(i + 2) =~= expected.take(i + 1).push(expected[i + 1]));
        }
        assert(expected.take(new.problems@.len() as int + 1) =~= expected);
        return Err(lines);
    }
    Ok(new)
}

/// What is said of hotkeys that were loaded again.
pub open spec fn reloaded_texts(state: State) -> Seq<Seq<char>> {
    problem_texts(state.problems@) + runs_texts(state.actions@) + (if state.actions@.len() == 0 {
        seq!["no hotkeys are configured now; the daemon is idle until you add one"@]
    } else {
        Seq::empty()
    }) + seq!["config reloaded"@]
}

impl State {
    /// Take on new hotkeys, which are to be registered one by one.
    pub fn replan(&mut self, new: Plan) -> (r: Vec<Action>)
        ensures
            r == new.ready,
            final(self).actions@ == Seq::<Action>::empty(),
            final(self).problems == new.problems,
            final(self).config == old(self).config,
            final(self).status == old(self).status,
            final(self).active == old(self).active,
    {
        self.actions = Vec::new();
        self.problems = new.problems;
        new.ready
    }

    /// Settle the status once new hotkeys are registered, with what is on screen
    /// now, and say what came of it. The icon is to be drawn again in any case: a
    /// different count of problems is something to show.
    pub fn reloaded(&mut self, active: Option<String>) -> (r: Vec<String>)
        ensures
            texts(r@) == reloaded_texts(*old(self)),
            final(self).status == if old(self).problems@.len() == 0 {
                Status::Ready
            } else {
                Status::Problem
            },
            final(self).active == active,
            final(self).config == old(self).config,
            final(self).actions == old(self).actions,
            final(self).problems == old(self).problems,
    {
        let mut lines = problem_lines(self.problems.as_slice());
        let ghost first = texts(lines@);
        let mut more = runs_lines(self.actions.as_slice());
        let ghost second = texts(more@);
        lines.append(&mut more);
        assert(texts(lines@) =~= first + second);
        if self.actions.len() == 0 {
            lines.push(
                "no hotkeys are configured now; the daemon is idle until you add one".to_owned(),
            );
        }
        lines.push("config reloaded".to_owned());
        assert(texts(lines@) =~= reloaded_texts(*self));
        self.active = active;
        self.status = if self.problems.len() == 0 {
            Status::Ready
        } else {
            Status::Problem
        };
        lines
    }
}

// ---------------------------------------------------------------------------
// Messages
// ---------------------------------------------------------------------------

pub const WM_CREATE: u32 = 0x0001;

pub const WM_DESTROY: u32 = 0x0002;

pub const WM_CLOSE: u32 = 0x0010;

pub const WM_QUERYENDSESSION: u32 = 0x0011;

pub const WM_DISPLAYCHANGE: u32 = 0x007E;

pub const WM_LBUTTONUP: u32 = 0x0202;

pub const WM_LBUTTONDBLCLK: u32 = 0x0203;

pub const WM_RBUTTONUP: u32 = 0x0205;

pub const WM_HOTKEY: u32 = 0x0312;

pub const WM_APP: u32 = 0x8000;

/// By which the tray icon reports clicks, with the real mouse message beside it.
pub const WM_TRAY: u32 = WM_APP + 1;

/// By which a worker reports that its action has finished, with 1 beside it on
/// success.
pub const WM_ACTION_DONE: u32 = WM_APP + 2;

/// What a message to the daemon's window means.
#[derive(Debug, Clone, Copy, PartialEq, Eq, Structural)]
pub enum Event {
    /// The window has come up.
    Create,
    /// An action is to run.
    Run { index: usize },
    /// The menu is to be shown.
    Menu,
    /// The action has finished.
    ActionDone { ok: bool },
    /// Someone changed the display setup.
    DisplayChange,
    /// The daemon is to stop.
    Close,
    /// Windows is ending the session.
    EndSession,
    /// The window is going away.
    Destroy,
    /// Explorer restarted and took every tray icon with it.
    TaskbarCreated,
    /// A click that means nothing.
    Ignored,
    /// A message that is not for the daemon.
    Other,
}

/// What a message means: its code, the number beside it, the click it reports if
/// it is the icon's, and the code by which Explorer says that it restarted. A
/// double click does the obvious thing for a switcher, which is the first action.
pub open spec fn meaning(msg: u32, number: usize, click: u32, taskbar_created: u32) -> Event {
    if msg == WM_CREATE {
        Event::Create
    } else if msg == WM_HOTKEY {
        Event::Run { index: number }
    } else if msg == WM_TRAY {
        if click == WM_RBUTTONUP || click == WM_LBUTTONUP {
            Event::Menu
        } else if click == WM_LBUTTONDBLCLK {
            Event::Run { index: 0 }
        } else {
            Event::Ignored
        }
    } else if msg == WM_ACTION_DONE {
        Event::ActionDone { ok: number == 1 }
    } else if msg == WM_DISPLAYCHANGE {
        Event::DisplayChange
    } else if msg == WM_CLOSE {
        Event::Close
    } else if msg == WM_QUERYENDSESSION {
        Event::EndSession
    } else if msg == WM_DESTROY {
        Event::Destroy
    } else if msg == taskbar_created {
        Event::TaskbarCreated
    } else {
        Event::Other
    }
}

/// What a message to the daemon's window means.
pub fn event_of(msg: u32, number: usize, click: u32, taskbar_created: u32) -> (r: Event)
    ensures
        r == meaning(msg, number, click, taskbar_created),
{
    if msg == WM_CREATE {
        Event::Create
    } else if msg == WM_HOTKEY {
        Event::Run { index: number }
    } else if msg == WM_TRAY {
        if click == WM_RBUTTONUP || click == WM_LBUTTONUP {
            Event::Menu
        } else if click == WM_LBUTTONDBLCLK {
            Event::Run { index: 0 }
        } else {
            Event::Ignored
        }
    } else if msg == WM_ACTION_DONE {
        Event::ActionDone { ok: number == 1 }
    } else if msg == WM_DISPLAYCHANGE {
        Event::DisplayChange
    } else if msg == WM_CLOSE {
        Event::Close
    } else if msg == WM_QUERYENDSESSION {
        Event::EndSession
    } else if msg == WM_DESTROY {
        Event::Destroy
    } else if msg == taskbar_created {
        Event::TaskbarCreated
    } else {
        Event::Other
    }
}

/// What a message is answered: nothing of the daemon's own where it is not for the
/// daemon. A session may end.
pub fn reply_to(event: Event) -> (r: Option<isize>)
    ensures
        r == match event {
            Event::Other => None,
            Event::EndSession => Some(1isize),
            _ => Some(0isize),
        },
{
    match event {
        Event::Other => None,
        Event::EndSession => Some(1),
        _ => Some(0),
    }
}

// ---------------------------------------------------------------------------
// Running actions
// ---------------------------------------------------------------------------

/// What to do about an action that is to run.
#[derive(Debug)]
pub enum Dispatch {
    /// There is no such action.
    Nothing,
    /// Another one is still running. A second press while the TV is waking would
    /// otherwise queue up a switch back.
    Ignored { line: String },
    /// It is to run, on a thread of its own.
    Started { words: Vec<String>, label: String, redraw: bool },
}

// Copies of some words.
fn copy_words(words: &Vec<String>) -> (r: Vec<String>)
    ensures
        texts(r@) == texts(words@),
{
    let mut out: Vec<String> = Vec::new();
    assert(texts(out@) =~= texts(words@).take(0));
    for i in 0..words.len()
        invariant
            texts(out@) == texts(words@).take(i as int),
    {
        let ghost before = out@;
        out.push(words[i].clone());
        assert(texts(out@) =~= texts(before).push(words@[i as int]@));
        assert(texts(words@).take(i + 1) =~= texts(words@).take(i as int).push(words@[i as int]@));
    }
    assert(texts(words@).take(words@.len() as int) =~= texts(words@));
    out
}

impl State {
    /// Whether there is an action at a place.
    pub fn has_action(&self, index: usize) -> (r: bool)
        ensures
            r == (index < self.actions@.len()),
    {
        index < self.actions.len()
    }

    /// Run the action at a place, unless another one is running.
    pub fn dispatch(&mut self, index: usize, busy: bool) -> (r: Dispatch)
        ensures
            if index >= old(self).actions@.len() {
                r == Dispatch::Nothing && *final(self) == *old(self)
            } else if busy {
                &&& r matches Dispatch::Ignored { line } && line@ == "\""@ + old(
                    self,
                ).actions@[index as int].command@
                    + "\" ignored: the previous action is still running"@
                &&& *final(self) == *old(self)
            } else {
                &&& r matches Dispatch::Started { words, label, redraw } && {
                    &&& texts(words@) == texts(old(self).actions@[index as int].words@)
                    &&& label@ == old(self).actions@[index as int].command@
                    &&& redraw == (old(self).status != Status::Working)
                }
                &&& final(self).status == Status::Working
                &&& final(self).config == old(self).config
                &&& final(self).actions == old(self).actions
                &&& final(self).problems == old(self).problems
                &&& final(self).active == old(self).active
            },
    {
        if index >= self.actions.len() {
            return Dispatch::Nothing;
        }
        if busy {
            let line = cat3(
                "\"",
                self.actions[index].command.as_str(),
                "\" ignored: the previous action is still running",
            );
            return Dispatch::Ignored { line };
        }
        let words = copy_words(&self.actions[index].words);
        let label = self.actions[index].command.clone();
        let redraw = self.set_status(Status::Working);
        Dispatch::Started { words, label, redraw }
    }

    /// Take it that the action has finished, with what is on screen now. Whether
    /// the icon has to be drawn again is returned.
    pub fn action_done(&mut self, ok: bool, active: Option<String>) -> (redraw: bool)
        ensures
            final(self).status == if ok && old(self).problems@.len() == 0 {
                Status::Ready
            } else {
                Status::Problem
            },
            redraw == (old(self).status != final(self).status),
            final(self).active == active,
            final(self).config == old(self).config,
            final(self).actions == old(self).actions,
            final(self).problems == old(self).problems,
    {
        self.active = active;
        let status = if ok {
            Status::Ready
        } else {
            Status::Problem
        };
        self.set_status(status)
    }
}

/// The line on an action that starts.
pub fn running_line(label: &str) -> (r: String)
    ensures
        r@ == "running \""@ + label@ + "\""@,
{
    cat3("running \"", label, "\"")
}

/// What is said of an action that failed.
pub open spec fn failed_texts(label: Seq<char>, e: Error) -> Seq<Seq<char>> {
    seq!["\""@ + label + "\" failed: "@ + e.text()] + cause_lines(e)
}

/// The lines on an action that failed.
pub fn failed_lines(label: &str, e: &Error) -> (r: Vec<String>)
    ensures
        texts(r@) == failed_texts(label@, *e),
{
    let mut lines: Vec<String> = Vec::new();
    let why = e.message();
    lines.push(cat4("\"", label, "\" failed: ", why.as_str()));
    let ghost head = texts(lines@);
    let mut rest = caused_by(e);
    let ghost tail = texts(rest@);
    lines.append(&mut rest);
    assert(texts(lines@) =~= head + tail);
    assert(texts(lines@) =~= failed_texts(label@, *e));
    lines
}

// ---------------------------------------------------------------------------
// The menu
// ---------------------------------------------------------------------------

pub const ID_CONFIG: usize = 1;

pub const ID_LOG: usize = 2;

pub const ID_RELOAD: usize = 3;

pub const ID_AUTOSTART: usize = 4;

pub const ID_EXIT: usize = 5;

/// Hotkey actions get ids from here upwards, one per action, in menu order.
pub const ID_ACTION: usize = 100;

/// A line of the menu. The id zero stands for a click beside the menu, so no line
/// that can be picked has it.
#[derive(Debug)]
pub enum Item {
    Separator,
    /// A line that says something and cannot be picked.
    Note { text: String },
    /// A line that can be picked.
    Entry { text: String, id: usize, checked: bool },
}

/// A line of the menu.
pub enum ItemView {
    Separator,
    Note { text: Seq<char> },
    Entry { text: Seq<char>, id: int, checked: bool },
}

impl View for Item {
    type V = ItemView;

    open spec fn view(&self) -> ItemView {
        match *self {
            Item::Separator => ItemView::Separator,
            Item::Note { text } => ItemView::Note { text: text@ },
            Item::Entry { text, id, checked } => ItemView::Entry {
                text: text@,
                id: id as int,
                checked,
            },
        }
    }
}

/// What lines of a menu say.
pub open spec fn items_of(items: Seq<Item>) -> Seq<ItemView> {
    items.map_values(|i: Item| i@)
}

/// The line for an action.
pub open spec fn action_item(actions: Seq<Action>, i: int) -> ItemView {
    ItemView::Entry {
        text: actions[i].command@ + "\t"@ + actions[i].binding.description(),
        id: ID_ACTION + i,
        checked: false,
    }
}

/// The lines for the actions.
pub open spec fn action_items(actions: Seq<Action>) -> Seq<ItemView> {
    Seq::new(actions.len(), |i: int| action_item(actions, i))
}

/// The lines for what is wrong with hotkeys.
pub open spec fn problem_items(problems: Seq<String>) -> Seq<ItemView> {
    if problems.len() == 0 {
        Seq::empty()
    } else {
        seq![ItemView::Separator] + problems.map_values(
            |p: String| ItemView::Note { text: p@ },
        )
    }
}

/// The lines that are there in any case.
pub open spec fn fixed_items(autostart: bool) -> Seq<ItemView> {
    seq![
        ItemView::Separator,
        ItemView::Entry { text: "Open config file"@, id: ID_CONFIG as int, checked: false },
        ItemView::Entry { text: "Open log file"@, id: ID_LOG as int, checked: false },
        ItemView::Entry { text: "Reload config"@, id: ID_RELOAD as int, checked: false },
        ItemView::Entry {
            text: "Start automatically at sign-in"@,
            id: ID_AUTOSTART as int,
            checked: autostart,
        },
        ItemView::Separator,
        ItemView::Entry { text: "Exit"@, id: ID_EXIT as int, checked: false },
    ]
}

impl State {
    /// The first line of the menu.
    pub open spec fn header(self) -> Seq<char> {
        match self.active {
            Some(name) => "Active: "@ + name@,
            None => "Active: an unnamed arrangement"@,
        }
    }

    /// The menu.
    pub open spec fn menu_items(self, autostart: bool) -> Seq<ItemView> {
        seq![ItemView::Note { text: self.header() }, ItemView::Separator] + action_items(
            self.actions@,
        ) + problem_items(self.problems@) + fixed_items(autostart)
    }

    /// The menu: what is on screen, the actions, what is wrong with hotkeys, and
    /// what there is to do about the daemon.
    pub fn menu(&self, autostart: bool) -> (r: Vec<Item>)
        requires
            self.actions@.len() <= usize::MAX - ID_ACTION,
        ensures
            items_of(r@) == self.menu_items(autostart),
    {
        let mut items: Vec<Item> = Vec::new();
        let text = match &self.active {
            Some(name) => cat2("Active: ", name.as_str()),
            None => "Active: an unnamed arrangement".to_owned(),
        };
        items.push(Item::Note { text });
        items.push(Item::Separator);
        let ghost top = seq![ItemView::Note { text: self.header() }, ItemView::Separator];
        let ghost acts = action_items(self.actions@);
        assert(items_of(items@) =~= top + acts.take(0));
        for i in 0..self.actions.len()
            invariant
                self.actions@.len() <= usize::MAX - ID_ACTION,
                acts == action_items(self.actions@),
                items_of(items@) == top + acts.take(i as int),
        {
            let keys = self.actions[i].binding.describe();
            let text = cat3(self.actions[i].command.as_str(), "\t", keys.as_str());
            let ghost before = items@;
            let item = Item::Entry { text, id: ID_ACTION + i, checked: false };
            items.push(item);
            assert(items_of(items@) =~= items_of(before).push(item@));
            assert(item@ == acts[i as int]);
            assert(top + acts.take(i + 1) =~= (top + acts.take(i as int)).push(acts[i as int]));
        }
        assert(acts.take(self.actions@.len() as int) =~= acts);
        let ghost upper = top + acts;
        let ghost wrong = problem_items(self.problems@);
        if self.problems.len() > 0 {
            items.push(Item::Separator);
            assert(items_of(items@) =~= upper + wrong.take(1));
            for i in 0..self.problems.len()
                invariant
                    self.problems@.len() > 0,
                    wrong == problem_items(self.problems@),
                    items_of(items@) == upper + wrong.take(i + 1),
            {
                let ghost before = items@;
                let item = Item::Note { text: self.problems[i].clone() };
                items.push(item);
                assert(items_of(items@) =~= items_of(before).push(item@));
                assert(item@ == wrong[i + 1]);
                assert(upper + wrong.take(i + 2) =~= (upper + wrong.take(i + 1)).push(
                    wrong[i + 1],
                ));
            }
            assert(wrong.take(self.problems@.len() as int + 1) =~= wrong);
        }
        assert(items_of(items@) =~= upper + wrong);
        let ghost before = items@;
        items.push(Item::Separator);
        items.push(
            Item::Entry { text: "Open config file".to_owned(), id: ID_CONFIG, checked: false },
        );
        items.push(Item::Entry { text: "Open log file".to_owned(), id: ID_LOG, checked: false });
        items.push(Item::Entry { text: "Reload config".to_owned(), id: ID_RELOAD, checked: false });
        items.push(
            Item::Entry {
                text: "Start automatically at sign-in".to_owned(),
                id: ID_AUTOSTART,
                checked: autostart,
            },
        );
        items.push(Item::Separator);
        items.push(Item::Entry { text: "Exit".to_owned(), id: ID_EXIT, checked: false });
        assert(items_of(items@) =~= items_of(before) + fixed_items(autostart));
        items
    }
}

/// What was picked from the menu.
#[derive(Debug, Clone, Copy, PartialEq, Eq, Structural)]
pub enum Choice {
    Nothing,
    OpenConfig,
    OpenLog,
    Reload,
    Autostart { on: bool },
    Exit,
    Run { index: usize },
}

/// What an id stands for. Picking the line about starting at sign-in turns that
/// round.
pub open spec fn choice(picked: int, autostart: bool) -> Choice {
    if picked == ID_CONFIG {
        Choice::OpenConfig
    } else if picked == ID_LOG {
        Choice::OpenLog
    } else if picked == ID_RELOAD {
        Choice::Reload
    } else if picked == ID_AUTOSTART {
        Choice::Autostart { on: !autostart }
    } else if picked == ID_EXIT {
        Choice::Exit
    } else if picked >= ID_ACTION {
        Choice::Run { index: (picked - ID_ACTION) as usize }
    } else {
        Choice::Nothing
    }
}

/// What was picked from the menu.
pub fn choice_of(picked: usize, autostart: bool) -> (r: Choice)
    ensures
        r == choice(picked as int, autostart),
{
    if picked == ID_CONFIG {
        Choice::OpenConfig
    } else if picked == ID_LOG {
        Choice::OpenLog
    } else if picked == ID_RELOAD {
        Choice::Reload
    } else if picked == ID_AUTOSTART {
        Choice::Autostart { on: !autostart }
    } else if picked == ID_EXIT {
        Choice::Exit
    } else if picked >= ID_ACTION {
        Choice::Run { index: picked - ID_ACTION }
    } else {
        Choice::Nothing
    }
}

/// Picking an action's line runs that action, and no line that can be picked means
/// nothing or has the id of a click beside the menu.
pub proof fn law_picking_a_line_does_what_it_says(state: State, autostart: bool, k: int)
    requires
        0 <= k < state.menu_items(autostart).len(),
        state.menu_items(autostart)[k] is Entry,
        state.actions@.len() <= usize::MAX - ID_ACTION,
    ensures
        ({
            let id = state.menu_items(autostart)[k]->id;
            &&& id != 0
            &&& choice(id, autostart) != Choice::Nothing
            &&& 2 <= k < state.actions@.len() + 2 ==> choice(id, autostart) == (Choice::Run {
                index: (k - 2) as usize,
            })
        }),
{
    let items = state.menu_items(autostart);
    let n = state.actions@.len() as int;
    let wrong = problem_items(state.problems@);
    if 2 <= k < n + 2 {
        assert(items[k] == action_items(state.actions@)[k - 2]);
    } else if n + 2 <= k < n + 2 + wrong.len() {
        assert(items[k] == wrong[k - n - 2]);
    } else if k >= n + 2 + wrong.len() {
        assert(items[k] == fixed_items(autostart)[k - n - 2 - wrong.len()]);
    }
}

/// No two lines of the menu that can be picked have the same id.
pub proof fn law_menu_ids_are_distinct(state: State, autostart: bool, i: int, j: int)
    requires
        0 <= i < j < state.menu_items(autostart).len(),
        state.menu_items(autostart)[i] is Entry,
        state.menu_items(autostart)[j] is Entry,
    ensures
        state.menu_items(autostart)[i]->id != state.menu_items(autostart)[j]->id,
{
    let items = state.menu_items(autostart);
    let n = state.actions@.len() as int;
    let wrong = problem_items(state.problems@);
    assert forall|k: int| 0 <= k < items.len() && items[k] is Entry implies {
        ||| 2 <= k < n + 2 && items[k]->id == ID_ACTION + k - 2
        ||| k >= n + 2 + wrong.len() && items[k] == fixed_items(autostart)[k - n - 2
            - wrong.len()]
    } by {
        if 2 <= k < n + 2 {
            assert(items[k] == action_items(state.actions@)[k - 2]);
        } else if n + 2 <= k < n + 2 + wrong.len() {
            assert(items[k] == wrong[k - n - 2]);
        } else if k >= n + 2 + wrong.len() {
            assert(items[k] == fixed_items(autostart)[k - n - 2 - wrong.len()]);
        }
    }
}

/// The command by which the daemon is started at sign-in. The config goes in
/// explicitly: the daemon started then must read the same file as the one that set
/// this up.
pub fn autostart_command(exe: &str, config: &str) -> (r: String)
    ensures
        r@ == "\""@ + exe@ + "\" --config \""@ + config@ + "\""@,
{
    cat5("\"", exe, "\" --config \"", config, "\"")
}

// ---------------------------------------------------------------------------
// What holds of the daemon
// ---------------------------------------------------------------------------

/// Each message means its own thing, by the number that Windows has for it: a hotkey runs
/// the action with its id; a click with either button on the icon shows the menu, and a
/// double click runs the first action; an action that is done says whether it went well.
pub proof fn law_each_message_means_its_own_thing(number: usize, click: u32, taskbar: u32, msg: u32)
    ensures
        meaning(0x0001, number, click, taskbar) == Event::Create,
        meaning(0x0002, number, click, taskbar) == Event::Destroy,
        meaning(0x0010, number, click, taskbar) == Event::Close,
        meaning(0x0011, number, click, taskbar) == Event::EndSession,
        meaning(0x007E, number, click, taskbar) == Event::DisplayChange,
        meaning(0x0312, number, click, taskbar) == (Event::Run { index: number }),
        meaning(0x8001, number, 0x0202, taskbar) == Event::Menu,
        meaning(0x8001, number, 0x0205, taskbar) == Event::Menu,
        meaning(0x8001, number, 0x0203, taskbar) == (Event::Run { index: 0 }),
        click != 0x0202 && click != 0x0203 && click != 0x0205 ==> meaning(
            0x8001,
            number,
            click,
            taskbar,
        ) == Event::Ignored,
        meaning(0x8002, number, click, taskbar) == (Event::ActionDone { ok: number == 1 }),
        msg != 0x0001 && msg != 0x0002 && msg != 0x0010 && msg != 0x0011 && msg != 0x007E && msg
            != 0x0312 && msg != 0x8001 && msg != 0x8002 ==> meaning(msg, number, click, taskbar)
            == if msg == taskbar {
            Event::TaskbarCreated
        } else {
            Event::Other
        },
{
}

/// The menu says what is on screen, then has a line for each action, with its command and
/// its keys, and one for each problem, and then what there is to do about the daemon.
/// Picking a line of the last kind does what its text says, and picking the line about
/// starting at sign-in turns what its mark shows round.
pub proof fn law_the_menu_is_complete(state: State, autostart: bool, i: int)
    ensures
        ({
            let items = state.menu_items(autostart);
            let (n, p, m) = (state.actions@.len() as int, state.problems@.len() as int, items.len()
                as int);
            let does = |k: int, text: Seq<char>, checked: bool, done: Choice|
                items[k] is Entry && items[k]->Entry_text == text && items[k]->checked == checked
                    && choice(items[k]->id, autostart) == done;
            &&& m == 2 + n + (if p > 0 {
                p + 1
            } else {
                0
            }) + 7
            &&& state.active matches Some(name) ==> items[0] == (ItemView::Note {
                text: "Active: "@ + name@,
            })
            &&& state.active is None ==> items[0] == (ItemView::Note {
                text: "Active: an unnamed arrangement"@,
            })
            &&& 0 <= i < n ==> items[i + 2] is Entry && !items[i + 2]->checked && items[i
                + 2]->Entry_text == state.actions@[i].command@ + "\t"@
                + state.actions@[i].binding.description()
            &&& 0 <= i < p ==> items[n + 3 + i] == (ItemView::Note { text: state.problems@[i]@ })
            &&& does(m - 6, "Open config file"@, false, Choice::OpenConfig)
            &&& does(m - 5, "Open log file"@, false, Choice::OpenLog)
            &&& does(m - 4, "Reload config"@, false, Choice::Reload)
            &&& does(
                m - 3,
                "Start automatically at sign-in"@,
                autostart,
                Choice::Autostart { on: !autostart },
            )
            &&& does(m - 1, "Exit"@, false, Choice::Exit)
            &&& items[1] is Separator && items[m - 7] is Separator && items[m - 2] is Separator
        }),
{
    let items = state.menu_items(autostart);
    let n = state.actions@.len() as int;
    let wrong = problem_items(state.problems@);
    if 0 <= i < n {
        assert(items[i + 2] == action_items(state.actions@)[i]);
    }
    if 0 <= i < state.problems@.len() {
        assert(items[n + 3 + i] == wrong[i + 1]);
    }
    let m = items.len() as int;
    assert(items[m - 7] == fixed_items(autostart)[0]);
    assert(items[m - 6] == fixed_items(autostart)[1]);
    assert(items[m - 5] == fixed_items(autostart)[2]);
    assert(items[m - 4] == fixed_items(autostart)[3]);
    assert(items[m - 3] == fixed_items(autostart)[4]);
    assert(items[m - 2] == fixed_items(autostart)[5]);
    assert(items[m - 1] == fixed_items(autostart)[6]);
}

/// What is picked below the actions' ids and is no line's id means nothing, and so does a
/// click beside the menu.
pub proof fn law_a_click_beside_the_menu_does_nothing(picked: int, autostart: bool)
    requires
        picked == 0 || 5 < picked < 100,
    ensures
        choice(picked, autostart) == Choice::Nothing,
{
}

/// What the icon says starts with the program's name and ends with what is on screen.
/// Between them it says that an action is running, or how many hotkeys are unavailable,
/// or that the last action failed where none is; and nothing where all is well.
pub proof fn law_the_icon_says_what_is_up(state: State)
    ensures
        ({
            let place = match state.active {
                Some(name) => "on "@ + name@,
                None => "on an unnamed arrangement"@,
            };
            let n = state.problems@.len();
            let wrong = if n == 0 {
                "last action failed"@
            } else if n == 1 {
                "1 hotkey unavailable"@
            } else {
                decimal(n) + " hotkeys unavailable"@
            };
            &&& state.status == Status::Ready ==> state.tip() == "monitor-switcher — "@ + place
            &&& state.status == Status::Working ==> state.tip()
                == "monitor-switcher — working, "@ + place
            &&& state.status == Status::Problem ==> state.tip() == "monitor-switcher — "@ + wrong
                + ", "@ + place
        }),
        TIP_UNITS == 127,
{
}

/// A daemon with a problem is never shown as ready; any other status is shown as it is.
pub proof fn law_a_problem_is_not_hidden(state: State, status: Status)
    ensures
        state.problems@.len() > 0 ==> state.shown_status(status) != Status::Ready,
        status != Status::Ready || state.problems@.len() == 0 ==> state.shown_status(status)
            == status,
        state.problems@.len() > 0 && status == Status::Ready ==> state.shown_status(status)
            == Status::Problem,
{
}

/// Only hotkeys that took are in use, in the order in which they were planned, and all of
/// them are.
pub proof fn law_the_hotkeys_in_use_are_those_that_took(
    planned: Seq<Action>,
    took: Seq<bool>,
    n: nat,
    id: int,
)
    requires
        0 <= id < kept(planned, took, n).len(),
    ensures
        exists|k: int|
            #![trigger planned[k]]
            0 <= k < n && took[k] && planned[k] == kept(planned, took, n)[id] && kept(
                planned,
                took,
                k as nat,
            ).len() == id,
    decreases n,
{
    if n > 0 {
        let earlier = kept(planned, took, (n - 1) as nat);
        if id < earlier.len() {
            law_the_hotkeys_in_use_are_those_that_took(planned, took, (n - 1) as nat, id);
            let k = choose|k: int|
                #![trigger planned[k]]
                0 <= k < n - 1 && took[k] && planned[k] == earlier[id] && kept(
                    planned,
                    took,
                    k as nat,
                ).len() == id;
            assert(planned[k] == kept(planned, took, n)[id]);
        } else {
            assert(took[n - 1] && planned[n - 1] == kept(planned, took, n)[id]);
        }
    }
}

/// The daemon takes a config's path behind `--config`, whatever follows it, and nothing
/// else in front.
pub proof fn law_the_daemon_takes_one_option(args: Seq<Seq<char>>)
    ensures
        args.len() == 0 ==> daemon_args(args) is Usual,
        args.len() > 0 && args[0] != "--config"@ ==> daemon_args(args) == (DaemonArgs::Other {
            word: args[0],
        }),
        args.len() == 1 && args[0] == "--config"@ ==> daemon_args(args) is NoPath,
        args.len() > 1 && args[0] == "--config"@ ==> daemon_args(args) == (DaemonArgs::Config {
            path: args[1],
        }),
{
}

/// A failure to start is reported with each cause behind what it caused.
pub proof fn law_a_failure_is_reported_with_its_causes(parts: Seq<Seq<char>>, cause: Seq<char>)
    ensures
        parts.len() == 0 ==> failure_text(parts.push(cause)) == cause,
        parts.len() > 0 ==> failure_text(parts.push(cause)) == failure_text(parts)
            + "\n\ncaused by: "@ + cause,
{
    assert(parts.push(cause).drop_last() =~= parts);
}

/// What is said of hotkeys names their keys and what they run, or what is wrong with
/// them, one line for each.
pub proof fn law_each_hotkey_has_its_line(
    actions: Seq<Action>,
    problems: Seq<String>,
    answer: Answer,
    path: Seq<char>,
    i: int,
)
    ensures
        runs_texts(actions).len() == actions.len(),
        problem_texts(problems).len() == problems.len(),
        0 <= i < actions.len() ==> runs_texts(actions)[i] == actions[i].binding.description()
            + " runs \""@ + actions[i].command@ + "\""@,
        0 <= i < problems.len() ==> problem_texts(problems)[i] == "hotkey problem: "@
            + problems[i]@,
        0 <= i < actions.len() ==> refused_text(actions[i], answer) == actions[i].spec@
            + ": Windows would not register it ("@ + answer.described()
            + "). Another program probably has it."@,
        idle_text(path)
            == "no hotkeys are configured, so the daemon would do nothing.\n  Add a \"hotkeys\" block to "@
            + path + ", for example:\n  \"hotkeys\": { \"ctrl+shift+d\": \"switch\" }"@,
{
}

/// What is said of a reload lists the problems, then the hotkeys, says where there are
/// none, and ends by saying that it is done. One that found no usable hotkey says that
/// the old ones are kept, and why.
pub proof fn law_a_reload_is_reported(state: State, problems: Seq<Seq<char>>, i: int)
    ensures
        ({
            let lines = reloaded_texts(state);
            let (p, n) = (state.problems@.len() as int, state.actions@.len() as int);
            &&& lines.len() == p + n + if n == 0 {
                2int
            } else {
                1
            }
            &&& lines.last() == "config reloaded"@
            &&& n == 0 ==> lines[p]
                == "no hotkeys are configured now; the daemon is idle until you add one"@
            &&& 0 <= i < p ==> lines[i] == "hotkey problem: "@ + state.problems@[i]@
            &&& 0 <= i < n ==> lines[p + i] == state.actions@[i].binding.description()
                + " runs \""@ + state.actions@[i].command@ + "\""@
        }),
        unusable_lines(problems).len() == problems.len() + 1,
        unusable_lines(problems)[0]
            == "reload found no usable hotkey, keeping the ones already registered:"@,
        0 <= i < problems.len() ==> unusable_lines(problems)[i + 1] == "  "@ + problems[i],
{
}

/// What is said of an action that failed names it and what failed, and each cause follows
/// on a line of its own.
pub proof fn law_a_failed_action_is_reported(label: Seq<char>, e: Error, i: int)
    ensures
        failed_texts(label, e).len() == chain(e).len(),
        failed_texts(label, e)[0] == "\""@ + label + "\" failed: "@ + e.text(),
        1 <= i < chain(e).len() ==> failed_texts(label, e)[i] == "  caused by: "@ + chain(e)[i],
{
    crate::error::law_text_is_the_chain_joined(e);
}

// ---------------------------------------------------------------------------
// What becomes of the daemon's state
// ---------------------------------------------------------------------------

/// A hotkey that is not there does nothing, and one that is pressed while another action
/// runs is ignored and named; neither changes anything. Any other is started, with its
/// words and under its command, and the icon says so.
pub proof fn law_one_action_runs_at_a_time(state: &mut State, index: usize, busy: bool, r: Dispatch)
    requires
        call_ensures(State::dispatch, (state, index, busy), r),
    ensures
        r is Nothing <==> index >= old(state).actions@.len(),
        r is Ignored <==> index < old(state).actions@.len() && busy,
        !(r is Started) ==> *final(state) == *old(state),
        r is Started ==> final(state).status == Status::Working && final(state).actions
            == old(state).actions && final(state).problems == old(state).problems
            && final(state).active == old(state).active,
        r matches Dispatch::Started { words, label, redraw } ==> texts(words@) == texts(
            old(state).actions@[index as int].words@,
        ) && label@ == old(state).actions@[index as int].command@ && (redraw <==> old(state).status != Status::Working),
{
}

/// Once an action is over the icon says that all is well exactly if the action went well
/// and every hotkey took; the menu then shows what is on screen.
pub proof fn law_what_the_icon_says_after_an_action(
    state: &mut State,
    ok: bool,
    active: Option<String>,
    redraw: bool,
)
    requires
        call_ensures(State::action_done, (state, ok, active), redraw),
    ensures
        final(state).status == Status::Ready <==> ok && old(state).problems@.len() == 0,
        final(state).status == Status::Ready || final(state).status == Status::Problem,
        final(state).active == active,
        final(state).actions == old(state).actions && final(state).problems == old(state).problems,
        redraw <==> old(state).status != final(state).status,
{
}

/// Once the hotkeys were reloaded the icon says that all is well exactly if every hotkey
/// took, and the hotkeys stay as they are.
pub proof fn law_what_the_icon_says_after_a_reload(
    state: &mut State,
    active: Option<String>,
    r: Vec<String>,
)
    requires
        call_ensures(State::reloaded, (state, active), r),
    ensures
        final(state).status == Status::Ready <==> old(state).problems@.len() == 0,
        final(state).status == Status::Ready || final(state).status == Status::Problem,
        final(state).active == active,
        final(state).actions == old(state).actions && final(state).problems == old(state).problems,
        texts(r@) == reloaded_texts(*old(state)),
{
}

/// A hotkey that took is the last of those in use; one that was refused is not in use, and
/// is a problem more. Nothing else changes.
pub proof fn law_a_refused_hotkey_is_a_problem(
    state: &mut State,
    action: Action,
    refused: Option<&Answer>,
    done: (),
)
    requires
        call_ensures(State::registered, (state, action, refused), done),
    ensures
        refused is None ==> final(state).actions@ == old(state).actions@.push(action) && final(state).problems@ == old(state).problems@,
        refused is Some ==> final(state).actions@ == old(state).actions@ && final(state).problems@.len() == old(state).problems@.len() + 1,
        final(state).status == old(state).status && final(state).active == old(state).active && final(state).config == old(state).config,
{
    if refused is Some {
        let now = texts(final(state).problems@);
        assert(now.len() == texts(old(state).problems@).len() + 1);
    }
}

/// A daemon that starts with problems shows them, and otherwise what it showed before.
pub proof fn law_a_start_shows_its_problems(state: &mut State, done: ())
    requires
        call_ensures(State::started, (state,), done),
    ensures
        old(state).problems@.len() > 0 ==> final(state).status == Status::Problem,
        old(state).problems@.len() == 0 ==> final(state).status == old(state).status,
        final(state).actions == old(state).actions && final(state).problems == old(state).problems && final(state).active == old(state).active,
{
}

/// The hotkeys of a new plan take the place of the old ones, problems included.
pub proof fn law_a_new_plan_takes_the_place_of_the_old(
    state: &mut State,
    new: Plan,
    r: Vec<Action>,
)
    requires
        call_ensures(State::replan, (state, new), r),
    ensures
        r == new.ready,
        final(state).problems == new.problems,
        final(state).actions@.len() == 0,
        final(state).status == old(state).status && final(state).active == old(state).active,
{
}

/// A status is taken on as it is, but that all is well is not said while there are
/// problems; the icon is drawn again exactly if what it says changed.
pub proof fn law_a_status_is_taken_on(state: &mut State, status: Status, redraw: bool)
    requires
        call_ensures(State::set_status, (state, status), redraw),
    ensures
        status != Status::Ready || old(state).problems@.len() == 0 ==> final(state).status
            == status,
        status == Status::Ready && old(state).problems@.len() > 0 ==> final(state).status
            == Status::Problem,
        redraw <==> old(state).status != final(state).status,
        final(state).actions == old(state).actions && final(state).problems == old(state).problems && final(state).active == old(state).active,
{
}

/// A daemon starts exactly if there is a config with hotkeys in it, and then with a plan
/// that covers each of them.
pub proof fn law_a_daemon_needs_hotkeys(
    path: &str,
    loaded: Result<Config, Error>,
    cec: bool,
    r: Result<Plan, Error>,
)
    requires
        call_ensures(start, (path, loaded, cec), r),
    ensures
        r is Ok <==> (loaded matches Ok(config) && config.hotkeys.names().len() > 0),
        r matches Ok(p) ==> (loaded matches Ok(config) && p.ready@.len() + p.problems@.len()
            == config.hotkeys.names().len()),
        loaded matches Err(error) ==> (r matches Err(Error::Nested { doing, inner }) && doing@
            == "the daemon needs a config at "@ + path@ && *inner == error),
{
    if let Ok(config) = loaded {
        law_every_hotkey_is_ready_or_explained(
            config.hotkeys,
            complaints_for(config.hotkeys, cec),
            config.hotkeys.names().len(),
        );
        if let Ok(p) = r {
            assert(texts(p.problems@).len() == p.problems@.len());
        }
    }
}

/// A reload takes effect unless the config cannot be read, or has hotkeys of which none
/// can be used; then the hotkeys stay as they are, and the first line says why.
pub proof fn law_a_reload_that_would_leave_nothing_is_refused(
    loaded: Result<Config, Error>,
    cec: bool,
    r: Result<Plan, Vec<String>>,
)
    requires
        call_ensures(reload, (loaded, cec), r),
    ensures
        loaded matches Err(error) ==> (r matches Err(lines) && texts(lines@) == seq![
            "reload failed, keeping the hotkeys already registered: "@ + error.text(),
        ]),
        loaded matches Ok(config) ==> ({
            let n = config.hotkeys.names().len();
            let p = planned(config.hotkeys, complaints_for(config.hotkeys, cec), n);
            &&& r is Err <==> n > 0 && p.ready.len() == 0
            &&& r matches Ok(new) ==> new.ready@.len() + new.problems@.len() == n
        }),
{
    if let Ok(config) = loaded {
        law_every_hotkey_is_ready_or_explained(
            config.hotkeys,
            complaints_for(config.hotkeys, cec),
            config.hotkeys.names().len(),
        );
        if let Ok(new) = r {
            assert(texts(new.problems@).len() == new.problems@.len());
        }
    }
}

/// Windows is told one at the end of a session, nothing about a message that is not the
/// daemon's, and zero about any other.
pub proof fn law_each_message_is_answered(event: Event, r: Option<isize>)
    requires
        call_ensures(reply_to, (event,), r),
    ensures
        r is None <==> event == Event::Other,
        r == Some(1isize) <==> event == Event::EndSession,
        r == Some(0isize) <==> event != Event::Other && event != Event::EndSession,
{
}

/// What the icon says goes to Windows as it is where there is room for it, and otherwise
/// as far as there is.
pub proof fn law_a_long_tip_is_cut(state: &State, r: Vec<u16>)
    requires
        call_ensures(State::wide_tip, (state,), r),
    ensures
        r@.len() <= 127,
        encoded(state.tip()).len() <= 127 ==> r@ == encoded(state.tip()),
        encoded(state.tip()).len() > 127 ==> r@.len() == 127,
        r@ == encoded(state.tip()).take(r@.len() as int),
{
    assert(encoded(state.tip()).take(encoded(state.tip()).len() as int) =~= encoded(state.tip()));
}

/// The laws on messages, menus and reports are about what the functions here return.
pub proof fn law_the_daemon_does_as_stated(
    state: &State,
    msg: u32,
    number: usize,
    click: u32,
    taskbar: u32,
    autostart: bool,
    e: &Error,
    label: &str,
)
    ensures
        forall|r: Event|
            call_ensures(event_of, (msg, number, click, taskbar), r) ==> r == meaning(
                msg,
                number,
                click,
                taskbar,
            ),
        forall|r: Choice|
            call_ensures(choice_of, (number, autostart), r) ==> r == choice(
                number as int,
                autostart,
            ),
        forall|r: Vec<Item>|
            call_ensures(State::menu, (state, autostart), r) ==> items_of(r@) == state.menu_items(
                autostart,
            ),
        forall|r: String| call_ensures(State::tooltip, (state,), r) ==> r@ == state.tip(),
        forall|r: String|
            call_ensures(State::problem_summary, (state,), r) ==> r@ == state.summary(),
        forall|r: String| call_ensures(failure, (e,), r) ==> r@ == failure_text(chain(*e)),
        forall|r: Vec<String>|
            call_ensures(failed_lines, (label, e), r) ==> texts(r@) == failed_texts(label@, *e),
        forall|r: String|
            call_ensures(running_line, (label,), r) ==> r@ == "running \""@ + label@ + "\""@,
        forall|r: usize| call_ensures(State::next_id, (state,), r) ==> r == state.actions@.len(),
        forall|r: bool|
            call_ensures(State::has_action, (state, number), r) ==> r == (number
                < state.actions@.len()),
{
}

} // verus!
