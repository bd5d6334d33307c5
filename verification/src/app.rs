//! The command line: one definition, for the console program and for hotkeys.
//!
//! The tray daemon runs a hotkey's action by handing over the same words that
//! would have been typed, so anything the command line can do a hotkey can do, and
//! a typo in the config is caught by the same parser that would have caught it at
//! a prompt.

use vstd::prelude::*;
use vstd::string::*;

use crate::cli;
use crate::cli::vcp::VcpView;
use crate::cmdline::{
    clap_result, command_line, goes_by, levels_of, parse_view, program_name, read_command_line,
    Level, LevelView, Usage, UsageView,
};
use crate::config::{default_parts, no_place, Config};
use crate::display::apply::{Outcome, Report, Tier};
use crate::error::{chain, layered, Error};
use crate::seqs::{first_where, lemma_first_where_is};
use crate::text::{
    all_digits, ascii_digit, cat2, cat3, cat4, chars_of, decimal, digits_from, digits_value,
    is_whitespace, lemma_decimal_reads_back, parse_unsigned, same_text, texts, unsigned,
    whitespace,
};
use crate::winerr::opt_text;

verus! {

/// An invocation of the program.
#[derive(Debug)]
pub struct Cli {
    /// Config file location.
    pub config: Option<String>,
    pub command: Command,
}

/// What the program is to do.
#[derive(Debug)]
pub enum Command {
    /// List every connected output and its stable identity.
    List { active: bool, json: bool },
    /// Record the currently active outputs as a named profile.
    SaveProfile { name: String, force: bool },
    /// Make a named profile's outputs the active ones.
    ApplyProfile { name: String, dry: DryRun },
    /// Power a display on or off over HDMI-CEC, without changing topology.
    Cec { action: cli::cec::Action, target: Option<String> },
    /// Read or change a monitor's own settings over DDC/CI.
    Vcp { command: cli::vcp::Command },
    /// Alternate between two profiles.
    Switch { profiles: Vec<String>, dry: DryRun },
}

/// Whether a change is only to be validated.
#[derive(Debug, Clone, Copy, PartialEq, Eq, Structural)]
pub struct DryRun {
    pub dry_run: bool,
}

/// What an invocation says.
pub struct CliView {
    pub config: Option<Seq<char>>,
    pub command: CommandView,
}

/// What a command says.
pub enum CommandView {
    List { active: bool, json: bool },
    SaveProfile { name: Seq<char>, force: bool },
    ApplyProfile { name: Seq<char>, dry: DryRun },
    Cec { action: cli::cec::Action, target: Option<Seq<char>> },
    Vcp { command: VcpView },
    Switch { profiles: Seq<Seq<char>>, dry: DryRun },
}

impl View for Command {
    type V = CommandView;

    open spec fn view(&self) -> CommandView {
        match *self {
            Command::List { active, json } => CommandView::List { active, json },
            Command::SaveProfile { name, force } => CommandView::SaveProfile { name: name@, force },
            Command::ApplyProfile { name, dry } => CommandView::ApplyProfile { name: name@, dry },
            Command::Cec { action, target } => CommandView::Cec {
                action,
                target: opt_text(target),
            },
            Command::Vcp { command } => CommandView::Vcp { command: command@ },
            Command::Switch { profiles, dry } => CommandView::Switch {
                profiles: texts(profiles@),
                dry,
            },
        }
    }
}

impl View for Cli {
    type V = CliView;

    open spec fn view(&self) -> CliView {
        CliView { config: opt_text(self.config), command: self.command@ }
    }
}

// ---------------------------------------------------------------------------
// Splitting a line into words
// ---------------------------------------------------------------------------

/// Whether the end of a text is inside double quotes.
pub open spec fn in_quotes(s: Seq<char>) -> bool
    decreases s.len(),
{
    if s.len() == 0 {
        false
    } else if s.last() == '"' {
        !in_quotes(s.drop_last())
    } else {
        in_quotes(s.drop_last())
    }
}

/// The pieces of a text between white space that is not in quotes, empty ones
/// among them.
pub open spec fn runs(s: Seq<char>) -> Seq<Seq<char>>
    decreases s.len(),
{
    if s.len() == 0 {
        seq![Seq::empty()]
    } else {
        let before = runs(s.drop_last());
        if whitespace(s.last()) && !in_quotes(s.drop_last()) {
            before.push(Seq::empty())
        } else {
            before.drop_last().push(before.last().push(s.last()))
        }
    }
}

/// A text without its double quotes.
pub open spec fn unquoted(s: Seq<char>) -> Seq<char>
    decreases s.len(),
{
    if s.len() == 0 {
        Seq::empty()
    } else if s.last() == '"' {
        unquoted(s.drop_last())
    } else {
        unquoted(s.drop_last()).push(s.last())
    }
}

/// The pieces that are not empty, without their quotes. A pair of quotes with
/// nothing in it is such a piece, and so an empty word.
pub open spec fn words_in(pieces: Seq<Seq<char>>) -> Seq<Seq<char>>
    decreases pieces.len(),
{
    if pieces.len() == 0 {
        Seq::empty()
    } else if pieces.last().len() == 0 {
        words_in(pieces.drop_last())
    } else {
        words_in(pieces.drop_last()).push(unquoted(pieces.last()))
    }
}

/// The words of a line.
pub open spec fn words_of(line: Seq<char>) -> Seq<Seq<char>> {
    words_in(runs(line))
}

// There is always a piece.
proof fn lemma_runs_nonempty(s: Seq<char>)
    ensures
        runs(s).len() > 0,
    decreases s.len(),
{
    if s.len() > 0 {
        lemma_runs_nonempty(s.drop_last());
    }
}

/// Split a configured action into words, the way a shell would.
///
/// Only double quotes are honoured, which covers the one case that actually turns
/// up, a target or profile whose name has a space in it, without pretending to be
/// a shell.
pub fn split_words(line: &str) -> (r: Vec<String>)
    ensures
        texts(r@) == words_of(line@),
{
    let cs = chars_of(line);
    let mut words: Vec<String> = Vec::new();
    let mut word = String::new();
    let mut quoted = false;
    let mut started = false;
    assert(cs@.take(0) =~= Seq::empty());
    assert(runs(cs@.take(0)).drop_last() =~= Seq::empty());
    for i in 0..cs.len()
        invariant
            cs@ == line@,
            runs(line@.take(i as int)).len() > 0,
            texts(words@) == words_in(runs(line@.take(i as int)).drop_last()),
            word@ == unquoted(runs(line@.take(i as int)).last()),
            started == (runs(line@.take(i as int)).last().len() > 0),
            quoted == in_quotes(line@.take(i as int)),
    {
        let c = cs[i];
        let ghost now = line@.take(i as int);
        let ghost next = line@.take(i + 1);
        let ghost pieces = runs(now);
        let ghost done = words@;
        proof {
            assert(next.drop_last() =~= now);
            assert(pieces.last().push(c).drop_last() =~= pieces.last());
            assert(pieces.drop_last().push(pieces.last().push(c)).drop_last()
                =~= pieces.drop_last());
            assert(pieces.push(Seq::empty()).drop_last() =~= pieces);
        }
        if c == '"' {
            quoted = !quoted;
            // An empty pair of quotes is still an argument.
            started = true;
        } else if is_whitespace(c) && !quoted {
            if started {
                let mut finished = String::new();
                std::mem::swap(&mut finished, &mut word);
                words.push(finished);
                assert(texts(words@) =~= texts(done).push(unquoted(pieces.last())));
                started = false;
            }
            assert(word@ =~= Seq::empty());
        } else {
            word.push(c);
            started = true;
        }
    }
    assert(line@.take(line@.len() as int) =~= line@);
    let ghost done = words@;
    if started {
        words.push(word);
        assert(texts(words@) =~= texts(done).push(word@));
    }
    words
}

/// A word in quotes.
pub open spec fn quoted_word(w: Seq<char>) -> Seq<char> {
    seq!['"'] + w + seq!['"']
}

/// Words in quotes, with a space between each and the next.
pub open spec fn quoted_line(ws: Seq<Seq<char>>) -> Seq<char>
    decreases ws.len(),
{
    if ws.len() == 0 {
        Seq::empty()
    } else if ws.len() == 1 {
        quoted_word(ws[0])
    } else {
        quoted_line(ws.drop_last()) + seq![' '] + quoted_word(ws.last())
    }
}

/// Whatever words there are, with spaces in them or empty, come through a line
/// that has them in quotes. Words with quotes in them do not: quotes cannot be
/// escaped.
pub proof fn law_quoted_words_come_through(ws: Seq<Seq<char>>)
    requires
        forall|i: int| 0 <= i < ws.len() ==> !(#[trigger] ws[i]).contains('"'),
    ensures
        words_of(quoted_line(ws)) == ws,
{
    lemma_quoted_line(ws);
    if ws.len() == 0 {
        assert(runs(quoted_line(ws)) =~= seq![Seq::<char>::empty()]);
        assert(seq![Seq::<char>::empty()].drop_last() =~= Seq::empty());
        reveal_with_fuel(words_in, 2);
        assert(words_of(quoted_line(ws)) =~= ws);
    } else {
        lemma_words_in_quoted(ws);
    }
}

// The pieces of quoted words are the quoted words.
proof fn lemma_quoted_line(ws: Seq<Seq<char>>)
    requires
        forall|i: int| 0 <= i < ws.len() ==> !(#[trigger] ws[i]).contains('"'),
    ensures
        !in_quotes(quoted_line(ws)),
        ws.len() > 0 ==> runs(quoted_line(ws)) == ws.map_values(|w: Seq<char>| quoted_word(w)),
    decreases ws.len(),
{
    let quote = |w: Seq<char>| quoted_word(w);
    if ws.len() == 1 {
        lemma_quoted_word(Seq::empty(), ws[0]);
        assert(Seq::<char>::empty() + quoted_word(ws[0]) =~= quoted_word(ws[0]));
        assert(runs(quoted_word(ws[0])) =~= ws.map_values(quote));
    } else if ws.len() > 1 {
        let fewer = ws.drop_last();
        assert forall|i: int| 0 <= i < fewer.len() implies !(#[trigger] fewer[i]).contains('"') by {
            assert(fewer[i] == ws[i]);
        }
        lemma_quoted_line(fewer);
        let line = quoted_line(fewer);
        let spaced = line + seq![' '];
        assert(spaced.drop_last() =~= line);
        assert(spaced.last() == ' ');
        assert(!in_quotes(spaced));
        assert(runs(spaced) == runs(line).push(Seq::empty()));
        lemma_quoted_word(spaced, ws.last());
        assert(runs(spaced).drop_last() =~= runs(line));
        assert(Seq::<char>::empty() + quoted_word(ws.last()) =~= quoted_word(ws.last()));
        assert(quoted_line(ws) =~= spaced + quoted_word(ws.last()));
        assert(ws.map_values(quote) =~= fewer.map_values(quote).push(quoted_word(ws.last())));
    }
}

// A word in quotes goes to the last piece, whatever is in it.
proof fn lemma_quoted_word(s: Seq<char>, w: Seq<char>)
    requires
        !in_quotes(s),
        !w.contains('"'),
    ensures
        !in_quotes(s + quoted_word(w)),
        runs(s + quoted_word(w)) == runs(s).drop_last().push(runs(s).last() + quoted_word(w)),
{
    let open = s + seq!['"'];
    lemma_runs_nonempty(s);
    assert(open.drop_last() =~= s);
    assert(open.last() == '"');
    assert(runs(open) == runs(s).drop_last().push(runs(s).last().push('"')));
    lemma_inside_quotes(open, w);
    let all = open + w + seq!['"'];
    assert(all.drop_last() =~= open + w);
    assert(all.last() == '"');
    assert(all =~= s + quoted_word(w));
    lemma_runs_nonempty(open + w);
    assert(runs(open).drop_last() =~= runs(s).drop_last());
    let last = runs(open).last() + w;
    assert(runs(open + w).drop_last() =~= runs(s).drop_last());
    assert(last.push('"') =~= runs(s).last() + quoted_word(w));
}

// Inside quotes white space separates nothing.
proof fn lemma_inside_quotes(s: Seq<char>, w: Seq<char>)
    requires
        in_quotes(s),
        !w.contains('"'),
    ensures
        in_quotes(s + w),
        runs(s + w) == runs(s).drop_last().push(runs(s).last() + w),
    decreases w.len(),
{
    lemma_runs_nonempty(s);
    if w.len() == 0 {
        assert(s + w =~= s);
        assert(runs(s).last() + w =~= runs(s).last());
        assert(runs(s).drop_last().push(runs(s).last()) =~= runs(s));
    } else {
        let less = w.drop_last();
        assert(!less.contains('"')) by {
            if less.contains('"') {
                let i = choose|i: int| 0 <= i < less.len() && less[i] == '"';
                assert(w[i] == '"');
            }
        }
        lemma_inside_quotes(s, less);
        assert((s + w).drop_last() =~= s + less);
        assert((s + w).last() == w.last());
        assert(w.last() != '"') by {
            if w.last() == '"' {
                assert(w[w.len() - 1] == '"');
            }
        }
        let before = runs(s + less);
        assert(before.drop_last() =~= runs(s).drop_last());
        assert(before.last().push(w.last()) =~= runs(s).last() + w);
    }
}

// Quoted words without their quotes are the words.
proof fn lemma_words_in_quoted(ws: Seq<Seq<char>>)
    requires
        forall|i: int| 0 <= i < ws.len() ==> !(#[trigger] ws[i]).contains('"'),
    ensures
        words_in(ws.map_values(|w: Seq<char>| quoted_word(w))) == ws,
    decreases ws.len(),
{
    let quote = |w: Seq<char>| quoted_word(w);
    if ws.len() == 0 {
        assert(words_in(ws.map_values(quote)) =~= ws);
    } else {
        let fewer = ws.drop_last();
        assert forall|i: int| 0 <= i < fewer.len() implies !(#[trigger] fewer[i]).contains('"') by {
            assert(fewer[i] == ws[i]);
        }
        lemma_words_in_quoted(fewer);
        assert(ws.map_values(quote).drop_last() =~= fewer.map_values(quote));
        assert(ws.map_values(quote).last() == quoted_word(ws.last()));
        lemma_unquoted(ws.last());
        assert(ws =~= fewer.push(ws.last()));
    }
}

// A quoted word without its quotes is the word.
proof fn lemma_unquoted(w: Seq<char>)
    requires
        !w.contains('"'),
    ensures
        unquoted(quoted_word(w)) == w,
{
    let open = seq!['"'] + w;
    lemma_unquoted_open(w);
    assert(quoted_word(w).drop_last() =~= open);
    assert(quoted_word(w).last() == '"');
}

proof fn lemma_unquoted_open(w: Seq<char>)
    requires
        !w.contains('"'),
    ensures
        unquoted(seq!['"'] + w) == w,
    decreases w.len(),
{
    let open = seq!['"'] + w;
    if w.len() == 0 {
        assert(open.drop_last() =~= Seq::empty());
        assert(open.last() == '"');
        reveal_with_fuel(unquoted, 2);
        assert(unquoted(open) =~= w);
    } else {
        let less = w.drop_last();
        assert(!less.contains('"')) by {
            if less.contains('"') {
                let i = choose|i: int| 0 <= i < less.len() && less[i] == '"';
                assert(w[i] == '"');
            }
        }
        lemma_unquoted_open(less);
        assert(open.drop_last() =~= seq!['"'] + less);
        assert(open.last() == w.last());
        assert(w.last() != '"') by {
            if w.last() == '"' {
                assert(w[w.len() - 1] == '"');
            }
        }
        assert(w =~= less.push(w.last()));
    }
}

// ---------------------------------------------------------------------------
// Understanding what was given
// ---------------------------------------------------------------------------

/// The values given for an argument, none where it is not there.
pub open spec fn given(level: LevelView, id: Seq<char>) -> Seq<Seq<char>> {
    let i = first_where(level.values, named(id));
    if i < level.values.len() {
        level.values[i].1
    } else {
        Seq::empty()
    }
}

/// Arguments with an id.
pub open spec fn named(id: Seq<char>) -> spec_fn((Seq<char>, Seq<Seq<char>>)) -> bool {
    |v: (Seq<char>, Seq<Seq<char>>)| v.0 == id
}

/// The first value given for an argument.
pub open spec fn one(level: LevelView, id: Seq<char>) -> Option<Seq<char>> {
    if given(level, id).len() > 0 {
        Some(given(level, id)[0])
    } else {
        None
    }
}

/// Whether a flag was given.
pub open spec fn flagged(level: LevelView, id: Seq<char>) -> bool {
    one(level, id) == Some("true"@)
}

/// The number of 32 bits that a value stands for. A minus sign is understood, but
/// there is nothing below zero.
pub open spec fn number_of(s: Seq<char>) -> Option<u32> {
    if s.len() > 0 && s[0] == '-' {
        if all_digits(s.skip(1), 10) && digits_value(s.skip(1), 10) == 0 {
            Some(0u32)
        } else {
            None
        }
    } else {
        match unsigned(s, 10) {
            Some(n) => if n <= u32::MAX {
                Some(n as u32)
            } else {
                None
            },
            None => None,
        }
    }
}

/// The numbers that values stand for, if all of them do.
pub open spec fn numbers_of(values: Seq<Seq<char>>) -> Option<Seq<u32>>
    decreases values.len(),
{
    if values.len() == 0 {
        Some(Seq::empty())
    } else {
        match (numbers_of(values.drop_last()), number_of(values.last())) {
            (Some(ns), Some(n)) => Some(ns.push(n)),
            _ => None,
        }
    }
}

/// The power action that a word stands for.
pub open spec fn action_of(word: Seq<char>) -> Option<cli::cec::Action> {
    if word == "status"@ {
        Some(cli::cec::Action::Status)
    } else if word == "on"@ {
        Some(cli::cec::Action::On)
    } else if word == "off"@ {
        Some(cli::cec::Action::Off)
    } else {
        None
    }
}

/// The `vcp` command that a level holds.
pub open spec fn vcp_of(level: LevelView) -> Option<VcpView> {
    match (one(level, "target"@), one(level, "code"@)) {
        (Some(target), code) => if level.name == "caps"@ {
            Some(VcpView::Caps { target })
        } else {
            match code {
                Some(code) => if level.name == "get"@ {
                    Some(VcpView::Get { target, code })
                } else if level.name == "set"@ {
                    match one(level, "value"@) {
                        Some(v) => match number_of(v) {
                            Some(value) => Some(VcpView::Write { target, code, value }),
                            None => None,
                        },
                        None => None,
                    }
                } else if level.name == "switch"@ {
                    match numbers_of(given(level, "values"@)) {
                        Some(values) => Some(VcpView::Switch { target, code, values }),
                        None => None,
                    }
                } else {
                    None
                },
                None => None,
            }
        },
        _ => None,
    }
}

/// The command that the levels below the outermost hold.
pub open spec fn command_of(levels: Seq<LevelView>) -> Option<CommandView> {
    if levels.len() < 2 {
        None
    } else {
        let level = levels[1];
        let dry = DryRun { dry_run: flagged(level, "dry_run"@) };
        if level.name == "list"@ {
            Some(
                CommandView::List {
                    active: flagged(level, "active"@),
                    json: flagged(level, "json"@),
                },
            )
        } else if level.name == "save-profile"@ {
            match one(level, "name"@) {
                Some(name) => Some(
                    CommandView::SaveProfile { name, force: flagged(level, "force"@) },
                ),
                None => None,
            }
        } else if level.name == "apply-profile"@ {
            match one(level, "name"@) {
                Some(name) => Some(CommandView::ApplyProfile { name, dry }),
                None => None,
            }
        } else if level.name == "cec"@ {
            match one(level, "action"@) {
                Some(word) => match action_of(word) {
                    Some(action) => Some(
                        CommandView::Cec { action, target: one(level, "target"@) },
                    ),
                    None => None,
                },
                None => None,
            }
        } else if level.name == "vcp"@ {
            if levels.len() < 3 {
                None
            } else {
                match vcp_of(levels[2]) {
                    Some(command) => Some(CommandView::Vcp { command }),
                    None => None,
                }
            }
        } else if level.name == "switch"@ {
            Some(CommandView::Switch { profiles: given(level, "profiles"@), dry })
        } else {
            None
        }
    }
}

/// The invocation that levels hold.
pub open spec fn cli_of(levels: Seq<LevelView>) -> Option<CliView> {
    match command_of(levels) {
        Some(command) => Some(CliView { config: one(levels[0], "config"@), command }),
        None => None,
    }
}

// The values given for an argument.
fn values_for<'a>(level: &'a Level, id: &str) -> (r: Option<&'a Vec<String>>)
    ensures
        match r {
            Some(v) => texts(v@) == given(level@, id@),
            None => given(level@, id@) == Seq::<Seq<char>>::empty(),
        },
{
    for i in 0..level.values.len()
        invariant
            forall|j: int| 0 <= j < i ==> !named(id@)(#[trigger] level@.values[j]),
    {
        assert(level@.values[i as int] == (level.values@[i as int].0@, texts(
            level.values@[i as int].1@,
        )));
        if same_text(level.values[i].0.as_str(), id) {
            proof {
                lemma_first_where_is(level@.values, named(id@), i as int);
            }
            return Some(&level.values[i].1);
        }
    }
    proof {
        lemma_first_where_is(level@.values, named(id@), level@.values.len() as int);
    }
    None
}

// All values given for an argument.
fn all_values(level: &Level, id: &str) -> (r: Vec<String>)
    ensures
        texts(r@) == given(level@, id@),
{
    let mut out: Vec<String> = Vec::new();
    assert(texts(out@) =~= Seq::empty());
    if let Some(values) = values_for(level, id) {
        assert(texts(values@).take(0) =~= Seq::empty());
        for i in 0..values.len()
            invariant
                texts(out@) == texts(values@).take(i as int),
        {
            let ghost before = out@;
            out.push(values[i].clone());
            assert(texts(out@) =~= texts(before).push(values@[i as int]@));
            assert(texts(values@).take(i + 1) =~= texts(values@).take(i as int).push(
                values@[i as int]@,
            ));
        }
        assert(texts(values@).take(values@.len() as int) =~= texts(values@));
    }
    out
}

// The first value given for an argument.
fn one_value(level: &Level, id: &str) -> (r: Option<String>)
    ensures
        opt_text(r) == one(level@, id@),
{
    match values_for(level, id) {
        Some(values) => if values.len() > 0 {
            assert(texts(values@)[0] == values@[0]@);
            Some(values[0].clone())
        } else {
            None
        },
        None => None,
    }
}

// Whether a flag was given.
fn has_flag(level: &Level, id: &str) -> (r: bool)
    ensures
        r == flagged(level@, id@),
{
    match one_value(level, id) {
        Some(v) => same_text(v.as_str(), "true"),
        None => false,
    }
}

// The number that a value stands for.
fn read_number(s: &str) -> (r: Option<u32>)
    ensures
        r == number_of(s@),
{
    let cs = chars_of(s);
    if cs.len() > 0 && cs[0] == '-' {
        digits_from(cs.as_slice(), 1, 10, 0)
    } else {
        parse_unsigned(s, 10, u32::MAX)
    }
}

// The numbers that values stand for.
fn read_numbers(values: &Vec<String>) -> (r: Option<Vec<u32>>)
    ensures
        match r {
            Some(ns) => numbers_of(texts(values@)) == Some(ns@),
            None => numbers_of(texts(values@)) is None,
        },
{
    let mut out: Vec<u32> = Vec::new();
    assert(texts(values@).take(0) =~= Seq::empty());
    assert(out@ =~= Seq::empty());
    for i in 0..values.len()
        invariant
            numbers_of(texts(values@).take(i as int)) == Some(out@),
    {
        let ghost next = texts(values@).take(i + 1);
        assert(next.drop_last() =~= texts(values@).take(i as int));
        assert(next.last() == values@[i as int]@);
        match read_number(values[i].as_str()) {
            Some(n) => out.push(n),
            None => {
                proof {
                    lemma_numbers_prefix(texts(values@), i + 1);
                }
                return None;
            },
        }
    }
    assert(texts(values@).take(values@.len() as int) =~= texts(values@));
    Some(out)
}

// One value that is no number spoils them all.
proof fn lemma_numbers_prefix(values: Seq<Seq<char>>, n: int)
    requires
        0 <= n <= values.len(),
        numbers_of(values.take(n)) is None,
    ensures
        numbers_of(values) is None,
    decreases values.len() - n,
{
    if n < values.len() {
        assert(values.take(n + 1).drop_last() =~= values.take(n));
        lemma_numbers_prefix(values, n + 1);
    } else {
        assert(values.take(n) =~= values);
    }
}

// The power action that a word stands for.
fn read_action(word: &str) -> (r: Option<cli::cec::Action>)
    ensures
        r == action_of(word@),
{
    if same_text(word, "status") {
        Some(cli::cec::Action::Status)
    } else if same_text(word, "on") {
        Some(cli::cec::Action::On)
    } else if same_text(word, "off") {
        Some(cli::cec::Action::Off)
    } else {
        None
    }
}

// The `vcp` command that a level holds.
fn vcp_from(level: &Level) -> (r: Option<cli::vcp::Command>)
    ensures
        match r {
            Some(c) => vcp_of(level@) == Some(c@),
            None => vcp_of(level@) is None,
        },
{
    let name = level.name.as_str();
    let target = match one_value(level, "target") {
        Some(target) => target,
        None => return None,
    };
    if same_text(name, "caps") {
        return Some(cli::vcp::Command::Caps { target });
    }
    let code = match one_value(level, "code") {
        Some(code) => code,
        None => return None,
    };
    if same_text(name, "get") {
        Some(cli::vcp::Command::Get { target, code })
    } else if same_text(name, "set") {
        match one_value(level, "value") {
            Some(v) => match read_number(v.as_str()) {
                Some(value) => Some(cli::vcp::Command::Write { target, code, value }),
                None => None,
            },
            None => None,
        }
    } else if same_text(name, "switch") {
        let values = all_values(level, "values");
        match read_numbers(&values) {
            Some(values) => Some(cli::vcp::Command::Switch { target, code, values }),
            None => None,
        }
    } else {
        None
    }
}

// The command that the levels below the outermost hold.
fn command_from(levels: &[Level]) -> (r: Option<Command>)
    ensures
        match r {
            Some(c) => command_of(levels_of(levels@)) == Some(c@),
            None => command_of(levels_of(levels@)) is None,
        },
{
    if levels.len() < 2 {
        return None;
    }
    let level = &levels[1];
    assert(levels_of(levels@)[1] == level@);
    let name = level.name.as_str();
    let dry = DryRun { dry_run: has_flag(level, "dry_run") };
    if same_text(name, "list") {
        Some(Command::List { active: has_flag(level, "active"), json: has_flag(level, "json") })
    } else if same_text(name, "save-profile") {
        match one_value(level, "name") {
            Some(name) => Some(Command::SaveProfile { name, force: has_flag(level, "force") }),
            None => None,
        }
    } else if same_text(name, "apply-profile") {
        match one_value(level, "name") {
            Some(name) => Some(Command::ApplyProfile { name, dry }),
            None => None,
        }
    } else if same_text(name, "cec") {
        match one_value(level, "action") {
            Some(word) => match read_action(word.as_str()) {
                Some(action) => Some(Command::Cec { action, target: one_value(level, "target") }),
                None => None,
            },
            None => None,
        }
    } else if same_text(name, "vcp") {
        if levels.len() < 3 {
            return None;
        }
        assert(levels_of(levels@)[2] == levels@[2]@);
        match vcp_from(&levels[2]) {
            Some(command) => Some(Command::Vcp { command }),
            None => None,
        }
    } else if same_text(name, "switch") {
        Some(Command::Switch { profiles: all_values(level, "profiles"), dry })
    } else {
        None
    }
}

/// What is said of a command line that was read but holds no command.
pub open spec fn not_understood() -> Seq<char> {
    "the command line holds no command"@
}

/// What reading a command line comes to, given what clap made of it.
pub open spec fn invocation(result: Result<Seq<LevelView>, UsageView>) -> Result<
    CliView,
    UsageView,
> {
    match result {
        Ok(levels) => match cli_of(levels) {
            Some(cli) => Ok(cli),
            None => Err(
                UsageView { text: not_understood(), complaint: true, causes: Seq::empty() },
            ),
        },
        Err(usage) => Err(usage),
    }
}

/// What an invocation or a usage text says.
pub open spec fn invocation_view(r: Result<Cli, Usage>) -> Result<CliView, UsageView> {
    match r {
        Ok(cli) => Ok(cli@),
        Err(usage) => Err(usage@),
    }
}

/// The invocation that was read.
pub fn understand(read: Result<Vec<Level>, Usage>) -> (r: Result<Cli, Usage>)
    ensures
        invocation_view(r) == invocation(parse_view(read)),
{
    match read {
        Ok(levels) => match command_from(levels.as_slice()) {
            Some(command) => {
                assert(levels_of(levels@)[0] == levels@[0]@);
                Ok(Cli { config: one_value(&levels[0], "config"), command })
            },
            None => {
                let causes: Vec<String> = Vec::new();
                assert(texts(causes@) =~= Seq::empty());
                Err(
                    Usage {
                        text: "the command line holds no command".to_owned(),
                        complaint: true,
                        causes,
                    },
                )
            },
        },
        Err(usage) => Err(usage),
    }
}

/// Read the words of a command line, for a program that goes by a name.
pub fn parse_words(program: Option<String>, words: &[String], cec: bool) -> (r: Result<Cli, Usage>)
    ensures
        invocation_view(r) == invocation(
            clap_result(command_line(opt_text(program), cec), texts(words@)),
        ),
{
    understand(read_command_line(program, words, cec))
}

/// The words that a program was started with, without its own path or name.
pub open spec fn behind_program(words: Seq<Seq<char>>) -> Seq<Seq<char>> {
    if words.len() == 0 {
        words
    } else {
        words.skip(1)
    }
}

/// Read a command line, the program's path or name first among its words.
pub fn parse_args(argv: &[String], cec: bool) -> (r: Result<Cli, Usage>)
    ensures
        exists|program: Option<Seq<char>>| #[trigger]
            goes_by(texts(argv@), program) && invocation_view(r) == invocation(
                clap_result(command_line(program, cec), behind_program(texts(argv@))),
            ),
{
    let program = program_name(argv);
    let mut words: Vec<String> = Vec::new();
    let ghost expected = behind_program(texts(argv@));
    assert(texts(words@) =~= expected.take(0));
    let mut i: usize = 1;
    while i < argv.len()
        invariant
            1 <= i,
            i == 1 || i <= argv@.len(),
            expected == behind_program(texts(argv@)),
            texts(words@) == expected.take(i - 1),
        decreases argv.len() - i,
    {
        let ghost before = words@;
        words.push(argv[i].clone());
        assert(texts(words@) =~= texts(before).push(argv@[i as int]@));
        assert(expected.take(i as int) =~= expected.take(i - 1).push(argv@[i as int]@));
        i += 1;
    }
    assert(texts(words@) =~= expected);
    assert(goes_by(texts(argv@), opt_text(program)));
    parse_words(program, words.as_slice(), cec)
}

/// What the program goes by where it is not told.
pub open spec fn own_name() -> Option<Seq<char>> {
    Some("monitor-switcher"@)
}

/// What clap makes of the words of a command, behind the program's own name.
pub open spec fn typed(words: Seq<Seq<char>>, cec: bool) -> Result<Seq<LevelView>, UsageView> {
    clap_result(command_line(own_name(), cec), words)
}

/// Why a command was not understood, from what is said of it to what is behind
/// that.
pub open spec fn complaint_of(result: Result<Seq<LevelView>, UsageView>) -> Option<
    Seq<Seq<char>>,
> {
    match invocation(result) {
        Ok(_) => None,
        Err(usage) => Some(seq![usage.text] + usage.causes),
    }
}

/// Check that a command would be understood, without running it.
///
/// Used when the daemon starts, so that a typo in a configured hotkey is reported
/// then, rather than becoming a key that silently does nothing.
pub fn check_words(words: &[String], cec: bool) -> (r: Result<(), Error>)
    ensures
        match r {
            Ok(_) => complaint_of(typed(texts(words@), cec)) is None,
            Err(e) => complaint_of(typed(texts(words@), cec)) == Some(chain(e)),
        },
{
    match parse_words(Some("monitor-switcher".to_owned()), words, cec) {
        Ok(_) => Ok(()),
        Err(usage) => Err(layered(usage.text, usage.causes.as_slice())),
    }
}

/// The words of a command that is to run against a known config.
pub open spec fn against(config: Seq<char>, words: Seq<Seq<char>>) -> Seq<Seq<char>> {
    seq!["--config"@, config] + words
}

/// What a command comes to that is to run against a known config, given what clap
/// made of its own words, and of them behind that config. A command that names a
/// config of its own has it; any other has the known one.
pub open spec fn configured(
    own: Result<CliView, UsageView>,
    behind: Result<CliView, UsageView>,
    config: Seq<char>,
) -> Result<CliView, UsageView> {
    match (own, behind) {
        (Ok(cli), _) if cli.config is Some => Ok(cli),
        (_, Ok(cli)) => Ok(CliView { config: Some(config), command: cli.command }),
        (_, Err(usage)) => Err(usage),
    }
}

// The words of a command that is to run against a known config.
fn words_against(config: &str, words: &[String]) -> (r: Vec<String>)
    ensures
        texts(r@) == against(config@, texts(words@)),
{
    let mut all: Vec<String> = Vec::new();
    all.push("--config".to_owned());
    all.push(config.to_owned());
    assert(texts(all@) =~= against(config@, texts(words@).take(0)));
    for i in 0..words.len()
        invariant
            texts(all@) == against(config@, texts(words@).take(i as int)),
    {
        let ghost before = all@;
        all.push(words[i].clone());
        assert(texts(all@) =~= texts(before).push(words@[i as int]@));
        assert(against(config@, texts(words@).take(i + 1)) =~= against(
            config@,
            texts(words@).take(i as int),
        ).push(words@[i as int]@));
    }
    assert(texts(words@).take(words@.len() as int) =~= texts(words@));
    all
}

/// Understand a command written the way it would be typed, against a known
/// config. A command that names its own `--config` still wins.
///
/// This is how the daemon runs a hotkey's action.
pub fn run_words(words: &[String], config: &str, cec: bool) -> (r: Result<Cli, Error>)
    ensures
        match configured(
            invocation(typed(texts(words@), cec)),
            invocation(typed(against(config@, texts(words@)), cec)),
            config@,
        ) {
            Ok(cli) => r matches Ok(c) && c@ == cli,
            Err(usage) => r matches Err(e) && chain(e) == seq![usage.text] + usage.causes,
        },
{
    if let Ok(cli) = parse_words(Some("monitor-switcher".to_owned()), words, cec) {
        if cli.config.is_some() {
            return Ok(cli);
        }
    }
    let behind = words_against(config, words);
    match parse_words(Some("monitor-switcher".to_owned()), behind.as_slice(), cec) {
        Ok(cli) => Ok(Cli { config: Some(config.to_owned()), command: cli.command }),
        Err(usage) => Err(layered(usage.text, usage.causes.as_slice())),
    }
}

/// A hotkey's action runs against the daemon's config, unless it names one of its
/// own, which then counts.
pub proof fn law_a_command_has_its_own_config_or_the_known_one(
    own: Result<CliView, UsageView>,
    behind: Result<CliView, UsageView>,
    config: Seq<char>,
)
    ensures
        configured(own, behind, config) matches Ok(cli) ==> cli.config == match own {
            Ok(alone) if alone.config is Some => alone.config,
            _ => Some(config),
        },
{
}

// ---------------------------------------------------------------------------
// Running
// ---------------------------------------------------------------------------

/// Where the config file is.
#[derive(Debug)]
pub enum ConfigPlace {
    /// Where the invocation says.
    Given { path: String },
    /// At the usual place, in parts.
    Usual { parts: Vec<String> },
}

/// What it takes to run an invocation.
#[derive(Debug)]
pub struct Run {
    pub config: ConfigPlace,
    /// Whether the displays are looked at before the config is read.
    pub displays_first: bool,
    /// Whether there has to be a config; without one, an empty one will do.
    pub needs_config: bool,
    pub command: Command,
}

/// Whether a command looks at the displays before it reads the config.
pub open spec fn looks_first(command: Command) -> bool {
    command is List || command is SaveProfile
}

/// Whether a command cannot do anything useful without a config.
pub open spec fn needs_config(command: Command) -> bool {
    command is ApplyProfile || command is Cec || command is Switch
}

/// Work out what it takes to run an invocation. The usual place of the config
/// matters only where the invocation does not say where it is.
pub fn run(cli: Cli, local_app_data: Result<String, String>) -> (r: Result<Run, Error>)
    ensures
        match r {
            Ok(plan) => {
                &&& plan.command == cli.command
                &&& plan.displays_first == looks_first(cli.command)
                &&& plan.needs_config == needs_config(cli.command)
                &&& match cli.config {
                    Some(path) => plan.config == (ConfigPlace::Given { path }),
                    None => {
                        &&& local_app_data matches Ok(base)
                        &&& plan.config matches ConfigPlace::Usual { parts }
                        &&& texts(parts@) == default_parts(base@)
                    },
                }
            },
            Err(e) => {
                &&& cli.config is None
                &&& local_app_data matches Err(why) && chain(e) == seq![no_place(), why@]
            },
        },
{
    let config = match cli.config {
        Some(path) => ConfigPlace::Given { path },
        None => match Config::default_path(local_app_data) {
            Ok(parts) => ConfigPlace::Usual { parts },
            Err(e) => return Err(e),
        },
    };
    let command = cli.command;
    let displays_first = match &command {
        Command::List { .. } => true,
        Command::SaveProfile { .. } => true,
        _ => false,
    };
    let needs_config = match &command {
        Command::ApplyProfile { .. } => true,
        Command::Cec { .. } => true,
        Command::Switch { .. } => true,
        _ => false,
    };
    Ok(Run { config, displays_first, needs_config, command })
}

/// The two profiles that `switch` is about: those it was given, or the config's.
pub fn switch_names(config: &Config, profiles: &[String]) -> (r: Result<(String, String), Error>)
    ensures
        if profiles@.len() == 0 {
            match config.switch {
                None => r matches Err(e) && e == Error::NoSwitchPair,
                Some(pair) => if pair@.len() == 2 {
                    r matches Ok(names) && names.0 == pair@[0] && names.1 == pair@[1]
                } else {
                    r matches Err(e) && e == (Error::BadSwitchPair { found: pair@.len() as usize })
                },
            }
        } else if profiles@.len() == 2 {
            r matches Ok(names) && names.0 == profiles@[0] && names.1 == profiles@[1]
        } else {
            r matches Err(e) && chain(e) == seq![
                "switch takes either no profiles or exactly 2"@,
            ]
        },
{
    if profiles.len() == 0 {
        config.switch_pair()
    } else if profiles.len() == 2 {
        Ok((profiles[0].clone(), profiles[1].clone()))
    } else {
        Err(Error::Plain { why: "switch takes either no profiles or exactly 2".to_owned() })
    }
}

/// What is said of a profile that was applied.
pub open spec fn outcome_line(profile: Seq<char>, outcome: Outcome) -> Seq<char> {
    match outcome {
        Outcome::AlreadyActive => "\""@ + profile + "\" is already active"@,
        Outcome::Validated => "\""@ + profile + "\" validates; nothing was changed"@,
        Outcome::Applied(tier) => "Applied \""@ + profile + "\" — "@ + tier.described(),
    }
}

/// What is said of a profile that was applied, and of the power control that went
/// with it.
pub open spec fn report_text(profile: Seq<char>, report: Report) -> Seq<Seq<char>> {
    seq![outcome_line(profile, report.outcome)] + texts(report.cec@).map_values(
        |note: Seq<char>| "  "@ + note,
    )
}

/// The lines on a profile that was applied.
pub fn report(profile: &str, done: &Report) -> (r: Vec<String>)
    ensures
        texts(r@) == report_text(profile@, *done),
{
    let mut lines: Vec<String> = Vec::new();
    let first = match done.outcome {
        Outcome::AlreadyActive => cat3("\"", profile, "\" is already active"),
        Outcome::Validated => cat3("\"", profile, "\" validates; nothing was changed"),
        Outcome::Applied(tier) => cat4("Applied \"", profile, "\" — ", tier.describe()),
    };
    lines.push(first);
    let ghost notes = texts(done.cec@).map_values(|note: Seq<char>| "  "@ + note);
    let ghost head = seq![outcome_line(profile@, done.outcome)];
    assert(texts(lines@) =~= head + notes.take(0));
    for i in 0..done.cec.len()
        invariant
            notes == texts(done.cec@).map_values(|note: Seq<char>| "  "@ + note),
            texts(lines@) == head + notes.take(i as int),
    {
        let ghost before = lines@;
        let line = cat2("  ", done.cec[i].as_str());
        lines.push(line);
        assert(texts(lines@) =~= texts(before).push(line@));
        assert(head + notes.take(i + 1) =~= (head + notes.take(i as int)).push(notes[i as int]));
    }
    assert(notes.take(done.cec@.len() as int) =~= notes);
    lines
}

// ---------------------------------------------------------------------------
// What holds of lines and commands
// ---------------------------------------------------------------------------

/// A double quote opens quotes or closes them; nothing else does either.
pub proof fn law_a_quote_opens_or_closes(s: Seq<char>, c: char)
    ensures
        !in_quotes(Seq::empty()),
        c == '"' ==> in_quotes(s.push(c)) != in_quotes(s),
        c != '"' ==> in_quotes(s.push(c)) == in_quotes(s),
        unquoted(Seq::empty()).len() == 0,
        c == '"' ==> unquoted(s.push(c)) == unquoted(s),
        c != '"' ==> unquoted(s.push(c)) == unquoted(s).push(c),
{
    assert(s.push(c).drop_last() =~= s);
}

// Pieces behind a gap are pieces on their own.
proof fn lemma_runs_behind_gap(a: Seq<char>, c: char, b: Seq<char>)
    requires
        !in_quotes(a),
        whitespace(c),
        c != '"',
    ensures
        runs(a + seq![c] + b) == runs(a) + runs(b),
        in_quotes(a + seq![c] + b) == in_quotes(b),
    decreases b.len(),
{
    let all = a + seq![c] + b;
    lemma_runs_nonempty(b);
    if b.len() == 0 {
        assert(all =~= a.push(c));
        assert(all.drop_last() =~= a);
        assert(runs(all) =~= runs(a) + runs(b));
    } else {
        let less = b.drop_last();
        lemma_runs_behind_gap(a, c, less);
        lemma_runs_nonempty(less);
        assert(all.drop_last() =~= a + seq![c] + less);
        assert(all.last() == b.last());
        let (x, y) = (runs(a), runs(less));
        assert((x + y).drop_last() =~= x + y.drop_last());
        assert((x + y).last() == y.last());
        assert(runs(all) =~= x + runs(b));
    }
}

// The words of pieces in a row are those of each in a row.
proof fn lemma_words_in_row(x: Seq<Seq<char>>, y: Seq<Seq<char>>)
    ensures
        words_in(x + y) == words_in(x) + words_in(y),
    decreases y.len(),
{
    if y.len() == 0 {
        assert(x + y =~= x);
        assert(words_in(x) + words_in(y) =~= words_in(x));
    } else {
        lemma_words_in_row(x, y.drop_last());
        assert((x + y).drop_last() =~= x + y.drop_last());
        assert((x + y).last() == y.last());
        assert(words_in(x + y) =~= words_in(x) + words_in(y));
    }
}

/// White space outside quotes separates words, however much of it there is: the words of
/// a line are those in front of it and those behind it.
pub proof fn law_white_space_separates_words(a: Seq<char>, c: char, b: Seq<char>)
    requires
        !in_quotes(a),
        whitespace(c),
    ensures
        words_of(a + seq![c] + b) == words_of(a) + words_of(b),
        words_of(Seq::empty()).len() == 0,
{
    lemma_runs_behind_gap(a, c, b);
    lemma_words_in_row(runs(a), runs(b));
    reveal_with_fuel(words_in, 2);
    assert(seq![Seq::<char>::empty()].drop_last() =~= Seq::empty());
}

/// What touches is one word: a text without white space outside its quotes is a single
/// word, without the quotes.
pub proof fn law_what_touches_is_one_word(s: Seq<char>)
    requires
        s.len() > 0,
        forall|i: int| 0 <= i < s.len() && whitespace(#[trigger] s[i]) ==> in_quotes(s.take(i)),
    ensures
        words_of(s) == seq![unquoted(s)],
{
    lemma_one_piece(s);
    reveal_with_fuel(words_in, 2);
    assert(seq![s].drop_last() =~= Seq::empty());
    assert(words_in(seq![s]) =~= seq![unquoted(s)]);
}

// A text without white space outside its quotes is one piece.
proof fn lemma_one_piece(s: Seq<char>)
    requires
        forall|i: int| 0 <= i < s.len() && whitespace(#[trigger] s[i]) ==> in_quotes(s.take(i)),
    ensures
        runs(s) == seq![s],
    decreases s.len(),
{
    if s.len() > 0 {
        let less = s.drop_last();
        assert forall|i: int| 0 <= i < less.len() && whitespace(#[trigger] less[i]) implies
            in_quotes(less.take(i)) by {
            assert(less[i] == s[i]);
            assert(less.take(i) =~= s.take(i));
        }
        lemma_one_piece(less);
        assert(s.take(s.len() - 1) =~= less);
        assert(s[s.len() - 1] == s.last());
        assert(less.push(s.last()) =~= s);
        assert(runs(s) =~= seq![s]);
    } else {
        assert(s =~= Seq::empty());
    }
}

/// The values of an argument are those given under its id; there are none where it was
/// not given. The first of several mentions counts.
pub proof fn law_values_go_by_their_argument(level: LevelView, id: Seq<char>, i: int)
    requires
        0 <= i <= level.values.len(),
        i < level.values.len() ==> level.values[i].0 == id,
        forall|j: int| 0 <= j < i ==> (#[trigger] level.values[j]).0 != id,
    ensures
        i < level.values.len() ==> given(level, id) == level.values[i].1,
        i == level.values.len() ==> given(level, id).len() == 0,
        one(level, id) == if given(level, id).len() > 0 {
            Some(given(level, id)[0])
        } else {
            None
        },
        flagged(level, id) <==> given(level, id).len() > 0 && given(level, id)[0] == "true"@,
{
    lemma_first_where_is(level.values, named(id), i);
}

/// A number reads as itself, up to the largest of 32 bits, and none is read beyond that.
pub proof fn law_a_number_reads_as_itself(n: nat)
    ensures
        n <= u32::MAX ==> number_of(decimal(n)) == Some(n as u32),
        n > u32::MAX ==> number_of(decimal(n)) is None,
        n > 0 ==> number_of(seq!['-'] + decimal(n)) is None,
{
    lemma_decimal_reads_back(n);
    assert(ascii_digit(decimal(n)[0]));
    assert((seq!['-'] + decimal(n)).skip(1) =~= decimal(n));
}

/// Numbers in a row are read one by one, and one that is none spoils them all.
pub proof fn law_numbers_are_read_one_by_one(values: Seq<Seq<char>>, i: int)
    requires
        0 <= i < values.len(),
    ensures
        numbers_of(values) matches Some(ns) ==> ns.len() == values.len() && number_of(values[i])
            == Some(ns[i]),
        number_of(values[i]) is None ==> numbers_of(values) is None,
    decreases values.len(),
{
    if i < values.len() - 1 {
        law_numbers_are_read_one_by_one(values.drop_last(), i);
    } else if values.len() > 1 {
        law_numbers_are_read_one_by_one(values.drop_last(), 0);
    }
}

/// Each command is the one that was named, with what was given for its arguments.
pub proof fn law_each_command_is_the_one_that_was_named(levels: Seq<LevelView>)
    requires
        levels.len() >= 2,
    ensures
        ({
            let (level, c) = (levels[1], command_of(levels));
            let dry = flagged(level, "dry_run"@);
            &&& level.name == "list"@ ==> c == Some(
                CommandView::List {
                    active: flagged(level, "active"@),
                    json: flagged(level, "json"@),
                },
            )
            &&& level.name == "save-profile"@ && one(level, "name"@) is Some ==> c == Some(
                CommandView::SaveProfile {
                    name: one(level, "name"@)->0,
                    force: flagged(level, "force"@),
                },
            )
            &&& level.name == "apply-profile"@ && one(level, "name"@) is Some ==> c == Some(
                CommandView::ApplyProfile {
                    name: one(level, "name"@)->0,
                    dry: DryRun { dry_run: dry },
                },
            )
            &&& level.name == "switch"@ ==> c == Some(
                CommandView::Switch {
                    profiles: given(level, "profiles"@),
                    dry: DryRun { dry_run: dry },
                },
            )
            &&& level.name == "cec"@ && one(level, "action"@) == Some("status"@) ==> c == Some(
                CommandView::Cec {
                    action: cli::cec::Action::Status,
                    target: one(level, "target"@),
                },
            )
            &&& level.name == "cec"@ && one(level, "action"@) == Some("on"@) ==> c == Some(
                CommandView::Cec { action: cli::cec::Action::On, target: one(level, "target"@) },
            )
            &&& level.name == "cec"@ && one(level, "action"@) == Some("off"@) ==> c == Some(
                CommandView::Cec { action: cli::cec::Action::Off, target: one(level, "target"@) },
            )
            &&& level.name == "vcp"@ && levels.len() >= 3 ==> (c is Some <==> vcp_of(levels[2])
                is Some) && (c is Some ==> c == Some(
                CommandView::Vcp { command: vcp_of(levels[2])->0 },
            ))
            &&& c is Some ==> level.name == "list"@ || level.name == "save-profile"@ || level.name
                == "apply-profile"@ || level.name == "switch"@ || level.name == "cec"@ || level.name
                == "vcp"@
            &&& cli_of(levels) matches Some(cli) ==> cli.config == one(levels[0], "config"@)
                && Some(cli.command) == c
        }),
{
    lemma_command_words();
}

/// Each `vcp` command is the one that was named, about the display and the feature that
/// were given.
pub proof fn law_each_vcp_command_is_the_one_that_was_named(level: LevelView)
    requires
        one(level, "target"@) is Some,
    ensures
        ({
            let (target, code) = (one(level, "target"@)->0, one(level, "code"@));
            let (value, values) = (one(level, "value"@), given(level, "values"@));
            &&& level.name == "caps"@ ==> vcp_of(level) == Some(VcpView::Caps { target })
            &&& level.name == "get"@ && code is Some ==> vcp_of(level) == Some(
                VcpView::Get { target, code: code->0 },
            )
            &&& level.name == "set"@ && code is Some && value is Some && number_of(value->0) is Some
                ==> vcp_of(level) == Some(
                VcpView::Write { target, code: code->0, value: number_of(value->0)->0 },
            )
            &&& level.name == "switch"@ && code is Some && numbers_of(values) is Some ==> vcp_of(
                level,
            ) == Some(VcpView::Switch { target, code: code->0, values: numbers_of(values)->0 })
        }),
{
    lemma_command_words();
}

// What the words that stand for commands hold.
proof fn lemma_command_words()
    ensures
        "list"@.len() == 4 && "list"@[0] == 'l',
        "save-profile"@.len() == 12 && "save-profile"@[0] == 's',
        "apply-profile"@.len() == 13 && "apply-profile"@[0] == 'a',
        "switch"@.len() == 6 && "switch"@[0] == 's',
        "cec"@.len() == 3 && "cec"@[0] == 'c',
        "vcp"@.len() == 3 && "vcp"@[0] == 'v',
        "caps"@.len() == 4 && "caps"@[0] == 'c',
        "get"@.len() == 3 && "get"@[0] == 'g',
        "set"@.len() == 3 && "set"@[0] == 's',
        "status"@.len() == 6 && "on"@.len() == 2 && "off"@.len() == 3,
{
    reveal_strlit("list");
    reveal_strlit("save-profile");
    reveal_strlit("apply-profile");
    reveal_strlit("switch");
    reveal_strlit("cec");
    reveal_strlit("vcp");
    reveal_strlit("caps");
    reveal_strlit("get");
    reveal_strlit("set");
    reveal_strlit("status");
    reveal_strlit("on");
    reveal_strlit("off");
}

/// A command that names its own config is as it was read; any other is what was read
/// behind the known config, and fails as that did.
pub proof fn law_a_command_is_read_against_a_config(
    own: Result<CliView, UsageView>,
    behind: Result<CliView, UsageView>,
    config: Seq<char>,
    words: Seq<Seq<char>>,
)
    ensures
        own matches Ok(cli) && cli.config is Some ==> configured(own, behind, config) == own,
        !(own matches Ok(cli) && cli.config is Some) ==> match behind {
            Ok(cli) => configured(own, behind, config) == Ok::<CliView, UsageView>(
                CliView { config: Some(config), command: cli.command },
            ),
            Err(usage) => configured(own, behind, config) == Err::<CliView, UsageView>(usage),
        },
        against(config, words).len() == words.len() + 2,
        against(config, words)[0] == "--config"@ && against(config, words)[1] == config,
        against(config, words).skip(2) == words,
        own_name() == Some("monitor-switcher"@),
{
    assert(against(config, words).skip(2) =~= words);
}

/// What could not be read is reported as it came back; what was read but holds no command
/// is a complaint of its own.
pub proof fn law_what_was_not_read_is_reported(result: Result<Seq<LevelView>, UsageView>)
    ensures
        match result {
            Err(usage) => invocation(result) == Err::<CliView, UsageView>(usage) && complaint_of(
                result,
            ) == Some(seq![usage.text] + usage.causes),
            Ok(levels) => match cli_of(levels) {
                Some(cli) => invocation(result) == Ok::<CliView, UsageView>(cli) && complaint_of(
                    result,
                ) is None,
                None => invocation(result) matches Err(usage) && usage.complaint && usage.text
                    == "the command line holds no command"@ && usage.causes.len() == 0
                    && complaint_of(result) == Some(seq![usage.text]),
            },
        },
{
}

/// Listing and saving look at the displays before they read the config. Applying,
/// switching and power control need a config; listing, saving and monitors' settings do
/// without one.
pub proof fn law_what_each_command_takes(
    name: String,
    force: bool,
    dry: DryRun,
    action: cli::cec::Action,
    target: Option<String>,
    command: cli::vcp::Command,
    profiles: Vec<String>,
)
    ensures
        looks_first(Command::List { active: force, json: force }) && !needs_config(
            Command::List { active: force, json: force },
        ),
        looks_first(Command::SaveProfile { name, force }) && !needs_config(
            Command::SaveProfile { name, force },
        ),
        !looks_first(Command::ApplyProfile { name, dry }) && needs_config(
            Command::ApplyProfile { name, dry },
        ),
        !looks_first(Command::Cec { action, target }) && needs_config(
            Command::Cec { action, target },
        ),
        !looks_first(Command::Vcp { command }) && !needs_config(Command::Vcp { command }),
        !looks_first(Command::Switch { profiles, dry }) && needs_config(
            Command::Switch { profiles, dry },
        ),
{
}

/// What is said of a profile that was applied names it and says which of the three things
/// happened, and where the modes came from if it was changed; each note follows on a line
/// of its own.
pub proof fn law_an_outcome_is_reported(profile: Seq<char>, report: Report, i: int)
    ensures
        ({
            let lines = report_text(profile, report);
            &&& lines.len() == report.cec@.len() + 1
            &&& report.outcome == Outcome::AlreadyActive ==> lines[0] == "\""@ + profile
                + "\" is already active"@
            &&& report.outcome == Outcome::Validated ==> lines[0] == "\""@ + profile
                + "\" validates; nothing was changed"@
            &&& report.outcome == Outcome::Applied(Tier::Database) ==> lines[0] == "Applied \""@
                + profile + "\" — "@
                + "using the saved layout from Windows' display database"@
            &&& report.outcome == Outcome::Applied(Tier::BestMode) ==> lines[0] == "Applied \""@
                + profile + "\" — "@
                + "Windows had no saved layout for this combination and picked modes itself"@
            &&& 0 <= i < report.cec@.len() ==> lines[i + 1] == "  "@ + report.cec@[i]@
        }),
{
}

/// The words behind the program's own are all that is read, in order.
pub proof fn law_the_programs_own_word_is_not_read(words: Seq<Seq<char>>, i: int)
    ensures
        words.len() > 0 ==> behind_program(words).len() == words.len() - 1,
        words.len() == 0 ==> behind_program(words).len() == 0,
        1 <= i < words.len() ==> behind_program(words)[i - 1] == words[i],
{
}

/// The usual place of the config is a file of its own in a directory of its own, under
/// the place that Windows keeps for such.
pub proof fn law_the_usual_place_of_the_config(base: Seq<char>)
    ensures
        default_parts(base) == seq![base, "monitor-switcher"@, "config.json"@],
        no_place() == "LOCALAPPDATA is not set; pass --config with an explicit path"@,
{
}

/// A command runs with the config that was given for it, or the one at the usual place;
/// it fails only where there is neither, and says so with the cause.
pub proof fn law_a_command_runs_with_its_config(
    cli: Cli,
    local_app_data: Result<String, String>,
    r: Result<Run, Error>,
)
    requires
        call_ensures(run, (cli, local_app_data), r),
    ensures
        r is Err <==> cli.config is None && local_app_data is Err,
        r matches Ok(plan) ==> plan.command == cli.command && plan.displays_first == looks_first(
            cli.command,
        ) && plan.needs_config == needs_config(cli.command),
        cli.config matches Some(path) ==> (r matches Ok(plan) && plan.config == (
        ConfigPlace::Given { path })),
        cli.config is None && local_app_data is Ok ==> (r matches Ok(plan)
            && plan.config matches ConfigPlace::Usual { parts } && texts(parts@) == seq![
            local_app_data->Ok_0@,
            "monitor-switcher"@,
            "config.json"@,
        ]),
{
}

/// Two profiles that are given are switched between, in their order; where none is given
/// the configured pair is; and one alone, or more than two, is refused.
pub proof fn law_profiles_to_switch_between(
    config: &Config,
    profiles: &[String],
    r: Result<(String, String), Error>,
)
    requires
        call_ensures(switch_names, (config, profiles), r),
    ensures
        profiles@.len() == 2 ==> r == Ok::<(String, String), Error>((profiles@[0], profiles@[1])),
        profiles@.len() == 1 || profiles@.len() > 2 ==> (r matches Err(e) && chain(e) == seq![
            "switch takes either no profiles or exactly 2"@,
        ]),
        profiles@.len() == 0 ==> (r is Ok <==> (config.switch matches Some(pair) && pair@.len()
            == 2)),
        profiles@.len() == 0 && r is Ok ==> (config.switch matches Some(pair) && r->Ok_0.0
            == pair@[0] && r->Ok_0.1 == pair@[1]),
{
}

/// The laws on words, commands and reports are about what the functions here return.
pub proof fn law_a_line_is_read_as_stated(
    line: &str,
    words: &[String],
    read: Result<Vec<Level>, Usage>,
    program: Option<String>,
    config: &str,
    cec: bool,
    done: &Report,
)
    ensures
        forall|r: Vec<String>| call_ensures(split_words, (line,), r) ==> texts(r@) == words_of(line@),
        forall|r: Result<Cli, Usage>|
            call_ensures(understand, (read,), r) ==> invocation_view(r) == invocation(
                parse_view(read),
            ),
        forall|r: Result<Cli, Usage>|
            call_ensures(parse_words, (program, words, cec), r) ==> invocation_view(r)
                == invocation(clap_result(command_line(opt_text(program), cec), texts(words@))),
        forall|r: Result<(), Error>|
            call_ensures(check_words, (words, cec), r) ==> match r {
                Ok(_) => complaint_of(typed(texts(words@), cec)) is None,
                Err(e) => complaint_of(typed(texts(words@), cec)) == Some(chain(e)),
            },
        forall|r: Vec<String>|
            call_ensures(report, (line, done), r) ==> texts(r@) == report_text(line@, *done),
        typed(texts(words@), cec) == clap_result(
            command_line(Some("monitor-switcher"@), cec),
            texts(words@),
        ),
{
}

} // verus!
