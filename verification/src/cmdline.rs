//! The command line's grammar, and having clap read words by it.
//!
//! The grammar is built up of plain descriptions, so that what clap is asked to
//! understand is stated here; how it reads words is clap's own business. What it
//! found comes back as plain text, level by level.

use clap::builder::{
    PossibleValue, PossibleValuesParser, Resettable, Str, StyledStr, ValueParser,
    ValueParserFactory, ValueRange,
};
use clap::Command as Grammar;
use clap::{Arg, ArgAction};
use std::error::Error as _;
use std::iter::successors;
use vstd::prelude::*;
use vstd::string::*;

use crate::text::{split, texts};
use crate::winerr::opt_text;

verus! {

/// `clap::Command`: a command line's grammar, in clap's own form.
#[verifier::external_type_specification]
#[verifier::external_body]
pub struct ExGrammar(Grammar);

/// `clap::builder::ValueParser`: what reads a value, in clap's own form.
#[verifier::external_type_specification]
#[verifier::external_body]
pub struct ExValueParser(ValueParser);

/// How many values an argument takes, and how often it is given.
#[derive(Debug, Clone, Copy, PartialEq, Eq, Structural)]
pub enum Takes {
    /// None: it is there or it is not.
    Flag,
    /// One value.
    One,
    /// A row of values.
    Many,
}

/// What the values of an argument have to be.
#[derive(Debug)]
pub enum Accepts {
    /// There are none.
    Presence,
    /// Any text.
    Text,
    /// A path.
    Path,
    /// A number of 32 bits.
    Number,
    /// One of some words, each with what it means.
    Words { words: Vec<(String, String)> },
}

/// What the values of an argument have to be.
pub enum AcceptsView {
    Presence,
    Text,
    Path,
    Number,
    Words { words: Seq<(Seq<char>, Seq<char>)> },
}

/// What words say, each with what it means.
pub open spec fn explained(words: Seq<(String, String)>) -> Seq<(Seq<char>, Seq<char>)> {
    words.map_values(|w: (String, String)| (w.0@, w.1@))
}

impl View for Accepts {
    type V = AcceptsView;

    open spec fn view(&self) -> AcceptsView {
        match *self {
            Accepts::Presence => AcceptsView::Presence,
            Accepts::Text => AcceptsView::Text,
            Accepts::Path => AcceptsView::Path,
            Accepts::Number => AcceptsView::Number,
            Accepts::Words { words } => AcceptsView::Words { words: explained(words@) },
        }
    }
}

/// One argument of a command.
#[derive(Debug)]
pub struct ArgSpec {
    pub id: String,
    /// The name behind two dashes; an argument without one goes by its position.
    pub long: Option<String>,
    pub value_name: Option<String>,
    pub help: Option<String>,
    /// Whether it is understood behind subcommands too.
    pub global: bool,
    pub required: bool,
    /// The least and the greatest number of values, where that is not for what it
    /// takes to say.
    pub values: Option<(usize, usize)>,
    pub takes: Takes,
    pub accepts: Accepts,
}

/// One argument of a command.
pub struct ArgView {
    pub id: Seq<char>,
    pub long: Option<Seq<char>>,
    pub value_name: Option<Seq<char>>,
    pub help: Option<Seq<char>>,
    pub global: bool,
    pub required: bool,
    pub values: Option<(usize, usize)>,
    pub takes: Takes,
    pub accepts: AcceptsView,
}

impl View for ArgSpec {
    type V = ArgView;

    open spec fn view(&self) -> ArgView {
        ArgView {
            id: self.id@,
            long: opt_text(self.long),
            value_name: opt_text(self.value_name),
            help: opt_text(self.help),
            global: self.global,
            required: self.required,
            values: self.values,
            takes: self.takes,
            accepts: self.accepts@,
        }
    }
}

/// A command: what it is called, whether it has to be followed by a subcommand,
/// and what it understands.
pub struct GrammarView {
    pub name: Seq<char>,
    /// What the program goes by in what is said about its command line, where that
    /// is known.
    pub program: Option<Seq<char>>,
    pub about: Seq<char>,
    pub version: Option<Seq<char>>,
    pub needs_subcommand: bool,
    pub args: Seq<ArgView>,
    pub subcommands: Seq<GrammarView>,
}

impl GrammarView {
    /// A command of a program that goes by a name.
    pub open spec fn of_program(self, program: Option<Seq<char>>) -> GrammarView {
        GrammarView { program, ..self }
    }

    /// A command that understands one argument more.
    pub open spec fn plus_arg(self, arg: ArgView) -> GrammarView {
        GrammarView { args: self.args.push(arg), ..self }
    }

    /// A command that understands one subcommand more.
    pub open spec fn plus_subcommand(self, sub: GrammarView) -> GrammarView {
        GrammarView { subcommands: self.subcommands.push(sub), ..self }
    }
}

/// The arguments and subcommands that a `clap::Command` holds, and what was set of
/// it as a whole.
pub uninterp spec fn grammar_of(cmd: Grammar) -> GrammarView;

/// `clap::Command::new`, with `about`, `version`, `subcommand_required`,
/// `arg_required_else_help` and `no_binary_name`: a command that so far holds no
/// argument and no subcommand, of a program whose name is not known. Words that are
/// read by it do not have the program's name before them.
#[verifier::external_body]
fn new_command(name: &str, about: &str, version: Option<&str>, needs_subcommand: bool) -> (r:
    Grammar)
    ensures
        grammar_of(r) == (GrammarView {
            name: name@,
            program: None,
            about: about@,
            version: match version {
                Some(v) => Some(v@),
                None => None,
            },
            needs_subcommand,
            args: Seq::empty(),
            subcommands: Seq::empty(),
        }),
{
    Grammar::new(name.to_owned())
        .about(about.to_owned())
        .version(Resettable::from(version.map(|v| Str::from(v.to_owned()))))
        .subcommand_required(needs_subcommand)
        .arg_required_else_help(needs_subcommand)
        .no_binary_name(true)
}

/// `clap::Command::bin_name`: the program goes by the given name, or by none that
/// is known, and nothing else of the command changes.
#[verifier::external_body]
fn with_program(cmd: Grammar, program: Option<String>) -> (r: Grammar)
    ensures
        grammar_of(r) == grammar_of(cmd).of_program(opt_text(program)),
{
    cmd.bin_name(Resettable::from(program))
}

/// What the values that a `clap::builder::ValueParser` lets through have to be.
pub uninterp spec fn parser_of(parser: ValueParser) -> AcceptsView;

/// The parsers of `clap::builder`, one for each kind of value: `bool`, `string` and
/// `path_buf` of `ValueParser`, the `ValueParserFactory` of `u32`, and
/// `PossibleValuesParser` over the given words, as `PossibleValue`s with their help.
#[verifier::external_body]
fn value_parser(accepts: &Accepts) -> (r: ValueParser)
    ensures
        parser_of(r) == accepts@,
{
    match accepts {
        Accepts::Presence => ValueParser::bool(),
        Accepts::Text => ValueParser::string(),
        Accepts::Path => ValueParser::path_buf(),
        Accepts::Number => <u32 as ValueParserFactory>::value_parser().into(),
        Accepts::Words { words } => PossibleValuesParser::new(
            words.iter().map(|w| PossibleValue::new(w.0.clone()).help(w.1.clone())),
        ).into(),
    }
}

/// `clap::Command::arg`: the command holds the argument, behind those it held
/// before, and nothing else of it changes. A range of values that is the wrong way
/// round would be refused by `clap::builder::ValueRange::new`, with a panic.
#[verifier::external_body]
fn hold_arg(cmd: Grammar, spec: ArgSpec, parser: ValueParser) -> (r: Grammar)
    requires
        parser_of(parser) == spec.accepts@,
        spec.values matches Some(v) ==> v.0 <= v.1,
    ensures
        grammar_of(r) == grammar_of(cmd).plus_arg(spec@),
{
    let arg = Arg::new(spec.id).global(spec.global).required(spec.required)
        .long(Resettable::from(spec.long.map(Str::from)))
        .value_name(Resettable::from(spec.value_name.map(Str::from)))
        .help(Resettable::from(spec.help.map(StyledStr::from)))
        .num_args(Resettable::from(spec.values.map(|v| ValueRange::new(v.0..=v.1))))
        .value_parser(parser);
    cmd.arg(match spec.takes {
        Takes::Flag => arg.action(ArgAction::SetTrue),
        Takes::One => arg.action(ArgAction::Set),
        Takes::Many => arg.action(ArgAction::Append),
    })
}

// A command that understands one argument more.
fn with_arg(cmd: Grammar, spec: ArgSpec) -> (r: Grammar)
    requires
        spec@.values matches Some(v) ==> v.0 <= v.1,
    ensures
        grammar_of(r) == grammar_of(cmd).plus_arg(spec@),
{
    let parser = value_parser(&spec.accepts);
    hold_arg(cmd, spec, parser)
}

/// `clap::Command::subcommand`: the command holds the subcommand, behind those it
/// held before, and nothing else of it changes.
#[verifier::external_body]
fn with_subcommand(cmd: Grammar, sub: Grammar) -> (r: Grammar)
    ensures
        grammar_of(r) == grammar_of(cmd).plus_subcommand(grammar_of(sub)),
{
    cmd.subcommand(sub)
}

/// What was given on one level of a command line: the command, and the values of
/// each of its arguments.
#[derive(Debug)]
pub struct Level {
    pub name: String,
    pub values: Vec<(String, Vec<String>)>,
}

/// What was given on one level of a command line.
pub struct LevelView {
    pub name: Seq<char>,
    pub values: Seq<(Seq<char>, Seq<Seq<char>>)>,
}

impl View for Level {
    type V = LevelView;

    open spec fn view(&self) -> LevelView {
        LevelView {
            name: self.name@,
            values: self.values@.map_values(|v: (String, Vec<String>)| (v.0@, texts(v.1@))),
        }
    }
}

/// What levels hold.
pub open spec fn levels_of(levels: Seq<Level>) -> Seq<LevelView> {
    levels.map_values(|l: Level| l@)
}

/// Why words are no command, or the help or version that they ask for.
#[derive(Debug)]
pub struct Usage {
    pub text: String,
    /// Whether it is a complaint, rather than an answer.
    pub complaint: bool,
    /// What is behind a complaint, one cause after the other.
    pub causes: Vec<String>,
}

/// Why words are no command, or the help or version that they ask for.
pub struct UsageView {
    pub text: Seq<char>,
    pub complaint: bool,
    pub causes: Seq<Seq<char>>,
}

impl View for Usage {
    type V = UsageView;

    open spec fn view(&self) -> UsageView {
        UsageView { text: self.text@, complaint: self.complaint, causes: texts(self.causes@) }
    }
}

/// What clap makes of words by a grammar: what was given on each level, from the
/// outermost command in, or why it is no command.
pub uninterp spec fn clap_result(grammar: GrammarView, words: Seq<Seq<char>>) -> Result<
    Seq<LevelView>,
    UsageView,
>;

/// What a parse came to, in terms of what it says.
pub open spec fn parse_view(r: Result<Vec<Level>, Usage>) -> Result<Seq<LevelView>, UsageView> {
    match r {
        Ok(levels) => Ok(levels_of(levels@)),
        Err(usage) => Err(usage@),
    }
}

/// `clap::Command::try_get_matches_from`: what clap makes of the words depends on
/// the grammar and the words alone. Each level of its matches comes out as the
/// arguments present on it, defaults among them, with their values as written. An
/// error comes out as its text, whether it belongs on the error stream, and the
/// texts of the errors that `std::error::Error::source` leads to from it, one
/// behind the other. It is called for the one grammar of this program, which clap
/// has no objection to. How clap reads words is left unsaid.
#[verifier::external_body]
fn read_words(cmd: Grammar, words: &[String]) -> (r: Result<Vec<Level>, Usage>)
    requires
        exists|program: Option<Seq<char>>, cec: bool|
            grammar_of(cmd) == #[trigger] command_line(program, cec),
    ensures
        parse_view(r) == clap_result(grammar_of(cmd), texts(words@)),
{
    let (mut name, mut levels) = (cmd.get_name().to_owned(), Vec::new());
    let mut matches = cmd.try_get_matches_from(words).map_err(|e| Usage {
        causes: successors(e.source(), |&s| s.source()).map(ToString::to_string).collect(),
        complaint: e.use_stderr(),
        text: e.to_string(),
    })?;
    loop {
        levels.push(Level { name, values: matches.ids().map(|id| (
            id.to_string(),
            matches.get_raw(id.as_str()).unwrap_or_default()
                .map(|v| v.to_string_lossy().into_owned()).collect(),
        )).collect() });
        let Some(next) = matches.remove_subcommand() else { return Ok(levels) };
        (name, matches) = next;
    }
}

// ---------------------------------------------------------------------------
// The grammar
// ---------------------------------------------------------------------------

/// The version that the program reports.
pub open spec fn version_text() -> Seq<char> {
    "0.1.0"@
}

/// A flag.
pub open spec fn flag_view(id: Seq<char>, long: Seq<char>, help: Seq<char>) -> ArgView {
    ArgView {
        id,
        long: Some(long),
        value_name: None,
        help: Some(help),
        global: false,
        required: false,
        values: None,
        takes: Takes::Flag,
        accepts: AcceptsView::Presence,
    }
}

/// A single value that goes by its position.
pub open spec fn value_view(
    id: Seq<char>,
    value_name: Seq<char>,
    help: Option<Seq<char>>,
    required: bool,
    accepts: AcceptsView,
) -> ArgView {
    ArgView {
        id,
        long: None,
        value_name: Some(value_name),
        help,
        global: false,
        required,
        values: None,
        takes: Takes::One,
        accepts,
    }
}

/// A row of values that goes by its position.
pub open spec fn row_view(
    id: Seq<char>,
    value_name: Seq<char>,
    help: Seq<char>,
    required: bool,
    values: (usize, usize),
    accepts: AcceptsView,
) -> ArgView {
    ArgView {
        id,
        long: None,
        value_name: Some(value_name),
        help: Some(help),
        global: false,
        required,
        values: Some(values),
        takes: Takes::Many,
        accepts,
    }
}

/// A command without subcommands.
pub open spec fn plain_command(
    name: Seq<char>,
    about: Seq<char>,
    args: Seq<ArgView>,
) -> GrammarView {
    GrammarView {
        name,
        program: None,
        about,
        version: None,
        needs_subcommand: false,
        args,
        subcommands: Seq::empty(),
    }
}

/// The flag by which a change is only validated.
pub open spec fn dry_run_view() -> ArgView {
    flag_view("dry_run"@, "dry-run"@, "Validate the change without applying it"@)
}

/// `list`.
pub open spec fn list_grammar() -> GrammarView {
    plain_command(
        "list"@,
        "List every connected output and its stable identity"@,
        seq![
            flag_view("active"@, "active"@, "Only show outputs that are currently active"@),
            flag_view("json"@, "json"@, "Machine-readable output"@),
        ],
    )
}

/// `save-profile`.
pub open spec fn save_profile_grammar() -> GrammarView {
    plain_command(
        "save-profile"@,
        "Record the currently active outputs as a named profile"@,
        seq![
            value_view(
                "name"@,
                "NAME"@,
                Some("Name for the profile"@),
                true,
                AcceptsView::Text,
            ),
            flag_view("force"@, "force"@, "Overwrite an existing profile of this name"@),
        ],
    )
}

/// `apply-profile`.
pub open spec fn apply_profile_grammar() -> GrammarView {
    plain_command(
        "apply-profile"@,
        "Make a named profile's outputs the active ones"@,
        seq![
            value_view("name"@, "NAME"@, Some("Profile to apply"@), true, AcceptsView::Text),
            dry_run_view(),
        ],
    )
}

/// What can be done about a display's power.
pub open spec fn power_words() -> Seq<(Seq<char>, Seq<char>)> {
    seq![
        ("status"@, "Report the display's power state"@),
        ("on"@, "Wake the display and take over its input"@),
        ("off"@, "Put the display into standby"@),
    ]
}

/// `cec`.
pub open spec fn cec_grammar() -> GrammarView {
    plain_command(
        "cec"@,
        "Power a display on or off over HDMI-CEC, without changing topology"@,
        seq![
            value_view(
                "action"@,
                "ACTION"@,
                Some("What to do"@),
                true,
                AcceptsView::Words { words: power_words() },
            ),
            value_view(
                "target"@,
                "TARGET"@,
                Some("Which target, if more than one supports CEC"@),
                false,
                AcceptsView::Text,
            ),
        ],
    )
}

/// The argument that says which display a `vcp` command is about.
pub open spec fn target_view() -> ArgView {
    value_view("target"@, "TARGET"@, None, true, AcceptsView::Text)
}

/// `vcp get`.
pub open spec fn vcp_get_grammar() -> GrammarView {
    plain_command(
        "get"@,
        "Read a feature's current value"@,
        seq![
            target_view(),
            value_view(
                "code"@,
                "CODE"@,
                Some("VCP code, in hex (e.g. 60 for input select, 10 for brightness)"@),
                true,
                AcceptsView::Text,
            ),
        ],
    )
}

/// `vcp set`.
pub open spec fn vcp_set_grammar() -> GrammarView {
    plain_command(
        "set"@,
        "Set a feature to a value"@,
        seq![
            target_view(),
            value_view("code"@, "CODE"@, Some("VCP code, in hex"@), true, AcceptsView::Text),
            value_view("value"@, "VALUE"@, Some("New value, in decimal"@), true, AcceptsView::Number),
        ],
    )
}

/// `vcp switch`.
pub open spec fn vcp_switch_grammar() -> GrammarView {
    plain_command(
        "switch"@,
        "Step a feature to the next of the given values, wrapping around"@,
        seq![
            target_view(),
            value_view("code"@, "CODE"@, Some("VCP code, in hex"@), true, AcceptsView::Text),
            row_view(
                "values"@,
                "VALUES"@,
                "Values to cycle through, in decimal"@,
                true,
                (2, usize::MAX),
                AcceptsView::Number,
            ),
        ],
    )
}

/// `vcp caps`.
pub open spec fn vcp_caps_grammar() -> GrammarView {
    plain_command(
        "caps"@,
        "Show every feature the display admits to supporting"@,
        seq![target_view()],
    )
}

/// `vcp`.
pub open spec fn vcp_grammar() -> GrammarView {
    GrammarView {
        name: "vcp"@,
        program: None,
        about: "Read or change a monitor's own settings over DDC/CI"@,
        version: None,
        needs_subcommand: true,
        args: Seq::empty(),
        subcommands: seq![
            vcp_get_grammar(),
            vcp_set_grammar(),
            vcp_switch_grammar(),
            vcp_caps_grammar(),
        ],
    }
}

/// `switch`.
pub open spec fn switch_grammar() -> GrammarView {
    plain_command(
        "switch"@,
        "Alternate between two profiles"@,
        seq![
            row_view(
                "profiles"@,
                "PROFILES"@,
                "The two profiles to alternate between (defaults to the config's pair)"@,
                false,
                (0, 2),
                AcceptsView::Text,
            ),
            dry_run_view(),
        ],
    )
}

/// The subcommands of the program. Power over CEC is there in builds that have
/// it.
pub open spec fn subcommands(cec: bool) -> Seq<GrammarView> {
    if cec {
        seq![
            list_grammar(),
            save_profile_grammar(),
            apply_profile_grammar(),
            cec_grammar(),
            vcp_grammar(),
            switch_grammar(),
        ]
    } else {
        seq![
            list_grammar(),
            save_profile_grammar(),
            apply_profile_grammar(),
            vcp_grammar(),
            switch_grammar(),
        ]
    }
}

/// The program's command line, where the program goes by a name.
pub open spec fn command_line(program: Option<Seq<char>>, cec: bool) -> GrammarView {
    GrammarView {
        name: "monitor-switcher"@,
        program,
        about: "Switch display topology via the Windows CCD API"@,
        version: Some(version_text()),
        needs_subcommand: true,
        args: seq![
            ArgView {
                id: "config"@,
                long: Some("config"@),
                value_name: Some("PATH"@),
                help: Some(
                    "Config file location (default: %LOCALAPPDATA%\\monitor-switcher\\config.json)"@,
                ),
                global: true,
                required: false,
                values: None,
                takes: Takes::One,
                accepts: AcceptsView::Path,
            },
        ],
        subcommands: subcommands(cec),
    }
}

// A flag.
fn flag(id: &str, long: &str, help: &str) -> (r: ArgSpec)
    ensures
        r@ == flag_view(id@, long@, help@),
{
    ArgSpec {
        id: id.to_owned(),
        long: Some(long.to_owned()),
        value_name: None,
        help: Some(help.to_owned()),
        global: false,
        required: false,
        values: None,
        takes: Takes::Flag,
        accepts: Accepts::Presence,
    }
}

// A single value that goes by its position.
fn value(
    id: &str,
    value_name: &str,
    help: Option<&str>,
    required: bool,
    accepts: Accepts,
) -> (r: ArgSpec)
    ensures
        r@ == value_view(
            id@,
            value_name@,
            match help {
                Some(h) => Some(h@),
                None => None,
            },
            required,
            accepts@,
        ),
{
    ArgSpec {
        id: id.to_owned(),
        long: None,
        value_name: Some(value_name.to_owned()),
        help: match help {
            Some(h) => Some(h.to_owned()),
            None => None,
        },
        global: false,
        required,
        values: None,
        takes: Takes::One,
        accepts,
    }
}

// A row of values that goes by its position.
fn row(
    id: &str,
    value_name: &str,
    help: &str,
    required: bool,
    values: (usize, usize),
    accepts: Accepts,
) -> (r: ArgSpec)
    requires
        values.0 <= values.1,
    ensures
        r@ == row_view(id@, value_name@, help@, required, values, accepts@),
{
    ArgSpec {
        id: id.to_owned(),
        long: None,
        value_name: Some(value_name.to_owned()),
        help: Some(help.to_owned()),
        global: false,
        required,
        values: Some(values),
        takes: Takes::Many,
        accepts,
    }
}

// The flag by which a change is only validated.
fn dry_run_flag() -> (r: ArgSpec)
    ensures
        r@ == dry_run_view(),
{
    flag("dry_run", "dry-run", "Validate the change without applying it")
}

// `list`.
fn list_command() -> (r: Grammar)
    ensures
        grammar_of(r) == list_grammar(),
{
    let cmd = new_command(
        "list",
        "List every connected output and its stable identity",
        None,
        false,
    );
    let cmd = with_arg(
        cmd,
        flag("active", "active", "Only show outputs that are currently active"),
    );
    let cmd = with_arg(cmd, flag("json", "json", "Machine-readable output"));
    assert(grammar_of(cmd).args =~= list_grammar().args);
    cmd
}

// `save-profile`.
fn save_profile_command() -> (r: Grammar)
    ensures
        grammar_of(r) == save_profile_grammar(),
{
    let cmd = new_command(
        "save-profile",
        "Record the currently active outputs as a named profile",
        None,
        false,
    );
    let cmd = with_arg(
        cmd,
        value("name", "NAME", Some("Name for the profile"), true, Accepts::Text),
    );
    let cmd = with_arg(
        cmd,
        flag("force", "force", "Overwrite an existing profile of this name"),
    );
    assert(grammar_of(cmd).args =~= save_profile_grammar().args);
    cmd
}

// `apply-profile`.
fn apply_profile_command() -> (r: Grammar)
    ensures
        grammar_of(r) == apply_profile_grammar(),
{
    let cmd = new_command(
        "apply-profile",
        "Make a named profile's outputs the active ones",
        None,
        false,
    );
    let cmd = with_arg(
        cmd,
        value("name", "NAME", Some("Profile to apply"), true, Accepts::Text),
    );
    let cmd = with_arg(cmd, dry_run_flag());
    assert(grammar_of(cmd).args =~= apply_profile_grammar().args);
    cmd
}

// `cec`.
fn cec_command() -> (r: Grammar)
    ensures
        grammar_of(r) == cec_grammar(),
{
    let cmd = new_command(
        "cec",
        "Power a display on or off over HDMI-CEC, without changing topology",
        None,
        false,
    );
    let mut words: Vec<(String, String)> = Vec::new();
    words.push(("status".to_owned(), "Report the display's power state".to_owned()));
    words.push(("on".to_owned(), "Wake the display and take over its input".to_owned()));
    words.push(("off".to_owned(), "Put the display into standby".to_owned()));
    assert(explained(words@) =~= power_words());
    let cmd = with_arg(
        cmd,
        value("action", "ACTION", Some("What to do"), true, Accepts::Words { words }),
    );
    let cmd = with_arg(
        cmd,
        value(
            "target",
            "TARGET",
            Some("Which target, if more than one supports CEC"),
            false,
            Accepts::Text,
        ),
    );
    assert(grammar_of(cmd).args =~= cec_grammar().args);
    cmd
}

// The argument that says which display a `vcp` command is about.
fn target_value() -> (r: ArgSpec)
    ensures
        r@ == target_view(),
{
    value("target", "TARGET", None, true, Accepts::Text)
}

// `vcp get`.
fn vcp_get_command() -> (r: Grammar)
    ensures
        grammar_of(r) == vcp_get_grammar(),
{
    let cmd = new_command("get", "Read a feature's current value", None, false);
    let cmd = with_arg(cmd, target_value());
    let cmd = with_arg(
        cmd,
        value(
            "code",
            "CODE",
            Some("VCP code, in hex (e.g. 60 for input select, 10 for brightness)"),
            true,
            Accepts::Text,
        ),
    );
    assert(grammar_of(cmd).args =~= vcp_get_grammar().args);
    cmd
}

// `vcp set`.
fn vcp_set_command() -> (r: Grammar)
    ensures
        grammar_of(r) == vcp_set_grammar(),
{
    let cmd = new_command("set", "Set a feature to a value", None, false);
    let cmd = with_arg(cmd, target_value());
    let cmd = with_arg(
        cmd,
        value("code", "CODE", Some("VCP code, in hex"), true, Accepts::Text),
    );
    let cmd = with_arg(
        cmd,
        value("value", "VALUE", Some("New value, in decimal"), true, Accepts::Number),
    );
    assert(grammar_of(cmd).args =~= vcp_set_grammar().args);
    cmd
}

// `vcp switch`.
fn vcp_switch_command() -> (r: Grammar)
    ensures
        grammar_of(r) == vcp_switch_grammar(),
{
    let cmd = new_command(
        "switch",
        "Step a feature to the next of the given values, wrapping around",
        None,
        false,
    );
    let cmd = with_arg(cmd, target_value());
    let cmd = with_arg(
        cmd,
        value("code", "CODE", Some("VCP code, in hex"), true, Accepts::Text),
    );
    let cmd = with_arg(
        cmd,
        row(
            "values",
            "VALUES",
            "Values to cycle through, in decimal",
            true,
            (2, usize::MAX),
            Accepts::Number,
        ),
    );
    assert(grammar_of(cmd).args =~= vcp_switch_grammar().args);
    cmd
}

// `vcp caps`.
fn vcp_caps_command() -> (r: Grammar)
    ensures
        grammar_of(r) == vcp_caps_grammar(),
{
    let cmd = new_command(
        "caps",
        "Show every feature the display admits to supporting",
        None,
        false,
    );
    let cmd = with_arg(cmd, target_value());
    assert(grammar_of(cmd).args =~= vcp_caps_grammar().args);
    cmd
}

// `vcp`.
fn vcp_command() -> (r: Grammar)
    ensures
        grammar_of(r) == vcp_grammar(),
{
    let cmd = new_command(
        "vcp",
        "Read or change a monitor's own settings over DDC/CI",
        None,
        true,
    );
    let cmd = with_subcommand(cmd, vcp_get_command());
    let cmd = with_subcommand(cmd, vcp_set_command());
    let cmd = with_subcommand(cmd, vcp_switch_command());
    let cmd = with_subcommand(cmd, vcp_caps_command());
    assert(grammar_of(cmd).subcommands =~= vcp_grammar().subcommands);
    cmd
}

// `switch`.
fn switch_command() -> (r: Grammar)
    ensures
        grammar_of(r) == switch_grammar(),
{
    let cmd = new_command("switch", "Alternate between two profiles", None, false);
    let cmd = with_arg(
        cmd,
        row(
            "profiles",
            "PROFILES",
            "The two profiles to alternate between (defaults to the config's pair)",
            false,
            (0, 2),
            Accepts::Text,
        ),
    );
    let cmd = with_arg(cmd, dry_run_flag());
    assert(grammar_of(cmd).args =~= switch_grammar().args);
    cmd
}

// The program's command line.
fn whole_command(program: Option<String>, cec: bool) -> (r: Grammar)
    ensures
        grammar_of(r) == command_line(opt_text(program), cec),
{
    let cmd = new_command(
        "monitor-switcher",
        "Switch display topology via the Windows CCD API",
        Some("0.1.0"),
        true,
    );
    let ghost name = opt_text(program);
    let cmd = with_program(cmd, program);
    let cmd = with_arg(
        cmd,
        ArgSpec {
            id: "config".to_owned(),
            long: Some("config".to_owned()),
            value_name: Some("PATH".to_owned()),
            help: Some(
                "Config file location (default: %LOCALAPPDATA%\\monitor-switcher\\config.json)".to_owned(),
            ),
            global: true,
            required: false,
            values: None,
            takes: Takes::One,
            accepts: Accepts::Path,
        },
    );
    assert(grammar_of(cmd).args =~= command_line(name, cec).args);
    let cmd = with_subcommand(cmd, list_command());
    let cmd = with_subcommand(cmd, save_profile_command());
    let cmd = with_subcommand(cmd, apply_profile_command());
    let cmd = if cec {
        with_subcommand(cmd, cec_command())
    } else {
        cmd
    };
    let cmd = with_subcommand(cmd, vcp_command());
    let cmd = with_subcommand(cmd, switch_command());
    assert(grammar_of(cmd).subcommands =~= command_line(name, cec).subcommands);
    cmd
}

// ---------------------------------------------------------------------------
// The program's name
// ---------------------------------------------------------------------------

/// Whether every system takes a path apart in the same way: at its slashes.
pub open spec fn portable(path: Seq<char>) -> bool {
    &&& !path.contains('\\')
    &&& !path.contains(':')
    &&& !(path.len() > 1 && path[0] == '/' && path[1] == '/')
}

/// The last of the parts of a path that is a name. Empty parts and single dots do
/// not count; two dots are no name, and stand for none before them.
pub open spec fn last_name(parts: Seq<Seq<char>>) -> Option<Seq<char>>
    decreases parts.len(),
{
    if parts.len() == 0 || parts.last() == ".."@ {
        None
    } else if parts.last().len() == 0 || parts.last() == "."@ {
        last_name(parts.drop_last())
    } else {
        Some(parts.last())
    }
}

/// `std::path::Path::file_name`: the last component of a path, where it is a name.
/// How a path with backslashes or colons, or with two slashes to begin with, is
/// taken apart is for the system to say, and left unsaid.
#[verifier::external_body]
fn file_name(path: &str) -> (r: Option<String>)
    ensures
        portable(path@) ==> opt_text(r) == last_name(split(path@, '/')),
{
    std::path::Path::new(path).file_name().map(|f| f.to_string_lossy().into_owned())
}

/// Whether a program goes by a name, given the words that it was started with, its
/// own path or name first among them.
pub open spec fn goes_by(words: Seq<Seq<char>>, program: Option<Seq<char>>) -> bool {
    if words.len() == 0 {
        program is None
    } else {
        portable(words[0]) ==> program == last_name(split(words[0], '/'))
    }
}

/// The name of the file that a program was started by, given the words that it was
/// started with.
pub fn program_name(words: &[String]) -> (r: Option<String>)
    ensures
        goes_by(texts(words@), opt_text(r)),
{
    if words.len() == 0 {
        None
    } else {
        assert(texts(words@)[0] == words@[0]@);
        file_name(words[0].as_str())
    }
}

/// Have the words of a command line read, for a program that goes by a name.
pub fn read_command_line(program: Option<String>, words: &[String], cec: bool) -> (r: Result<
    Vec<Level>,
    Usage,
>)
    ensures
        parse_view(r) == clap_result(command_line(opt_text(program), cec), texts(words@)),
{
    read_words(whole_command(program, cec), words)
}

/// A path goes by the last of its parts: empty parts and single dots behind it do not
/// count, and two dots leave it without a name.
pub proof fn law_a_path_goes_by_its_last_part(parts: Seq<Seq<char>>, part: Seq<char>)
    ensures
        part.len() == 0 || part == "."@ ==> last_name(parts.push(part)) == last_name(parts),
        part == ".."@ ==> last_name(parts.push(part)) is None,
        part.len() > 0 && part != "."@ && part != ".."@ ==> last_name(parts.push(part)) == Some(
            part,
        ),
        last_name(Seq::empty()) is None,
{
    reveal_strlit(".");
    reveal_strlit("..");
    assert(parts.push(part).drop_last() =~= parts);
}

/// A program without words has no name, and one with a path that every system takes apart
/// in the same way goes by that path's last part.
pub proof fn law_a_program_goes_by_its_file(words: Seq<Seq<char>>, program: Option<Seq<char>>)
    requires
        goes_by(words, program),
    ensures
        words.len() == 0 ==> program is None,
        words.len() > 0 && !words[0].contains('\\') && !words[0].contains(':') && (
        words[0].len() < 2 || words[0][0] != '/' || words[0][1] != '/') ==> program == last_name(
            split(words[0], '/'),
        ),
{
}

// ---------------------------------------------------------------------------
// What holds of the grammar
// ---------------------------------------------------------------------------

/// An id with hyphens for its underscores.
pub open spec fn hyphenated(id: Seq<char>) -> Seq<char> {
    id.map_values(
        |c: char|
            if c == '_' {
                '-'
            } else {
                c
            },
    )
}

/// Whether each argument is known by its own name: an option is called by its id, with
/// hyphens for underscores, and one without a name goes by its position and is shown as
/// something.
pub open spec fn known_by_name(args: Seq<ArgView>) -> bool {
    forall|i: int|
        #![trigger args[i]]
        0 <= i < args.len() ==> match args[i].long {
            Some(long) => long == hyphenated(args[i].id) && !args[i].required,
            None => args[i].value_name is Some && !(args[i].takes is Flag),
        }
}

/// Whether a command has arguments with the given ids, in order.
pub open spec fn has_args(command: GrammarView, ids: Seq<Seq<char>>) -> bool {
    &&& command.args.len() == ids.len()
    &&& forall|i: int| 0 <= i < ids.len() ==> (#[trigger] command.args[i]).id == ids[i]
    &&& known_by_name(command.args)
}

/// Each command has its own arguments, and each option of a command is called by what it
/// is for.
pub proof fn law_each_command_has_its_arguments(program: Option<Seq<char>>, cec: bool)
    ensures
        has_args(list_grammar(), seq!["active"@, "json"@]),
        has_args(save_profile_grammar(), seq!["name"@, "force"@]),
        has_args(apply_profile_grammar(), seq!["name"@, "dry_run"@]),
        has_args(cec_grammar(), seq!["action"@, "target"@]),
        has_args(vcp_get_grammar(), seq!["target"@, "code"@]),
        has_args(vcp_set_grammar(), seq!["target"@, "code"@, "value"@]),
        has_args(vcp_switch_grammar(), seq!["target"@, "code"@, "values"@]),
        has_args(vcp_caps_grammar(), seq!["target"@]),
        has_args(switch_grammar(), seq!["profiles"@, "dry_run"@]),
        has_args(command_line(program, cec), seq!["config"@]),
{
    reveal_strlit("active");
    reveal_strlit("json");
    reveal_strlit("force");
    reveal_strlit("dry_run");
    reveal_strlit("dry-run");
    reveal_strlit("config");
    assert(hyphenated("active"@) =~= "active"@);
    assert(hyphenated("json"@) =~= "json"@);
    assert(hyphenated("force"@) =~= "force"@);
    assert(hyphenated("dry_run"@) =~= "dry-run"@);
    assert(hyphenated("config"@) =~= "config"@);
}

/// What has to be given has to be, and what need not be need not: a profile's name, a
/// display, a feature's code and its value are required; the display of a power command
/// and the profiles to switch between are not. A row to switch through has two values at
/// least, and `switch` takes two profiles at most. Numbers are numbers, and the config is
/// a path that is understood behind any command.
pub proof fn law_what_has_to_be_given(program: Option<Seq<char>>, cec: bool)
    ensures
        save_profile_grammar().args[0].required && apply_profile_grammar().args[0].required,
        cec_grammar().args[0].required && !cec_grammar().args[1].required,
        vcp_get_grammar().args[0].required && vcp_get_grammar().args[1].required,
        vcp_set_grammar().args[0].required && vcp_set_grammar().args[1].required
            && vcp_set_grammar().args[2].required,
        vcp_switch_grammar().args[0].required && vcp_switch_grammar().args[1].required
            && vcp_switch_grammar().args[2].required,
        vcp_caps_grammar().args[0].required,
        !switch_grammar().args[0].required,
        vcp_switch_grammar().args[2].values == Some((2usize, usize::MAX)),
        switch_grammar().args[0].values == Some((0usize, 2usize)),
        vcp_set_grammar().args[2].accepts is Number && vcp_switch_grammar().args[2].accepts
            is Number,
        cec_grammar().args[0].accepts == (AcceptsView::Words {
            words: seq![
                ("status"@, "Report the display's power state"@),
                ("on"@, "Wake the display and take over its input"@),
                ("off"@, "Put the display into standby"@),
            ],
        }),
        command_line(program, cec).args[0].accepts is Path && command_line(
            program,
            cec,
        ).args[0].global,
        list_grammar().args[0].takes is Flag && list_grammar().args[1].takes is Flag
            && save_profile_grammar().args[1].takes is Flag && apply_profile_grammar().args[1].takes
            is Flag && switch_grammar().args[1].takes is Flag,
        command_line(program, cec).needs_subcommand && vcp_grammar().needs_subcommand,
{
}

/// The program has its commands by their names, power control among them exactly in
/// builds that have it, and goes by the name that it was given.
pub proof fn law_the_program_has_its_commands(program: Option<Seq<char>>, cec: bool)
    ensures
        ({
            let line = command_line(program, cec);
            let subs = line.subcommands;
            &&& line.name == "monitor-switcher"@ && line.program == program && line.version == Some(
                "0.1.0"@,
            )
            &&& subs.len() == if cec {
                6int
            } else {
                5
            }
            &&& subs[0].name == "list"@ && subs[0] == list_grammar()
            &&& subs[1].name == "save-profile"@ && subs[1] == save_profile_grammar()
            &&& subs[2].name == "apply-profile"@ && subs[2] == apply_profile_grammar()
            &&& cec ==> subs[3].name == "cec"@ && subs[3] == cec_grammar()
            &&& subs[subs.len() - 2].name == "vcp"@ && subs[subs.len() - 2] == vcp_grammar()
            &&& subs.last().name == "switch"@ && subs.last() == switch_grammar()
        }),
        ({
            let subs = vcp_grammar().subcommands;
            &&& subs.len() == 4
            &&& subs[0].name == "get"@ && subs[0] == vcp_get_grammar()
            &&& subs[1].name == "set"@ && subs[1] == vcp_set_grammar()
            &&& subs[2].name == "switch"@ && subs[2] == vcp_switch_grammar()
            &&& subs[3].name == "caps"@ && subs[3] == vcp_caps_grammar()
        }),
{
}

} // verus!
