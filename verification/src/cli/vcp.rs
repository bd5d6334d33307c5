//! `vcp`: read and write a monitor's own settings over DDC/CI.
//!
//! VCP codes are hexadecimal and values are decimal: `vcp switch main 60 15 18`
//! alternates code 0x60 (input select) between 15 and 18.

use vstd::prelude::*;

use crate::config::Config;
use crate::ddc::Vcp;
use crate::display::identity::Monitor;
use crate::error::{chain, Error};
use crate::seqs::{first_where, lemma_first_where, lemma_first_where_is};
use crate::text::{
    all_digits, cat2, cat3, cat4, cat5, chars_of, decimal, decimal_text, digit_value, digits_from,
    digits_value, hex, hex_text, join, joined, law_hex_reads_back, lemma_hex_width,
    parse_unsigned, same_text, sixteen_to, string_of_range, unsigned, value_of_digit,
};

verus! {

/// What to do about a feature of a monitor.
#[derive(Debug)]
pub enum Command {
    /// Read a feature's current value.
    Get { target: String, code: String },
    /// Set a feature to a value.
    Write { target: String, code: String, value: u32 },
    /// Step a feature to the next of the given values, wrapping around.
    Switch { target: String, code: String, values: Vec<u32> },
    /// Show every feature the display admits to supporting.
    Caps { target: String },
}

/// What a `vcp` command says.
pub enum VcpView {
    Get { target: Seq<char>, code: Seq<char> },
    Write { target: Seq<char>, code: Seq<char>, value: u32 },
    Switch { target: Seq<char>, code: Seq<char>, values: Seq<u32> },
    Caps { target: Seq<char> },
}

impl View for Command {
    type V = VcpView;

    open spec fn view(&self) -> VcpView {
        match *self {
            Command::Get { target, code } => VcpView::Get { target: target@, code: code@ },
            Command::Write { target, code, value } => VcpView::Write {
                target: target@,
                code: code@,
                value,
            },
            Command::Switch { target, code, values } => VcpView::Switch {
                target: target@,
                code: code@,
                values: values@,
            },
            Command::Caps { target } => VcpView::Caps { target: target@ },
        }
    }
}

/// What is left of a string without the given two characters, as often as they
/// stand in front.
pub open spec fn without_prefix(s: Seq<char>, a: char, b: char) -> Seq<char>
    decreases s.len(),
{
    if s.len() >= 2 && s[0] == a && s[1] == b {
        without_prefix(s.skip(2), a, b)
    } else {
        s
    }
}

/// The VCP code that a string stands for: hexadecimal, with or without a prefix.
pub open spec fn code_of(s: Seq<char>) -> Option<u8> {
    match unsigned(without_prefix(without_prefix(s, '0', 'x'), '0', 'X'), 16) {
        Some(n) => if n <= 255 {
            Some(n as u8)
        } else {
            None
        },
        None => None,
    }
}

// How many characters the given two take up in front.
fn prefix_len(cs: &Vec<char>, from: usize, a: char, b: char) -> (r: usize)
    requires
        from <= cs@.len(),
    ensures
        from <= r <= cs@.len(),
        cs@.skip(r as int) == without_prefix(cs@.skip(from as int), a, b),
{
    let mut i: usize = from;
    while cs.len() - i > 1 && cs[i] == a && cs[i + 1] == b
        invariant
            from <= i <= cs@.len(),
            without_prefix(cs@.skip(i as int), a, b) == without_prefix(
                cs@.skip(from as int),
                a,
                b,
            ),
        decreases cs@.len() - i,
    {
        assert(cs@.skip(i as int).skip(2) =~= cs@.skip(i + 2));
        i += 2;
    }
    i
}

/// The digits of a number, without a sign in front of them.
pub open spec fn unsigned_digits(s: Seq<char>) -> Seq<char> {
    if s.len() > 0 && s[0] == '+' {
        s.skip(1)
    } else {
        s
    }
}

/// Whether the first so many characters are digits of a number that is too large
/// for a code.
pub open spec fn too_large(digits: Seq<char>, n: int) -> bool {
    &&& 0 < n <= digits.len()
    &&& all_digits(digits.take(n), 16)
    &&& digits_value(digits.take(n), 16) > 255
}

/// What is wrong with a string that is no code, read from its front: it is empty,
/// or too large before anything else is wrong with it, or has something in it that
/// is no digit.
pub open spec fn fault(s: Seq<char>) -> Seq<char> {
    if s.len() == 0 {
        "cannot parse integer from empty string"@
    } else if exists|n: int| too_large(unsigned_digits(s), n) {
        "number too large to fit in target type"@
    } else {
        "invalid digit found in string"@
    }
}

// What is wrong with a string that is no code.
fn fault_text(s: &str) -> (r: String)
    ensures
        r@ == fault(s@),
{
    let cs = chars_of(s);
    if cs.len() == 0 {
        return "cannot parse integer from empty string".to_owned();
    }
    let from: usize = if cs[0] == '+' {
        1
    } else {
        0
    };
    let ghost digits = unsigned_digits(s@);
    assert(digits =~= cs@.skip(from as int));
    for end in from..cs.len()
        invariant
            from <= cs@.len(),
            cs@.len() > 0,
            cs@ == s@,
            digits == unsigned_digits(s@),
            digits == cs@.skip(from as int),
            forall|n: int| 0 < n <= end - from ==> !too_large(digits, n),
    {
        let prefix = string_of_range(cs.as_slice(), from, end + 1);
        assert(prefix@ =~= digits.take(end + 1 - from));
        let ps = chars_of(prefix.as_str());
        assert(ps@.skip(0) =~= prefix@);
        match digits_from(ps.as_slice(), 0, 16, 255) {
            Some(_) => {},
            None => {
                if is_hex(prefix.as_str()) {
                    assert(too_large(digits, end + 1 - from));
                    return "number too large to fit in target type".to_owned();
                }
            },
        }
    }
    assert(!exists|n: int| too_large(digits, n));
    "invalid digit found in string".to_owned()
}

// Whether a string is nothing but hexadecimal digits.
fn is_hex(s: &str) -> (r: bool)
    ensures
        r == all_digits(s@, 16),
{
    let cs = chars_of(s);
    if cs.len() == 0 {
        return false;
    }
    for i in 0..cs.len()
        invariant
            cs@ == s@,
            forall|j: int| 0 <= j < i ==> digit_value(#[trigger] s@[j], 16) is Some,
    {
        if value_of_digit(cs[i], 16).is_none() {
            assert(digit_value(s@[i as int], 16) is None);
            return false;
        }
    }
    true
}

/// What is said of a string that is no VCP code, and of what is wrong with it.
pub open spec fn bad_code(text: Seq<char>) -> Seq<Seq<char>> {
    seq![
        "\""@ + text + "\" is not a VCP code; expected hex, e.g. 60 or 0x60"@,
        fault(without_prefix(without_prefix(text, '0', 'x'), '0', 'X')),
    ]
}

/// VCP codes are conventionally written in hex without a prefix. `0x60` is
/// accepted too.
pub fn parse_code(text: &str) -> (r: Result<u8, Error>)
    ensures
        match r {
            Ok(code) => code_of(text@) == Some(code),
            Err(e) => code_of(text@) is None && chain(e) == bad_code(text@),
        },
{
    let cs = chars_of(text);
    assert(cs@.skip(0) =~= text@);
    let i = prefix_len(&cs, 0, '0', 'x');
    let j = prefix_len(&cs, i, '0', 'X');
    let cleaned = string_of_range(cs.as_slice(), j, cs.len());
    assert(cleaned@ =~= cs@.skip(j as int));
    match parse_unsigned(cleaned.as_str(), 16, 255) {
        Some(n) => Ok(n as u8),
        None => Err(
            Error::Context {
                doing: cat3("\"", text, "\" is not a VCP code; expected hex, e.g. 60 or 0x60"),
                cause: fault_text(cleaned.as_str()),
            },
        ),
    }
}

/// Values that are a given one.
pub open spec fn equals(current: u32) -> spec_fn(u32) -> bool {
    |v: u32| v == current
}

/// The value after the current one in a cycle. From a value that is not in it,
/// the first is the sensible destination rather than an error.
pub open spec fn step_from(values: Seq<u32>, current: u32) -> u32 {
    let i = first_where(values, equals(current));
    if i + 1 < values.len() {
        values[i + 1]
    } else {
        values[0]
    }
}

/// The value to step to.
pub fn next_value(values: &[u32], current: u32) -> (r: u32)
    requires
        values@.len() > 0,
    ensures
        r == step_from(values@, current),
{
    for i in 0..values.len()
        invariant
            values@.len() > 0,
            forall|j: int| 0 <= j < i ==> !equals(current)(#[trigger] values@[j]),
    {
        if values[i] == current {
            proof {
                lemma_first_where_is(values@, equals(current), i as int);
            }
            if i < values.len() - 1 {
                return values[i + 1];
            }
            return values[0];
        }
    }
    proof {
        lemma_first_where_is(values@, equals(current), values@.len() as int);
    }
    values[0]
}

/// Stepping goes round: in a cycle of distinct values a step leads from each to
/// the next, and from the last to the first.
pub proof fn law_stepping_goes_round(values: Seq<u32>, i: int)
    requires
        values.no_duplicates(),
        0 <= i < values.len(),
    ensures
        step_from(values, values[i]) == if i + 1 < values.len() {
            values[i + 1]
        } else {
            values[0]
        },
{
    lemma_first_where_is(values, equals(values[i]), i);
}

/// Stepping never leaves the cycle, wherever it starts.
pub proof fn law_stepping_stays_in_the_cycle(values: Seq<u32>, current: u32)
    requires
        values.len() > 0,
    ensures
        values.contains(step_from(values, current)),
{
    lemma_first_where(values, equals(current));
}

// ---------------------------------------------------------------------------
// Finding the display
// ---------------------------------------------------------------------------

/// The displays that a name means: the one configured under it, or else those
/// with that EDID id.
pub open spec fn meant(config: Config, target: Seq<char>) -> spec_fn(Monitor) -> bool {
    |m: Monitor|
        if config.targets@.dom().contains(target) {
            m.key@ == config.targets@[target].key@
        } else {
            m.name.edid matches Some(edid) && edid@ == target
        }
}

/// Resolve a configured target name, or an EDID id, to the GDI device that drives
/// the display.
///
/// DDC/CI rides on the video link, so there is nothing to talk to when the output
/// is switched off.
pub fn find_display(config: &Config, target: &str, monitors: &[Monitor]) -> (r: Result<
    String,
    Error,
>)
    ensures
        ({
            let i = first_where(monitors@, meant(*config, target@));
            if i >= monitors@.len() {
                r matches Err(e) && chain(e) == seq![
                    "no display named \""@ + target@ + "\"; configured targets: "@ + join(
                        config.targets.names(),
                        ", "@,
                    ),
                ]
            } else {
                match monitors@[i].gdi_name {
                    Some(gdi) => r matches Ok(name) && name@ == gdi@,
                    None => r matches Err(e) && chain(e) == seq![
                        "\""@ + target@
                            + "\" is not currently active, so it has no DDC/CI channel.\n  Switch to a profile that includes it first."@,
                    ],
                }
            }
        }),
{
    let wanted = config.targets.get(target);
    for i in 0..monitors.len()
        invariant
            match wanted {
                Some(entry) => config.targets@.dom().contains(target@) && *entry
                    == config.targets@[target@],
                None => !config.targets@.dom().contains(target@),
            },
            forall|j: int| 0 <= j < i ==> !meant(*config, target@)(#[trigger] monitors@[j]),
    {
        let hit = match wanted {
            Some(entry) => monitors[i].key.same_key(&entry.key),
            None => match &monitors[i].name.edid {
                Some(edid) => same_text(edid.as_str(), target),
                None => false,
            },
        };
        if hit {
            proof {
                lemma_first_where_is(monitors@, meant(*config, target@), i as int);
            }
            return match &monitors[i].gdi_name {
                Some(gdi) => Ok(gdi.clone()),
                None => Err(
                    Error::Plain {
                        why: cat3(
                            "\"",
                            target,
                            "\" is not currently active, so it has no DDC/CI channel.\n  Switch to a profile that includes it first.",
                        ),
                    },
                ),
            };
        }
    }
    proof {
        lemma_first_where_is(monitors@, meant(*config, target@), monitors@.len() as int);
    }
    let known = config.targets.keys();
    let list = joined(known.as_slice(), ", ");
    Err(
        Error::Plain {
            why: cat4("no display named \"", target, "\"; configured targets: ", list.as_str()),
        },
    )
}

// ---------------------------------------------------------------------------
// Running a command
// ---------------------------------------------------------------------------

/// What is to be asked of a display.
#[derive(Debug)]
pub enum Request {
    /// The value of a feature.
    Read { code: u8 },
    /// A new value for a feature.
    Put { code: u8, value: u32 },
    /// The next of some values for a feature.
    Step { code: u8, values: Vec<u32> },
    /// What the display supports.
    Capabilities,
}

impl Command {
    /// The display that a command is about.
    pub open spec fn target_text(self) -> Seq<char> {
        match self {
            Command::Get { target, .. } => target@,
            Command::Write { target, .. } => target@,
            Command::Switch { target, .. } => target@,
            Command::Caps { target } => target@,
        }
    }

    /// The feature that a command is about, as it was written.
    pub open spec fn code_text(self) -> Option<Seq<char>> {
        match self {
            Command::Get { code, .. } => Some(code@),
            Command::Write { code, .. } => Some(code@),
            Command::Switch { code, .. } => Some(code@),
            Command::Caps { .. } => None,
        }
    }
}

/// Whether a request asks what a command says, of the feature with a code.
pub open spec fn asks(request: Request, command: Command, code: u8) -> bool {
    match command {
        Command::Get { .. } => request == (Request::Read { code }),
        Command::Write { value, .. } => request == (Request::Put { code, value }),
        Command::Switch { values, .. } => request matches Request::Step { code: c, values: vs } && c
            == code && vs@ == values@,
        Command::Caps { .. } => request == Request::Capabilities,
    }
}

/// Work out what a command asks of which display. A code that is none is found
/// out before any display is looked for.
pub fn plan(command: Command) -> (r: Result<(String, Request), Error>)
    ensures
        match command.code_text() {
            Some(text) => match code_of(text) {
                Some(code) => r matches Ok(p) && p.0@ == command.target_text() && asks(
                    p.1,
                    command,
                    code,
                ),
                None => r matches Err(e) && chain(e) == bad_code(text),
            },
            None => r matches Ok(p) && p.0@ == command.target_text() && asks(p.1, command, 0),
        },
{
    match command {
        Command::Get { target, code } => match parse_code(code.as_str()) {
            Ok(code) => Ok((target, Request::Read { code })),
            Err(e) => Err(e),
        },
        Command::Write { target, code, value } => match parse_code(code.as_str()) {
            Ok(code) => Ok((target, Request::Put { code, value })),
            Err(e) => Err(e),
        },
        Command::Switch { target, code, values } => match parse_code(code.as_str()) {
            Ok(code) => Ok((target, Request::Step { code, values })),
            Err(e) => Err(e),
        },
        Command::Caps { target } => Ok((target, Request::Capabilities)),
    }
}

/// How a feature is named in output.
pub open spec fn feature(target: Seq<char>, code: u8) -> Seq<char> {
    target + ": VCP 0x"@ + hex(code as nat, 2)
}

// How a feature is named in output.
fn feature_text(target: &str, code: u8) -> (r: String)
    ensures
        r@ == feature(target@, code),
{
    let number = hex_text(code as u32, 2);
    cat3(target, ": VCP 0x", number.as_str())
}

/// The line on a feature that was read.
pub fn get_line(target: &str, code: u8, vcp: Vcp) -> (r: String)
    ensures
        r@ == feature(target@, code) + " = "@ + decimal(vcp.current as nat) + " (max "@ + decimal(
            vcp.maximum as nat,
        ) + ")"@,
{
    let head = feature_text(target, code);
    let current = decimal_text(vcp.current as u128);
    let maximum = decimal_text(vcp.maximum as u128);
    let line = cat5(head.as_str(), " = ", current.as_str(), " (max ", maximum.as_str());
    cat2(line.as_str(), ")")
}

/// The line on a feature that was set.
pub fn set_line(target: &str, code: u8, value: u32) -> (r: String)
    ensures
        r@ == feature(target@, code) + " set to "@ + decimal(value as nat),
{
    let head = feature_text(target, code);
    let number = decimal_text(value as u128);
    cat3(head.as_str(), " set to ", number.as_str())
}

/// The line on a feature that was stepped.
pub fn switch_line(target: &str, code: u8, current: u32, next: u32) -> (r: String)
    ensures
        r@ == feature(target@, code) + " "@ + decimal(current as nat) + " -> "@ + decimal(
            next as nat,
        ),
{
    let head = feature_text(target, code);
    let from = decimal_text(current as u128);
    let to = decimal_text(next as u128);
    cat5(head.as_str(), " ", from.as_str(), " -> ", to.as_str())
}

// ---------------------------------------------------------------------------
// What holds of codes and displays
// ---------------------------------------------------------------------------

// Digits have no prefix.
proof fn lemma_digits_have_no_prefix(s: Seq<char>)
    requires
        all_digits(s, 16),
    ensures
        without_prefix(without_prefix(s, '0', 'x'), '0', 'X') == s,
{
    if s.len() >= 2 {
        assert(digit_value(s[1], 16) is Some);
    }
}

/// A code is read in hexadecimal, in letters of either case, with or without `0x` or `0X`
/// in front. A number above 255 is no code.
pub proof fn law_a_code_is_hexadecimal(digits: Seq<char>)
    requires
        all_digits(digits, 16),
    ensures
        digits_value(digits, 16) <= 255 ==> code_of(digits) == Some(digits_value(digits, 16) as u8),
        digits_value(digits, 16) > 255 ==> code_of(digits) is None,
        code_of(seq!['0', 'x'] + digits) == code_of(digits),
        code_of(seq!['0', 'X'] + digits) == code_of(digits),
{
    lemma_digits_have_no_prefix(digits);
    let (small, large) = (seq!['0', 'x'] + digits, seq!['0', 'X'] + digits);
    assert(small.skip(2) =~= digits);
    assert(large.skip(2) =~= digits);
    assert(digit_value(digits[0], 16) is Some);
    if digits.len() >= 2 {
        assert(digit_value(digits[1], 16) is Some);
    }
    assert(without_prefix(digits, '0', 'x') == digits);
    assert(without_prefix(digits, '0', 'X') == digits);
    assert(without_prefix(small, '0', 'x') == digits);
    assert(without_prefix(large, '0', 'x') == large);
    assert(without_prefix(large, '0', 'X') == digits);
}

/// A code that is shown reads back as that code.
pub proof fn law_a_shown_code_reads_back(code: u8)
    ensures
        hex(code as nat, 2).len() == 2,
        code_of(hex(code as nat, 2)) == Some(code),
        forall|target: Seq<char>| #[trigger]
            feature(target, code) == target + ": VCP 0x"@ + hex(code as nat, 2),
{
    law_hex_reads_back(code as nat, 2);
    reveal_with_fuel(sixteen_to, 3);
    lemma_hex_width(code as nat, 2);
    law_a_code_is_hexadecimal(hex(code as nat, 2));
}

/// A text with something in it that is neither a digit nor part of a prefix is no code.
pub proof fn law_what_is_no_digit_spoils_a_code(s: Seq<char>, i: int)
    requires
        0 <= i < s.len(),
        !('0' <= s[i] <= '9' || 'a' <= s[i] <= 'f' || 'A' <= s[i] <= 'F'),
        s[i] != 'x' && s[i] != 'X' && s[i] != '+',
    ensures
        code_of(s) is None,
{
    let t = without_prefix(s, '0', 'x');
    let u = without_prefix(t, '0', 'X');
    let k = lemma_prefix_skips(s, '0', 'x');
    let m = lemma_prefix_skips(t, '0', 'X');
    assert(u =~= s.skip(k + m));
    if i < k + m {
        if i < k {
            assert(s[i] == '0' || s[i] == 'x');
        } else {
            assert(t[i - k] == s[i]);
        }
    } else {
        let at = i - k - m;
        assert(u[at] == s[i]);
        if unsigned(u, 16) is Some {
            let digits = if u[0] == '+' {
                u.skip(1)
            } else {
                u
            };
            let d = if u[0] == '+' {
                at - 1
            } else {
                at
            };
            assert(digits[d] == s[i]);
            assert(digit_value(digits[d], 16) is Some);
        }
    }
}

// How much a prefix takes up.
proof fn lemma_prefix_skips(s: Seq<char>, a: char, b: char) -> (n: int)
    ensures
        0 <= n <= s.len(),
        n % 2 == 0,
        without_prefix(s, a, b) == s.skip(n),
        forall|i: int| 0 <= i < n ==> #[trigger] s[i] == a || s[i] == b,
    decreases s.len(),
{
    if s.len() >= 2 && s[0] == a && s[1] == b {
        let n = lemma_prefix_skips(s.skip(2), a, b) + 2;
        assert(s.skip(2).skip(n - 2) =~= s.skip(n));
        assert forall|i: int| 0 <= i < n implies #[trigger] s[i] == a || s[i] == b by {
            if i >= 2 {
                assert(s.skip(2)[i - 2] == s[i]);
            }
        }
        n
    } else {
        assert(s.skip(0) =~= s);
        0
    }
}

/// A step from a value that is not in the cycle leads to its first; from one that is, to
/// the one behind its first mention, and round from the last.
pub proof fn law_stepping_from_anywhere(values: Seq<u32>, current: u32, i: int)
    requires
        values.len() > 0,
        0 <= i <= values.len(),
        i < values.len() ==> values[i] == current,
        forall|j: int| 0 <= j < i ==> #[trigger] values[j] != current,
    ensures
        i + 1 < values.len() ==> step_from(values, current) == values[i + 1],
        i + 1 >= values.len() ==> step_from(values, current) == values[0],
{
    lemma_first_where_is(values, equals(current), i);
}

/// A name means the display that is configured under it, and nothing else then; a name
/// that is not configured means a display with that EDID id. The first of several in the
/// listing is meant.
pub proof fn law_a_name_means_its_configured_display(
    config: Config,
    target: Seq<char>,
    ms: Seq<Monitor>,
    k: int,
)
    requires
        0 <= k < ms.len(),
    ensures
        ({
            let i = first_where(ms, meant(config, target));
            let configured = config.targets@.dom().contains(target);
            let fits = if configured {
                ms[k].key@ == config.targets@[target].key@
            } else {
                ms[k].name.edid is Some && ms[k].name.edid->0@ == target
            };
            &&& k < i ==> !fits
            &&& k == i ==> fits
        }),
{
    lemma_first_where(ms, meant(config, target));
    let i = first_where(ms, meant(config, target));
    if k < i {
        assert(!meant(config, target)(ms[k]));
    }
}

/// What a command asks of a display is what it says: to read a feature, to set it to the
/// given value, to step it through the given values, or to tell what there is.
pub proof fn law_a_request_asks_what_the_command_says(
    target: String,
    code: String,
    value: u32,
    values: Vec<u32>,
    number: u8,
    request: Request,
)
    ensures
        asks(request, Command::Get { target, code }, number) <==> request == (Request::Read {
            code: number,
        }),
        asks(request, Command::Write { target, code, value }, number) <==> request == (
        Request::Put { code: number, value }),
        asks(request, Command::Switch { target, code, values }, number) <==> (
        request matches Request::Step { code: c, values: vs } && c == number && vs@ == values@),
        asks(request, Command::Caps { target }, number) <==> request == Request::Capabilities,
        (Command::Get { target, code }).code_text() == Some(code@) && (Command::Get {
            target,
            code,
        }).target_text() == target@,
        (Command::Write { target, code, value }).code_text() == Some(code@) && (Command::Write {
            target,
            code,
            value,
        }).target_text() == target@,
        (Command::Switch { target, code, values }).code_text() == Some(code@) && (Command::Switch {
            target,
            code,
            values,
        }).target_text() == target@,
        (Command::Caps { target }).code_text() is None && (Command::Caps { target }).target_text()
            == target@,
{
}

/// What is wrong with a text that is no code is told apart: there is nothing to read; or
/// it is too large, before anything else is wrong with it; or something in it is no digit.
pub proof fn law_what_is_wrong_with_a_code_is_told_apart(s: Seq<char>, n: int)
    ensures
        s.len() == 0 ==> fault(s) == "cannot parse integer from empty string"@,
        s.len() > 0 && s[0] != '+' && 0 < n <= s.len() && all_digits(s.take(n), 16)
            && digits_value(s.take(n), 16) > 255 ==> fault(s)
            == "number too large to fit in target type"@,
        s.len() > 0 && s[0] != '+' && digit_value(s[0], 16) is None ==> fault(s)
            == "invalid digit found in string"@,
{
    if s.len() > 0 && s[0] != '+' {
        assert(unsigned_digits(s) == s);
        if 0 < n <= s.len() && all_digits(s.take(n), 16) && digits_value(s.take(n), 16) > 255 {
            assert(too_large(s, n));
        }
        if digit_value(s[0], 16) is None {
            assert forall|m: int| !too_large(s, m) by {
                if too_large(s, m) {
                    assert(digit_value(s.take(m)[0], 16) is Some);
                }
            }
        }
    }
}

/// What is read, set or stepped is told of with its numbers in their places.
pub proof fn law_each_change_is_told_of(
    target: &str,
    code: u8,
    vcp: Vcp,
    value: u32,
    next: u32,
    read: String,
    put: String,
    stepped: String,
)
    requires
        call_ensures(get_line, (target, code, vcp), read),
        call_ensures(set_line, (target, code, value), put),
        call_ensures(switch_line, (target, code, value, next), stepped),
    ensures
        read@ == feature(target@, code) + " = "@ + decimal(vcp.current as nat) + " (max "@
            + decimal(vcp.maximum as nat) + ")"@,
        put@ == feature(target@, code) + " set to "@ + decimal(value as nat),
        stepped@ == feature(target@, code) + " "@ + decimal(value as nat) + " -> "@ + decimal(
            next as nat,
        ),
        feature(target@, code) == target@ + ": VCP 0x"@ + hex(code as nat, 2),
{
}

/// A display is found exactly if one is meant and it is active; what is said where none is
/// tells the two apart.
pub proof fn law_only_an_active_display_is_found(
    config: &Config,
    target: &str,
    monitors: &[Monitor],
    r: Result<String, Error>,
)
    requires
        call_ensures(find_display, (config, target, monitors), r),
    ensures
        ({
            let i = first_where(monitors@, meant(*config, target@));
            &&& r is Ok <==> i < monitors@.len() && monitors@[i].gdi_name is Some
            &&& r matches Ok(name) ==> (monitors@[i].gdi_name matches Some(gdi) && name@ == gdi@)
            &&& i >= monitors@.len() ==> (r matches Err(e) && chain(e) == seq![
                "no display named \""@ + target@ + "\"; configured targets: "@ + join(
                    config.targets.names(),
                    ", "@,
                ),
            ])
            &&& i < monitors@.len() && monitors@[i].gdi_name is None ==> (r matches Err(e)
                && chain(e) == seq![
                "\""@ + target@
                    + "\" is not currently active, so it has no DDC/CI channel.\n  Switch to a profile that includes it first."@,
            ])
        }),
{
}

/// A command is carried out exactly if its code, where it has one, is a code, on the
/// display and with the feature that it names. The laws on codes and values are about what
/// the functions here return.
pub proof fn law_a_command_is_carried_out_as_stated(
    command: Command,
    text: &str,
    values: &[u32],
    current: u32,
    r: Result<(String, Request), Error>,
)
    requires
        call_ensures(plan, (command,), r),
    ensures
        r is Ok <==> (command.code_text() matches Some(code) ==> code_of(code) is Some),
        r matches Ok(p) ==> p.0@ == command.target_text(),
        r matches Ok(p) ==> (command.code_text() matches Some(code) ==> asks(
            p.1,
            command,
            code_of(code)->0,
        )),
        r matches Ok(p) ==> (command.code_text() is None ==> asks(p.1, command, 0)),
        r matches Err(e) ==> (command.code_text() matches Some(code) && chain(e) == bad_code(code)),
        forall|c: Result<u8, Error>|
            call_ensures(parse_code, (text,), c) ==> match c {
                Ok(code) => code_of(text@) == Some(code),
                Err(e) => code_of(text@) is None && chain(e) == bad_code(text@),
            },
        forall|next: u32|
            call_ensures(next_value, (values, current), next) ==> next == step_from(
                values@,
                current,
            ),
{
}

/// A text that is no code is refused by itself, with what is wrong with what stands behind
/// its prefix, if it has one.
pub proof fn law_a_bad_code_is_named(text: Seq<char>)
    ensures
        bad_code(text).len() == 2,
        bad_code(text)[0] == "\""@ + text
            + "\" is not a VCP code; expected hex, e.g. 60 or 0x60"@,
        text.len() > 0 && text[0] != '0' ==> bad_code(text)[1] == fault(text),
        text.len() == 1 ==> bad_code(text)[1] == fault(text),
{
}

} // verus!
