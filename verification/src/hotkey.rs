//! Parsing a hotkey written the way people write them: `ctrl+shift+s`.
//!
//! Registering a hotkey takes a modifier bitmask and a virtual-key code, and
//! nothing in Windows will turn a string into those.
//!
//! A combination with no modifier is rejected. It could be registered, and would
//! then swallow that key system-wide, which is a spectacular way to make a machine
//! unusable from a one-word typo in a config file.

use vstd::prelude::*;
use vstd::string::*;

use crate::app::{check_words, complaint_of, split_words, typed, words_of};
use crate::error::{chain, headline, Error};
use crate::names::NameMap;
use crate::seqs::{first_where, lemma_first_where, lemma_first_where_is};
use crate::text::{
    ascii_alphanumeric, ascii_digit, cat2, cat3, cat4, cat5, chars_of, decimal, decimal_text, hex,
    hex_text, is_ascii_alphanumeric, join, joined, lemma_decimal_reads_back, lemma_split_join,
    lower, lower_char, parse_unsigned, same_text, split, split_at, string_of_range, texts,
    to_lower, to_upper_char, trim, trimmed, unsigned, upper_char, whitespace,
};
use crate::winerr::opt_text;

verus! {

/// A modifier bitmask.
#[derive(Debug, Clone, Copy, PartialEq, Eq, Structural)]
pub struct Modifiers(pub u32);

pub const MOD_ALT: u32 = 1;

pub const MOD_CONTROL: u32 = 2;

pub const MOD_SHIFT: u32 = 4;

pub const MOD_WIN: u32 = 8;

pub const MOD_NOREPEAT: u32 = 16384;

/// `VK_SPACE`.
pub const VK_SPACE: u32 = 0x20;

/// `VK_TAB`.
pub const VK_TAB: u32 = 0x09;

/// `VK_RETURN`.
pub const VK_RETURN: u32 = 0x0D;

/// `VK_ESCAPE`.
pub const VK_ESCAPE: u32 = 0x1B;

/// `VK_BACK`.
pub const VK_BACK: u32 = 0x08;

/// `VK_DELETE`.
pub const VK_DELETE: u32 = 0x2E;

/// `VK_INSERT`.
pub const VK_INSERT: u32 = 0x2D;

/// `VK_HOME`.
pub const VK_HOME: u32 = 0x24;

/// `VK_END`.
pub const VK_END: u32 = 0x23;

/// `VK_PRIOR`.
pub const VK_PRIOR: u32 = 0x21;

/// `VK_NEXT`.
pub const VK_NEXT: u32 = 0x22;

/// `VK_LEFT`.
pub const VK_LEFT: u32 = 0x25;

/// `VK_UP`.
pub const VK_UP: u32 = 0x26;

/// `VK_RIGHT`.
pub const VK_RIGHT: u32 = 0x27;

/// `VK_DOWN`.
pub const VK_DOWN: u32 = 0x28;

/// `VK_PAUSE`.
pub const VK_PAUSE: u32 = 0x13;

/// `VK_SCROLL`.
pub const VK_SCROLL: u32 = 0x91;

/// `VK_SNAPSHOT`.
pub const VK_SNAPSHOT: u32 = 0x2C;

/// A parsed hotkey, ready to be registered.
#[derive(Debug, Clone, Copy, PartialEq, Eq, Structural)]
pub struct Binding {
    pub modifiers: Modifiers,
    pub vk: u32,
}

// ---------------------------------------------------------------------------
// Keys
// ---------------------------------------------------------------------------

/// The keys that go by a name of several letters, in small letters.
pub open spec fn named_key(name: Seq<char>) -> Option<u32> {
    if name == "space"@ {
        Some(0x20u32)
    } else if name == "tab"@ {
        Some(0x09u32)
    } else if name == "enter"@ || name == "return"@ {
        Some(0x0Du32)
    } else if name == "esc"@ || name == "escape"@ {
        Some(0x1Bu32)
    } else if name == "backspace"@ {
        Some(0x08u32)
    } else if name == "delete"@ || name == "del"@ {
        Some(0x2Eu32)
    } else if name == "insert"@ || name == "ins"@ {
        Some(0x2Du32)
    } else if name == "home"@ {
        Some(0x24u32)
    } else if name == "end"@ {
        Some(0x23u32)
    } else if name == "pageup"@ || name == "pgup"@ {
        Some(0x21u32)
    } else if name == "pagedown"@ || name == "pgdn"@ {
        Some(0x22u32)
    } else if name == "left"@ {
        Some(0x25u32)
    } else if name == "up"@ {
        Some(0x26u32)
    } else if name == "right"@ {
        Some(0x27u32)
    } else if name == "down"@ {
        Some(0x28u32)
    } else if name == "pause"@ {
        Some(0x13u32)
    } else if name == "scrolllock"@ {
        Some(0x91u32)
    } else if name == "printscreen"@ || name == "prtsc"@ {
        Some(0x2Cu32)
    } else {
        None
    }
}

/// The number of a function key.
pub open spec fn function_number(name: Seq<char>) -> Option<nat> {
    if name.len() > 0 && name[0] == 'f' {
        match unsigned(name.skip(1), 10) {
            Some(n) => if 1 <= n <= 24 {
                Some(n)
            } else {
                None
            },
            None => None,
        }
    } else {
        None
    }
}

/// Virtual-key code for a key name. Letters and digits are their own codes, in
/// capitals.
pub open spec fn code_for(name: Seq<char>) -> Option<u32> {
    if name.len() == 1 && ascii_alphanumeric(name[0]) {
        Some(upper_char(name[0]) as u32)
    } else {
        match function_number(name) {
            Some(n) => Some((0x70 + n - 1) as u32),
            None => named_key(name),
        }
    }
}

/// Virtual-key code for a key name.
pub fn key_code(name: &str) -> (r: Option<u32>)
    ensures
        r == code_for(name@),
{
    let cs = chars_of(name);
    if cs.len() == 1 && is_ascii_alphanumeric(cs[0]) {
        return Some(to_upper_char(cs[0]) as u32);
    }
    if cs.len() > 0 && cs[0] == 'f' {
        let digits = string_of_range(cs.as_slice(), 1, cs.len());
        assert(digits@ =~= name@.skip(1));
        if let Some(n) = parse_unsigned(digits.as_str(), 10, 24) {
            if n >= 1 {
                return Some(0x70 + n - 1);
            }
        }
    }
    if same_text(name, "space") {
        Some(0x20)
    } else if same_text(name, "tab") {
        Some(0x09)
    } else if same_text(name, "enter") || same_text(name, "return") {
        Some(0x0D)
    } else if same_text(name, "esc") || same_text(name, "escape") {
        Some(0x1B)
    } else if same_text(name, "backspace") {
        Some(0x08)
    } else if same_text(name, "delete") || same_text(name, "del") {
        Some(0x2E)
    } else if same_text(name, "insert") || same_text(name, "ins") {
        Some(0x2D)
    } else if same_text(name, "home") {
        Some(0x24)
    } else if same_text(name, "end") {
        Some(0x23)
    } else if same_text(name, "pageup") || same_text(name, "pgup") {
        Some(0x21)
    } else if same_text(name, "pagedown") || same_text(name, "pgdn") {
        Some(0x22)
    } else if same_text(name, "left") {
        Some(0x25)
    } else if same_text(name, "up") {
        Some(0x26)
    } else if same_text(name, "right") {
        Some(0x27)
    } else if same_text(name, "down") {
        Some(0x28)
    } else if same_text(name, "pause") {
        Some(0x13)
    } else if same_text(name, "scrolllock") {
        Some(0x91)
    } else if same_text(name, "printscreen") || same_text(name, "prtsc") {
        Some(0x2C)
    } else {
        None
    }
}

/// Codes that are written as the character they are. Only capitals and digits:
/// the codes of small letters overlap those of the function keys.
pub open spec fn written_as_itself(vk: u32) -> bool {
    0x30 <= vk <= 0x39 || 0x41 <= vk <= 0x5A
}

/// How the key with a code is written.
pub open spec fn label_of(vk: u32) -> Seq<char> {
    if written_as_itself(vk) {
        seq![vk as char]
    } else if 0x70 <= vk <= 0x87 {
        "F"@ + decimal((vk - 0x70 + 1) as nat)
    } else if vk == 0x20 {
        "Space"@
    } else if vk == 0x09 {
        "Tab"@
    } else if vk == 0x0D {
        "Enter"@
    } else if vk == 0x1B {
        "Esc"@
    } else if vk == 0x08 {
        "Backspace"@
    } else if vk == 0x2E {
        "Delete"@
    } else if vk == 0x2D {
        "Insert"@
    } else if vk == 0x24 {
        "Home"@
    } else if vk == 0x23 {
        "End"@
    } else if vk == 0x21 {
        "PageUp"@
    } else if vk == 0x22 {
        "PageDown"@
    } else if vk == 0x25 {
        "Left"@
    } else if vk == 0x26 {
        "Up"@
    } else if vk == 0x27 {
        "Right"@
    } else if vk == 0x28 {
        "Down"@
    } else if vk == 0x13 {
        "Pause"@
    } else if vk == 0x91 {
        "ScrollLock"@
    } else if vk == 0x2C {
        "PrintScreen"@
    } else {
        "0x"@ + hex(vk as nat, 2)
    }
}

/// How the key with a code is written.
pub fn key_name(vk: u32) -> (r: String)
    ensures
        r@ == label_of(vk),
{
    if (0x30 <= vk && vk <= 0x39) || (0x41 <= vk && vk <= 0x5A) {
        let mut out = String::new();
        out.push(vk as u8 as char);
        assert(out@ =~= seq![vk as char]);
        return out;
    }
    if 0x70 <= vk && vk <= 0x87 {
        let number = decimal_text((vk - 0x70 + 1) as u128);
        return cat2("F", number.as_str());
    }
    match vk {
        0x20 => "Space".to_owned(),
        0x09 => "Tab".to_owned(),
        0x0D => "Enter".to_owned(),
        0x1B => "Esc".to_owned(),
        0x08 => "Backspace".to_owned(),
        0x2E => "Delete".to_owned(),
        0x2D => "Insert".to_owned(),
        0x24 => "Home".to_owned(),
        0x23 => "End".to_owned(),
        0x21 => "PageUp".to_owned(),
        0x22 => "PageDown".to_owned(),
        0x25 => "Left".to_owned(),
        0x26 => "Up".to_owned(),
        0x27 => "Right".to_owned(),
        0x28 => "Down".to_owned(),
        0x13 => "Pause".to_owned(),
        0x91 => "ScrollLock".to_owned(),
        0x2C => "PrintScreen".to_owned(),
        _ => {
            let number = hex_text(vk, 2);
            cat2("0x", number.as_str())
        },
    }
}

// ---------------------------------------------------------------------------
// Combinations
// ---------------------------------------------------------------------------

impl Modifiers {
    /// Whether a bitmask has a modifier in it.
    pub open spec fn has(self, flag: u32) -> bool {
        self.0 & flag != 0
    }
}

/// The names of the modifiers in a bitmask.
pub open spec fn modifier_names(m: Modifiers) -> Seq<Seq<char>> {
    (if m.has(MOD_CONTROL) {
        seq!["Ctrl"@]
    } else {
        Seq::empty()
    }) + (if m.has(MOD_SHIFT) {
        seq!["Shift"@]
    } else {
        Seq::empty()
    }) + (if m.has(MOD_ALT) {
        seq!["Alt"@]
    } else {
        Seq::empty()
    }) + (if m.has(MOD_WIN) {
        seq!["Win"@]
    } else {
        Seq::empty()
    })
}

impl Binding {
    /// The parts of a combination, as they are written.
    pub open spec fn parts(self) -> Seq<Seq<char>> {
        modifier_names(self.modifiers).push(label_of(self.vk))
    }

    /// The combination, as it is written.
    pub open spec fn description(self) -> Seq<char> {
        join(self.parts(), "+"@)
    }

    /// How the combination should be written back to a human: in the tray menu,
    /// and in the message when registering it fails.
    pub fn describe(&self) -> (r: String)
        ensures
            r@ == self.description(),
    {
        let mut parts: Vec<String> = Vec::new();
        assert(texts(parts@) =~= Seq::empty());
        if self.modifiers.0 & MOD_CONTROL != 0 {
            parts.push("Ctrl".to_owned());
        }
        if self.modifiers.0 & MOD_SHIFT != 0 {
            parts.push("Shift".to_owned());
        }
        if self.modifiers.0 & MOD_ALT != 0 {
            parts.push("Alt".to_owned());
        }
        if self.modifiers.0 & MOD_WIN != 0 {
            parts.push("Win".to_owned());
        }
        assert(texts(parts@) =~= modifier_names(self.modifiers));
        let ghost before = parts@;
        parts.push(key_name(self.vk));
        assert(texts(parts@) =~= texts(before).push(label_of(self.vk)));
        joined(parts.as_slice(), "+")
    }
}

/// What one part of a combination is.
pub enum Part {
    Control,
    Shift,
    Alt,
    Win,
    Key { vk: u32 },
    Blank,
    Unknown,
}

/// What a part of a combination is. Case and surrounding white space are not
/// significant.
pub open spec fn part_of(part: Seq<char>) -> Part {
    let name = lower(trim(part));
    if name.len() == 0 {
        Part::Blank
    } else if name == "ctrl"@ || name == "control"@ {
        Part::Control
    } else if name == "shift"@ {
        Part::Shift
    } else if name == "alt"@ || name == "menu"@ {
        Part::Alt
    } else if name == "win"@ || name == "super"@ || name == "meta"@ {
        Part::Win
    } else {
        match code_for(name) {
            Some(vk) => Part::Key { vk },
            None => Part::Unknown,
        }
    }
}

/// What the parts of a combination come to, from the first on, up to the first
/// thing that is wrong.
pub enum Scan {
    Fine { control: bool, shift: bool, alt: bool, win: bool, key: Option<u32> },
    Blank,
    Unknown { part: Seq<char> },
    TwoKeys { first: u32, second: u32 },
}

/// What the parts of a combination come to.
pub open spec fn scan(parts: Seq<Seq<char>>) -> Scan
    decreases parts.len(),
{
    if parts.len() == 0 {
        Scan::Fine { control: false, shift: false, alt: false, win: false, key: None }
    } else {
        match scan(parts.drop_last()) {
            Scan::Fine { control, shift, alt, win, key } => match part_of(parts.last()) {
                Part::Control => Scan::Fine { control: true, shift, alt, win, key },
                Part::Shift => Scan::Fine { control, shift: true, alt, win, key },
                Part::Alt => Scan::Fine { control, shift, alt: true, win, key },
                Part::Win => Scan::Fine { control, shift, alt, win: true, key },
                Part::Blank => Scan::Blank,
                Part::Unknown => Scan::Unknown { part: trim(parts.last()) },
                Part::Key { vk } => match key {
                    Some(first) => Scan::TwoKeys { first, second: vk },
                    None => Scan::Fine { control, shift, alt, win, key: Some(vk) },
                },
            },
            wrong => wrong,
        }
    }
}

/// The bitmask of some modifiers. Auto-repeat is always off: a held key would be a
/// stream of display switches.
pub open spec fn bitmask(control: bool, shift: bool, alt: bool, win: bool) -> u32 {
    (if control {
        MOD_CONTROL
    } else {
        0
    }) | (if shift {
        MOD_SHIFT
    } else {
        0
    }) | (if alt {
        MOD_ALT
    } else {
        0
    }) | (if win {
        MOD_WIN
    } else {
        0
    }) | MOD_NOREPEAT
}

/// The combination that a string stands for, if it is one: at least one modifier,
/// and exactly one key.
pub open spec fn binding_of(spec: Seq<char>) -> Option<Binding> {
    match scan(split(spec, '+')) {
        Scan::Fine { control, shift, alt, win, key: Some(vk) } => if control || shift || alt
            || win {
            Some(Binding { modifiers: Modifiers(bitmask(control, shift, alt, win)), vk })
        } else {
            None
        },
        _ => None,
    }
}

/// Why a string is no combination.
pub open spec fn refusal(spec: Seq<char>) -> Seq<char> {
    match scan(split(spec, '+')) {
        Scan::Blank => "\""@ + spec + "\" has an empty part; write it like ctrl+shift+s"@,
        Scan::Unknown { part } => "\""@ + part + "\" in \""@ + spec
            + "\" is not a key this understands"@,
        Scan::TwoKeys { first, second } => "\""@ + spec + "\" names two keys ("@ + label_of(first)
            + " and "@ + label_of(second)
            + "); a hotkey has one key and any number of modifiers"@,
        Scan::Fine { key: None, .. } => "\""@ + spec + "\" is all modifiers and no key"@,
        Scan::Fine { key: Some(vk), .. } => "\""@ + spec
            + "\" has no modifier. A bare key would be taken system-wide, leaving it unusable everywhere else — write something like ctrl+shift+"@
            + lower(label_of(vk)),
    }
}

// One thing wrong in front stays what is wrong.
proof fn lemma_scan_prefix(parts: Seq<Seq<char>>, n: int)
    requires
        0 <= n <= parts.len(),
        !(scan(parts.take(n)) is Fine),
    ensures
        scan(parts) == scan(parts.take(n)),
    decreases parts.len() - n,
{
    if n < parts.len() {
        assert(parts.take(n + 1).drop_last() =~= parts.take(n));
        lemma_scan_prefix(parts, n + 1);
    } else {
        assert(parts.take(n) =~= parts);
    }
}

/// Parse `ctrl+shift+s` and the like. Case and spacing are not significant.
pub fn parse(spec: &str) -> (r: Result<Binding, Error>)
    ensures
        match r {
            Ok(b) => binding_of(spec@) == Some(b),
            Err(e) => binding_of(spec@) is None && chain(e) == seq![refusal(spec@)],
        },
{
    let mut control = false;
    let mut shift = false;
    let mut alt = false;
    let mut win = false;
    let mut key: Option<u32> = None;
    let parts = split_at(spec, '+');
    let ghost all = split(spec@, '+');
    assert(all.take(0) =~= Seq::empty());
    for i in 0..parts.len()
        invariant
            texts(parts@) == all,
            all == split(spec@, '+'),
            scan(all.take(i as int)) == (Scan::Fine { control, shift, alt, win, key }),
    {
        let ghost next = all.take(i + 1);
        assert(next.drop_last() =~= all.take(i as int));
        assert(next.last() == parts@[i as int]@);
        let part = trimmed(parts[i].as_str());
        let name = to_lower(part.as_str());
        if part.as_str().is_empty() {
            proof {
                lemma_scan_prefix(all, i + 1);
            }
            return Err(
                Error::Plain {
                    why: cat3("\"", spec, "\" has an empty part; write it like ctrl+shift+s"),
                },
            );
        }
        let name = name.as_str();
        if same_text(name, "ctrl") || same_text(name, "control") {
            control = true;
        } else if same_text(name, "shift") {
            shift = true;
        } else if same_text(name, "alt") || same_text(name, "menu") {
            alt = true;
        } else if same_text(name, "win") || same_text(name, "super") || same_text(name, "meta") {
            win = true;
        } else {
            let vk: u32 = match key_code(name) {
                Some(vk) => vk,
                None => {
                    proof {
                        lemma_scan_prefix(all, i + 1);
                    }
                    return Err(
                        Error::Plain {
                            why: cat5(
                                "\"",
                                part.as_str(),
                                "\" in \"",
                                spec,
                                "\" is not a key this understands",
                            ),
                        },
                    );
                },
            };
            if let Some(first) = key {
                proof {
                    lemma_scan_prefix(all, i + 1);
                }
                let one = key_name(first);
                let two = key_name(vk);
                let head = cat4("\"", spec, "\" names two keys (", one.as_str());
                return Err(
                    Error::Plain {
                        why: cat4(
                            head.as_str(),
                            " and ",
                            two.as_str(),
                            "); a hotkey has one key and any number of modifiers",
                        ),
                    },
                );
            }
            key = Some(vk);
        }
    }
    assert(all.take(all.len() as int) =~= all);
    let vk: u32 = match key {
        Some(vk) => vk,
        None => return Err(
            Error::Plain { why: cat3("\"", spec, "\" is all modifiers and no key") },
        ),
    };
    if !control && !shift && !alt && !win {
        let label = key_name(vk);
        let small = to_lower(label.as_str());
        return Err(
            Error::Plain {
                why: cat4(
                    "\"",
                    spec,
                    "\" has no modifier. A bare key would be taken system-wide, leaving it unusable everywhere else — write something like ctrl+shift+",
                    small.as_str(),
                ),
            },
        );
    }
    let c: u32 = if control {
        MOD_CONTROL
    } else {
        0
    };
    let s: u32 = if shift {
        MOD_SHIFT
    } else {
        0
    };
    let a: u32 = if alt {
        MOD_ALT
    } else {
        0
    };
    let w: u32 = if win {
        MOD_WIN
    } else {
        0
    };
    // Without the flag against it a held key repeats at the keyboard's rate.
    Ok(Binding { modifiers: Modifiers(c | s | a | w | MOD_NOREPEAT), vk })
}

// ---------------------------------------------------------------------------
// What holds of combinations
// ---------------------------------------------------------------------------

// Which modifiers are in the bitmask of some.
proof fn lemma_bitmask(control: bool, shift: bool, alt: bool, win: bool)
    ensures
        ({
            let m = Modifiers(bitmask(control, shift, alt, win));
            &&& m.has(MOD_CONTROL) == control
            &&& m.has(MOD_SHIFT) == shift
            &&& m.has(MOD_ALT) == alt
            &&& m.has(MOD_WIN) == win
            &&& m.has(MOD_NOREPEAT)
        }),
{
    let c: u32 = if control {
        2
    } else {
        0
    };
    let s: u32 = if shift {
        4
    } else {
        0
    };
    let a: u32 = if alt {
        1
    } else {
        0
    };
    let w: u32 = if win {
        8
    } else {
        0
    };
    assert((c | s | a | w | 16384u32) & 2u32 == c && (c | s | a | w | 16384u32) & 4u32 == s && (c
        | s | a | w | 16384u32) & 1u32 == a && (c | s | a | w | 16384u32) & 8u32 == w && (c | s | a
        | w | 16384u32) & 16384u32 == 16384u32) by (bit_vector)
        requires
            c == 0u32 || c == 2u32,
            s == 0u32 || s == 4u32,
            a == 0u32 || a == 1u32,
            w == 0u32 || w == 8u32,
    ;
}

/// Every hotkey has a modifier, and none repeats while it is held.
pub proof fn law_a_hotkey_has_a_modifier_and_does_not_repeat(spec: Seq<char>)
    requires
        binding_of(spec) is Some,
    ensures
        ({
            let m = binding_of(spec)->0.modifiers;
            &&& m.has(MOD_NOREPEAT)
            &&& m.has(MOD_CONTROL) || m.has(MOD_SHIFT) || m.has(MOD_ALT) || m.has(MOD_WIN)
        }),
{
    if let Scan::Fine { control, shift, alt, win, .. } = scan(split(spec, '+')) {
        lemma_bitmask(control, shift, alt, win);
    }
}

/// Whether two combinations differ in case and in spacing only.
pub open spec fn spelled_alike(a: Seq<Seq<char>>, b: Seq<Seq<char>>) -> bool {
    &&& a.len() == b.len()
    &&& forall|i: int|
        #![trigger a[i]]
        #![trigger b[i]]
        0 <= i < a.len() ==> lower(trim(a[i])) == lower(trim(b[i]))
}

/// Case and spacing do not matter.
pub proof fn law_case_and_spacing_do_not_matter(a: Seq<char>, b: Seq<char>)
    requires
        spelled_alike(split(a, '+'), split(b, '+')),
    ensures
        binding_of(a) == binding_of(b),
{
    lemma_scan_alike(split(a, '+'), split(b, '+'));
}

// What is spelled alike comes to the same.
proof fn lemma_scan_alike(a: Seq<Seq<char>>, b: Seq<Seq<char>>)
    requires
        spelled_alike(a, b),
    ensures
        scan(a) is Fine == scan(b) is Fine,
        scan(a) is Fine ==> scan(a) == scan(b),
    decreases a.len(),
{
    if a.len() > 0 {
        assert forall|i: int|
            #![trigger a.drop_last()[i]]
            #![trigger b.drop_last()[i]]
            0 <= i < a.len() - 1 implies lower(trim(a.drop_last()[i])) == lower(
            trim(b.drop_last()[i]),
        ) by {
            assert(a.drop_last()[i] == a[i] && b.drop_last()[i] == b[i]);
        }
        lemma_scan_alike(a.drop_last(), b.drop_last());
        assert(a[a.len() - 1] == a.last() && b[b.len() - 1] == b.last());
        assert(part_of(a.last()) == part_of(b.last()));
    }
}

/// The codes that key names stand for.
pub open spec fn known_key(vk: u32) -> bool {
    ||| written_as_itself(vk)
    ||| 0x70 <= vk <= 0x87
    ||| vk == 0x20 || vk == 0x09 || vk == 0x0D || vk == 0x1B || vk == 0x08 || vk == 0x2E
    ||| vk == 0x2D || vk == 0x24 || vk == 0x23 || vk == 0x21 || vk == 0x22 || vk == 0x25
    ||| vk == 0x26 || vk == 0x27 || vk == 0x28 || vk == 0x13 || vk == 0x91 || vk == 0x2C
}

// A combination that was understood has a key with a known code.
proof fn lemma_scan_key(parts: Seq<Seq<char>>)
    ensures
        scan(parts) matches Scan::Fine { key: Some(vk), .. } ==> known_key(vk),
    decreases parts.len(),
{
    if parts.len() > 0 {
        lemma_scan_key(parts.drop_last());
    }
}

// A text without white space at its ends is trimmed already.
proof fn lemma_trimmed_already(s: Seq<char>)
    requires
        s.len() > 0,
        !whitespace(s[0]),
        !whitespace(s.last()),
    ensures
        trim(s) == s,
{
}

// How the modifiers are written is how they are read.
proof fn lemma_modifier_parts()
    ensures
        part_of("Ctrl"@) == Part::Control,
        part_of("Shift"@) == Part::Shift,
        part_of("Alt"@) == Part::Alt,
        part_of("Win"@) == Part::Win,
        !"Ctrl"@.contains('+'),
        !"Shift"@.contains('+'),
        !"Alt"@.contains('+'),
        !"Win"@.contains('+'),
{
    reveal_strlit("Ctrl");
    reveal_strlit("Shift");
    reveal_strlit("Alt");
    reveal_strlit("Win");
    reveal_strlit("ctrl");
    reveal_strlit("control");
    reveal_strlit("shift");
    reveal_strlit("alt");
    reveal_strlit("menu");
    reveal_strlit("win");
    lemma_trimmed_already("Ctrl"@);
    lemma_trimmed_already("Shift"@);
    lemma_trimmed_already("Alt"@);
    lemma_trimmed_already("Win"@);
    assert(lower("Ctrl"@) =~= "ctrl"@);
    assert(lower("Shift"@) =~= "shift"@);
    assert(lower("Alt"@) =~= "alt"@);
    assert(lower("Win"@) =~= "win"@);
}

// What the literals among the key names hold.
proof fn lemma_key_literals()
    ensures
        "ctrl"@ =~= seq!['c', 't', 'r', 'l'],
        "control"@ =~= seq!['c', 'o', 'n', 't', 'r', 'o', 'l'],
        "shift"@ =~= seq!['s', 'h', 'i', 'f', 't'],
        "alt"@ =~= seq!['a', 'l', 't'],
        "menu"@ =~= seq!['m', 'e', 'n', 'u'],
        "win"@ =~= seq!['w', 'i', 'n'],
        "super"@ =~= seq!['s', 'u', 'p', 'e', 'r'],
        "meta"@ =~= seq!['m', 'e', 't', 'a'],
        "space"@ =~= seq!['s', 'p', 'a', 'c', 'e'],
        "tab"@ =~= seq!['t', 'a', 'b'],
        "enter"@ =~= seq!['e', 'n', 't', 'e', 'r'],
        "return"@ =~= seq!['r', 'e', 't', 'u', 'r', 'n'],
        "esc"@ =~= seq!['e', 's', 'c'],
        "escape"@ =~= seq!['e', 's', 'c', 'a', 'p', 'e'],
        "backspace"@ =~= seq!['b', 'a', 'c', 'k', 's', 'p', 'a', 'c', 'e'],
        "delete"@ =~= seq!['d', 'e', 'l', 'e', 't', 'e'],
        "del"@ =~= seq!['d', 'e', 'l'],
        "insert"@ =~= seq!['i', 'n', 's', 'e', 'r', 't'],
        "ins"@ =~= seq!['i', 'n', 's'],
        "home"@ =~= seq!['h', 'o', 'm', 'e'],
        "end"@ =~= seq!['e', 'n', 'd'],
        "pageup"@ =~= seq!['p', 'a', 'g', 'e', 'u', 'p'],
        "pgup"@ =~= seq!['p', 'g', 'u', 'p'],
        "pagedown"@ =~= seq!['p', 'a', 'g', 'e', 'd', 'o', 'w', 'n'],
        "pgdn"@ =~= seq!['p', 'g', 'd', 'n'],
        "left"@ =~= seq!['l', 'e', 'f', 't'],
        "up"@ =~= seq!['u', 'p'],
        "right"@ =~= seq!['r', 'i', 'g', 'h', 't'],
        "down"@ =~= seq!['d', 'o', 'w', 'n'],
        "pause"@ =~= seq!['p', 'a', 'u', 's', 'e'],
        "scrolllock"@ =~= seq!['s', 'c', 'r', 'o', 'l', 'l', 'l', 'o', 'c', 'k'],
        "printscreen"@ =~= seq!['p', 'r', 'i', 'n', 't', 's', 'c', 'r', 'e', 'e', 'n'],
        "prtsc"@ =~= seq!['p', 'r', 't', 's', 'c'],
{
    reveal_strlit("ctrl");
    reveal_strlit("control");
    reveal_strlit("shift");
    reveal_strlit("alt");
    reveal_strlit("menu");
    reveal_strlit("win");
    reveal_strlit("super");
    reveal_strlit("meta");
    reveal_strlit("space");
    reveal_strlit("tab");
    reveal_strlit("enter");
    reveal_strlit("return");
    reveal_strlit("esc");
    reveal_strlit("escape");
    reveal_strlit("backspace");
    reveal_strlit("delete");
    reveal_strlit("del");
    reveal_strlit("insert");
    reveal_strlit("ins");
    reveal_strlit("home");
    reveal_strlit("end");
    reveal_strlit("pageup");
    reveal_strlit("pgup");
    reveal_strlit("pagedown");
    reveal_strlit("pgdn");
    reveal_strlit("left");
    reveal_strlit("up");
    reveal_strlit("right");
    reveal_strlit("down");
    reveal_strlit("pause");
    reveal_strlit("scrolllock");
    reveal_strlit("printscreen");
    reveal_strlit("prtsc");
}

// A key name of several letters, by its length and its first letters, is no
// other.
proof fn lemma_named_part(label: Seq<char>, name: Seq<char>, vk: u32)
    requires
        label.len() == name.len(),
        name.len() > 1,
        forall|i: int| 0 <= i < label.len() ==> !whitespace(#[trigger] label[i]) && label[i] != '+',
        lower(label) == name,
        named_key(name) == Some(vk),
        name[0] != 'f',
        name != "ctrl"@,
        name != "control"@,
        name != "shift"@,
        name != "alt"@,
        name != "menu"@,
        name != "win"@,
        name != "super"@,
        name != "meta"@,
    ensures
        part_of(label) == (Part::Key { vk }),
        !label.contains('+'),
{
    assert(!whitespace(label[0]) && !whitespace(label[label.len() - 1]));
    lemma_trimmed_already(label);
}

// How a key is written is how it is read.
#[verifier::rlimit(60)]
#[verifier::spinoff_prover]
proof fn lemma_label_part(vk: u32)
    requires
        known_key(vk),
    ensures
        part_of(label_of(vk)) == (Part::Key { vk }),
        !label_of(vk).contains('+'),
{
    lemma_key_literals();
    let label = label_of(vk);
    if written_as_itself(vk) {
        lemma_trimmed_already(label);
        assert(lower(label) =~= seq![lower_char(vk as char)]);
        assert(lower(label).len() == 1);
    } else if 0x70 <= vk <= 0x87 {
        let n = (vk - 0x70 + 1) as nat;
        reveal_strlit("F");
        lemma_decimal_reads_back(n);
        assert(decimal(n).len() > 0);
        assert(label.last() == decimal(n).last());
        assert(ascii_digit(decimal(n)[decimal(n).len() - 1]));
        lemma_trimmed_already(label);
        let name = lower(label);
        assert(name.skip(1) =~= decimal(n)) by {
            assert forall|i: int| 0 <= i < decimal(n).len() implies name.skip(1)[i] == decimal(
                n,
            )[i] by {
                assert(ascii_digit(decimal(n)[i]));
                assert(label[i + 1] == decimal(n)[i]);
            }
        }
        assert(name[0] == 'f');
        assert(!label.contains('+')) by {
            if label.contains('+') {
                let i = choose|i: int| 0 <= i < label.len() && label[i] == '+';
                if i > 0 {
                    assert(ascii_digit(decimal(n)[i - 1]));
                }
            }
        }
    } else if vk == 0x20 {
        reveal_strlit("Space");
        assert(lower(label) =~= "space"@);
        lemma_named_part(label, "space"@, vk);
    } else if vk == 0x09 {
        reveal_strlit("Tab");
        assert(lower(label) =~= "tab"@);
        lemma_named_part(label, "tab"@, vk);
    } else if vk == 0x0D {
        reveal_strlit("Enter");
        assert(lower(label) =~= "enter"@);
        lemma_named_part(label, "enter"@, vk);
    } else if vk == 0x1B {
        reveal_strlit("Esc");
        assert(lower(label) =~= "esc"@);
        lemma_named_part(label, "esc"@, vk);
    } else if vk == 0x08 {
        reveal_strlit("Backspace");
        assert(lower(label) =~= "backspace"@);
        lemma_named_part(label, "backspace"@, vk);
    } else if vk == 0x2E {
        reveal_strlit("Delete");
        assert(lower(label) =~= "delete"@);
        lemma_named_part(label, "delete"@, vk);
    } else if vk == 0x2D {
        reveal_strlit("Insert");
        assert(lower(label) =~= "insert"@);
        lemma_named_part(label, "insert"@, vk);
    } else if vk == 0x24 {
        reveal_strlit("Home");
        assert(lower(label) =~= "home"@);
        lemma_named_part(label, "home"@, vk);
    } else if vk == 0x23 {
        reveal_strlit("End");
        assert(lower(label) =~= "end"@);
        lemma_named_part(label, "end"@, vk);
    } else if vk == 0x21 {
        reveal_strlit("PageUp");
        assert(lower(label) =~= "pageup"@);
        lemma_named_part(label, "pageup"@, vk);
    } else if vk == 0x22 {
        reveal_strlit("PageDown");
        assert(lower(label) =~= "pagedown"@);
        lemma_named_part(label, "pagedown"@, vk);
    } else if vk == 0x25 {
        reveal_strlit("Left");
        assert(lower(label) =~= "left"@);
        lemma_named_part(label, "left"@, vk);
    } else if vk == 0x26 {
        reveal_strlit("Up");
        assert(lower(label) =~= "up"@);
        lemma_named_part(label, "up"@, vk);
    } else if vk == 0x27 {
        reveal_strlit("Right");
        assert(lower(label) =~= "right"@);
        lemma_named_part(label, "right"@, vk);
    } else if vk == 0x28 {
        reveal_strlit("Down");
        assert(lower(label) =~= "down"@);
        lemma_named_part(label, "down"@, vk);
    } else if vk == 0x13 {
        reveal_strlit("Pause");
        assert(lower(label) =~= "pause"@);
        lemma_named_part(label, "pause"@, vk);
    } else if vk == 0x91 {
        reveal_strlit("ScrollLock");
        assert(lower(label) =~= "scrolllock"@);
        lemma_named_part(label, "scrolllock"@, vk);
    } else {
        reveal_strlit("PrintScreen");
        assert(lower(label) =~= "printscreen"@);
        lemma_named_part(label, "printscreen"@, vk);
    }
}

// The names of modifiers come to the modifiers.
proof fn lemma_scan_modifiers(m: Modifiers)
    ensures
        scan(modifier_names(m)) == (Scan::Fine {
            control: m.has(MOD_CONTROL),
            shift: m.has(MOD_SHIFT),
            alt: m.has(MOD_ALT),
            win: m.has(MOD_WIN),
            key: None,
        }),
        forall|i: int|
            0 <= i < modifier_names(m).len() ==> !(#[trigger] modifier_names(m)[i]).contains('+'),
{
    lemma_modifier_parts();
    let none = Seq::<Seq<char>>::empty();
    let c = if m.has(MOD_CONTROL) {
        none.push("Ctrl"@)
    } else {
        none
    };
    let s = if m.has(MOD_SHIFT) {
        c.push("Shift"@)
    } else {
        c
    };
    let a = if m.has(MOD_ALT) {
        s.push("Alt"@)
    } else {
        s
    };
    let w = if m.has(MOD_WIN) {
        a.push("Win"@)
    } else {
        a
    };
    assert(modifier_names(m) =~= w);
    assert(none.push("Ctrl"@).drop_last() =~= none);
    assert(c.push("Shift"@).drop_last() =~= c);
    assert(s.push("Alt"@).drop_last() =~= s);
    assert(a.push("Win"@).drop_last() =~= a);
    assert(scan(none) == (Scan::Fine {
        control: false,
        shift: false,
        alt: false,
        win: false,
        key: None,
    }));
    assert(scan(c) == (Scan::Fine {
        control: m.has(MOD_CONTROL),
        shift: false,
        alt: false,
        win: false,
        key: None,
    }));
    assert(scan(s) == (Scan::Fine {
        control: m.has(MOD_CONTROL),
        shift: m.has(MOD_SHIFT),
        alt: false,
        win: false,
        key: None,
    }));
    assert(scan(a) == (Scan::Fine {
        control: m.has(MOD_CONTROL),
        shift: m.has(MOD_SHIFT),
        alt: m.has(MOD_ALT),
        win: false,
        key: None,
    }));
}

/// Each key name, and each other name that a key goes by, stands for the virtual-key
/// code that Windows gives that key.
#[verifier::rlimit(40)]
#[verifier::spinoff_prover]
pub proof fn law_each_key_name_has_its_windows_code(name: Seq<char>)
    ensures
        name == "space"@ ==> code_for(name) == Some(VK_SPACE) && VK_SPACE == 0x20,
        name == "tab"@ ==> code_for(name) == Some(VK_TAB) && VK_TAB == 0x09,
        name == "enter"@ ==> code_for(name) == Some(VK_RETURN) && VK_RETURN == 0x0D,
        name == "return"@ ==> code_for(name) == Some(VK_RETURN) && VK_RETURN == 0x0D,
        name == "esc"@ ==> code_for(name) == Some(VK_ESCAPE) && VK_ESCAPE == 0x1B,
        name == "escape"@ ==> code_for(name) == Some(VK_ESCAPE) && VK_ESCAPE == 0x1B,
        name == "backspace"@ ==> code_for(name) == Some(VK_BACK) && VK_BACK == 0x08,
        name == "delete"@ ==> code_for(name) == Some(VK_DELETE) && VK_DELETE == 0x2E,
        name == "del"@ ==> code_for(name) == Some(VK_DELETE) && VK_DELETE == 0x2E,
        name == "insert"@ ==> code_for(name) == Some(VK_INSERT) && VK_INSERT == 0x2D,
        name == "ins"@ ==> code_for(name) == Some(VK_INSERT) && VK_INSERT == 0x2D,
        name == "home"@ ==> code_for(name) == Some(VK_HOME) && VK_HOME == 0x24,
        name == "end"@ ==> code_for(name) == Some(VK_END) && VK_END == 0x23,
        name == "pageup"@ ==> code_for(name) == Some(VK_PRIOR) && VK_PRIOR == 0x21,
        name == "pgup"@ ==> code_for(name) == Some(VK_PRIOR) && VK_PRIOR == 0x21,
        name == "pagedown"@ ==> code_for(name) == Some(VK_NEXT) && VK_NEXT == 0x22,
        name == "pgdn"@ ==> code_for(name) == Some(VK_NEXT) && VK_NEXT == 0x22,
        name == "left"@ ==> code_for(name) == Some(VK_LEFT) && VK_LEFT == 0x25,
        name == "up"@ ==> code_for(name) == Some(VK_UP) && VK_UP == 0x26,
        name == "right"@ ==> code_for(name) == Some(VK_RIGHT) && VK_RIGHT == 0x27,
        name == "down"@ ==> code_for(name) == Some(VK_DOWN) && VK_DOWN == 0x28,
        name == "pause"@ ==> code_for(name) == Some(VK_PAUSE) && VK_PAUSE == 0x13,
        name == "scrolllock"@ ==> code_for(name) == Some(VK_SCROLL) && VK_SCROLL == 0x91,
        name == "printscreen"@ ==> code_for(name) == Some(VK_SNAPSHOT) && VK_SNAPSHOT == 0x2C,
        name == "prtsc"@ ==> code_for(name) == Some(VK_SNAPSHOT) && VK_SNAPSHOT == 0x2C,
{
    lemma_key_literals();
}

/// A letter or a digit stands for the key that has it on it, whose code is that of
/// the capital or the digit.
pub proof fn law_a_letter_or_digit_is_its_own_key(c: char)
    ensures
        'a' <= c <= 'z' ==> code_for(seq![c]) == Some((c as u32 - 'a' as u32 + 'A' as u32) as u32),
        'A' <= c <= 'Z' ==> code_for(seq![c]) == Some(c as u32),
        '0' <= c <= '9' ==> code_for(seq![c]) == Some(c as u32),
{
}

/// The function keys, `f1` to `f24`, have the codes from `VK_F1` on, one after the
/// other; there is no other.
pub proof fn law_function_keys_have_their_codes(n: nat)
    ensures
        1 <= n <= 24 ==> code_for(seq!['f'] + decimal(n)) == Some((0x6F + n) as u32),
        !(1 <= n <= 24) ==> code_for(seq!['f'] + decimal(n)) is None,
{
    lemma_decimal_reads_back(n);
    let name = seq!['f'] + decimal(n);
    assert(name.skip(1) =~= decimal(n));
    assert(name.len() > 1);
    assert(name[0] == 'f');
    lemma_key_literals();
}

/// A name that stands for a key is one letter or digit, or that of a function key, or
/// one of the names that keys go by.
pub proof fn law_no_other_name_is_a_key(name: Seq<char>)
    requires
        code_for(name) is Some,
    ensures
        ({
            ||| name.len() == 1 && ('a' <= name[0] <= 'z' || 'A' <= name[0] <= 'Z' || '0'
                <= name[0] <= '9')
            ||| name.len() > 1 && name[0] == 'f' && (unsigned(name.skip(1), 10) matches Some(n)
                && 1 <= n <= 24 && code_for(name) == Some((0x6F + n) as u32))
            ||| name == "space"@
            ||| name == "tab"@
            ||| name == "enter"@
            ||| name == "return"@
            ||| name == "esc"@
            ||| name == "escape"@
            ||| name == "backspace"@
            ||| name == "delete"@
            ||| name == "del"@
            ||| name == "insert"@
            ||| name == "ins"@
            ||| name == "home"@
            ||| name == "end"@
            ||| name == "pageup"@
            ||| name == "pgup"@
            ||| name == "pagedown"@
            ||| name == "pgdn"@
            ||| name == "left"@
            ||| name == "up"@
            ||| name == "right"@
            ||| name == "down"@
            ||| name == "pause"@
            ||| name == "scrolllock"@
            ||| name == "printscreen"@
            ||| name == "prtsc"@
        }),
{
}

/// Each key is called by its name: letters and digits by themselves, function keys by
/// their number, and the others by what Windows keyboards have on them. A code that no
/// key name stands for is written as a number.
pub proof fn law_each_key_is_called_by_its_name(vk: u32)
    ensures
        '0' as u32 <= vk <= '9' as u32 || 'A' as u32 <= vk <= 'Z' as u32 ==> label_of(vk)
            == seq![vk as char],
        0x70 <= vk <= 0x87 ==> label_of(vk) == "F"@ + decimal((vk - 0x6F) as nat),
        vk == VK_SPACE ==> label_of(vk) == "Space"@,
        vk == VK_TAB ==> label_of(vk) == "Tab"@,
        vk == VK_RETURN ==> label_of(vk) == "Enter"@,
        vk == VK_ESCAPE ==> label_of(vk) == "Esc"@,
        vk == VK_BACK ==> label_of(vk) == "Backspace"@,
        vk == VK_DELETE ==> label_of(vk) == "Delete"@,
        vk == VK_INSERT ==> label_of(vk) == "Insert"@,
        vk == VK_HOME ==> label_of(vk) == "Home"@,
        vk == VK_END ==> label_of(vk) == "End"@,
        vk == VK_PRIOR ==> label_of(vk) == "PageUp"@,
        vk == VK_NEXT ==> label_of(vk) == "PageDown"@,
        vk == VK_LEFT ==> label_of(vk) == "Left"@,
        vk == VK_UP ==> label_of(vk) == "Up"@,
        vk == VK_RIGHT ==> label_of(vk) == "Right"@,
        vk == VK_DOWN ==> label_of(vk) == "Down"@,
        vk == VK_PAUSE ==> label_of(vk) == "Pause"@,
        vk == VK_SCROLL ==> label_of(vk) == "ScrollLock"@,
        vk == VK_SNAPSHOT ==> label_of(vk) == "PrintScreen"@,
        !known_key(vk) ==> label_of(vk) == "0x"@ + hex(vk as nat, 2),
{
}

/// Whether a part of a combination, case and spacing aside, is one of two words.
pub open spec fn says(part: Seq<char>, a: Seq<char>, b: Seq<char>) -> bool {
    lower(trim(part)) == a || lower(trim(part)) == b
}

/// Whether a part of a combination is the name of a modifier.
pub open spec fn says_modifier(part: Seq<char>) -> bool {
    ||| says(part, "ctrl"@, "control"@)
    ||| says(part, "shift"@, "shift"@)
    ||| says(part, "alt"@, "menu"@)
    ||| says(part, "win"@, "super"@)
    ||| says(part, "meta"@, "meta"@)
}

/// Whether one of some parts is one of two words.
pub open spec fn any_says(parts: Seq<Seq<char>>, a: Seq<char>, b: Seq<char>) -> bool {
    exists|i: int| 0 <= i < parts.len() && says(#[trigger] parts[i], a, b)
}

/// Whether a part of a combination is the name of a key, and of which.
pub open spec fn says_key(part: Seq<char>, vk: u32) -> bool {
    &&& lower(trim(part)).len() > 0
    &&& !says_modifier(part)
    &&& code_for(lower(trim(part))) == Some(vk)
}

// One part more is said too.
proof fn lemma_any_says(parts: Seq<Seq<char>>, a: Seq<char>, b: Seq<char>)
    requires
        parts.len() > 0,
    ensures
        any_says(parts, a, b) <==> any_says(parts.drop_last(), a, b) || says(parts.last(), a, b),
{
    let fewer = parts.drop_last();
    if any_says(parts, a, b) {
        let i = choose|i: int| 0 <= i < parts.len() && says(#[trigger] parts[i], a, b);
        if i < fewer.len() {
            assert(fewer[i] == parts[i]);
        }
    }
    if any_says(fewer, a, b) {
        let i = choose|i: int| 0 <= i < fewer.len() && says(#[trigger] fewer[i], a, b);
        assert(parts[i] == fewer[i]);
    }
    assert(parts[parts.len() - 1] == parts.last());
}

// What parts come to, in terms of what each of them says.
#[verifier::rlimit(40)]
#[verifier::spinoff_prover]
proof fn lemma_scan_says(parts: Seq<Seq<char>>)
    ensures
        scan(parts) matches Scan::Fine { control, shift, alt, win, key } ==> {
            &&& control == any_says(parts, "ctrl"@, "control"@)
            &&& shift == any_says(parts, "shift"@, "shift"@)
            &&& alt == any_says(parts, "alt"@, "menu"@)
            &&& win == (any_says(parts, "win"@, "super"@) || any_says(parts, "meta"@, "meta"@))
            &&& key matches Some(vk) ==> exists|i: int|
                #![trigger parts[i]]
                0 <= i < parts.len() && says_key(parts[i], vk) && forall|j: int|
                    0 <= j < parts.len() && j != i ==> says_modifier(#[trigger] parts[j])
            &&& key is None ==> forall|j: int|
                0 <= j < parts.len() ==> says_modifier(#[trigger] parts[j])
        },
        !(scan(parts) is Fine) ==> exists|i: int|
            #![trigger parts[i]]
            0 <= i < parts.len() && !says_modifier(parts[i]) && ((forall|vk: u32|
                !says_key(parts[i], vk)) || exists|j: int|
                0 <= j < i && !says_modifier(#[trigger] parts[j])),
    decreases parts.len(),
{
    lemma_key_literals();
    if parts.len() > 0 {
        let fewer = parts.drop_last();
        let last = parts.last();
        lemma_scan_says(fewer);
        lemma_any_says(parts, "ctrl"@, "control"@);
        lemma_any_says(parts, "shift"@, "shift"@);
        lemma_any_says(parts, "alt"@, "menu"@);
        lemma_any_says(parts, "win"@, "super"@);
        lemma_any_says(parts, "meta"@, "meta"@);
        assert forall|j: int| 0 <= j < fewer.len() implies #[trigger] parts[j] == fewer[j] by {}
        let n = parts.len() - 1;
        assert(parts[n] == last);
        match scan(fewer) {
            Scan::Fine { key, .. } => {
                let name = lower(trim(last));
                match part_of(last) {
                    Part::Key { vk } => {
                        assert(says_key(last, vk));
                        match key {
                            Some(first) => {
                                let i = choose|i: int|
                                    #![trigger fewer[i]]
                                    0 <= i < fewer.len() && says_key(fewer[i], first) && forall|
                                        j: int,
                                    |
                                        0 <= j < fewer.len() && j != i ==> says_modifier(
                                            #[trigger] fewer[j],
                                        );
                                assert(!says_modifier(parts[i]));
                            },
                            None => {
                                assert forall|j: int| 0 <= j < parts.len() && j != n implies
                                    says_modifier(#[trigger] parts[j]) by {
                                    assert(says_modifier(fewer[j]));
                                }
                            },
                        }
                    },
                    Part::Blank | Part::Unknown => {
                        assert(!says_modifier(last));
                        assert(forall|vk: u32| !says_key(last, vk));
                    },
                    _ => {
                        assert(says_modifier(last));
                        match key {
                            Some(first) => {
                                let i = choose|i: int|
                                    #![trigger fewer[i]]
                                    0 <= i < fewer.len() && says_key(fewer[i], first) && forall|
                                        j: int,
                                    |
                                        0 <= j < fewer.len() && j != i ==> says_modifier(
                                            #[trigger] fewer[j],
                                        );
                                assert(says_key(parts[i], first));
                                assert forall|j: int| 0 <= j < parts.len() && j != i implies
                                    says_modifier(#[trigger] parts[j]) by {
                                    if j < n {
                                        assert(says_modifier(fewer[j]));
                                    }
                                }
                            },
                            None => {
                                assert forall|j: int| 0 <= j < parts.len() implies says_modifier(
                                    #[trigger] parts[j],
                                ) by {
                                    if j < n {
                                        assert(says_modifier(fewer[j]));
                                    }
                                }
                            },
                        }
                    },
                }
            },
            _ => {
                let i = choose|i: int|
                    #![trigger fewer[i]]
                    0 <= i < fewer.len() && !says_modifier(fewer[i]) && ((forall|vk: u32|
                        !says_key(fewer[i], vk)) || exists|j: int|
                        0 <= j < i && !says_modifier(#[trigger] fewer[j]));
                assert(parts[i] == fewer[i]);
                if exists|j: int| 0 <= j < i && !says_modifier(#[trigger] fewer[j]) {
                    let j = choose|j: int| 0 <= j < i && !says_modifier(#[trigger] fewer[j]);
                    assert(!says_modifier(parts[j]));
                }
            },
        }
    }
}

/// A hotkey has the modifiers that its parts name, Ctrl, Shift, Alt and Win, by their
/// Windows bits, and no others. Of its parts exactly one is no modifier, and that is
/// its key.
pub proof fn law_a_hotkey_is_what_its_parts_name(spec: Seq<char>)
    requires
        binding_of(spec) is Some,
    ensures
        ({
            let parts = split(spec, '+');
            let b = binding_of(spec)->0;
            let mask = b.modifiers.0;
            &&& (mask & 2u32 != 0) == any_says(parts, "ctrl"@, "control"@)
            &&& (mask & 4u32 != 0) == any_says(parts, "shift"@, "shift"@)
            &&& (mask & 1u32 != 0) == any_says(parts, "alt"@, "menu"@)
            &&& (mask & 8u32 != 0) == (any_says(parts, "win"@, "super"@) || any_says(
                parts,
                "meta"@,
                "meta"@,
            ))
            &&& mask & 0x4000u32 != 0
            &&& mask & !0x400Fu32 == 0
            &&& exists|i: int|
                #![trigger parts[i]]
                0 <= i < parts.len() && says_key(parts[i], b.vk) && forall|j: int|
                    0 <= j < parts.len() && j != i ==> says_modifier(#[trigger] parts[j])
        }),
{
    let parts = split(spec, '+');
    lemma_scan_says(parts);
    if let Scan::Fine { control, shift, alt, win, .. } = scan(parts) {
        lemma_bitmask(control, shift, alt, win);
        let (c, s, a, w) = (
            if control {
                2u32
            } else {
                0
            },
            if shift {
                4u32
            } else {
                0
            },
            if alt {
                1u32
            } else {
                0
            },
            if win {
                8u32
            } else {
                0
            },
        );
        assert((c | s | a | w | 0x4000u32) & !0x400Fu32 == 0) by (bit_vector)
            requires
                c == 0u32 || c == 2u32,
                s == 0u32 || s == 4u32,
                a == 0u32 || a == 1u32,
                w == 0u32 || w == 8u32,
        ;
    }
}

/// A text is a hotkey if one of its parts is a key and all the others are modifiers,
/// of which there has to be one.
pub proof fn law_one_key_and_a_modifier_make_a_hotkey(spec: Seq<char>, i: int, vk: u32)
    requires
        ({
            let parts = split(spec, '+');
            &&& 0 <= i < parts.len()
            &&& parts.len() > 1
            &&& says_key(parts[i], vk)
            &&& forall|j: int|
                0 <= j < parts.len() && j != i ==> says_modifier(#[trigger] parts[j])
        }),
    ensures
        binding_of(spec) matches Some(b) && b.vk == vk,
{
    let parts = split(spec, '+');
    lemma_scan_says(parts);
    if !(scan(parts) is Fine) {
        let k = choose|k: int|
            #![trigger parts[k]]
            0 <= k < parts.len() && !says_modifier(parts[k]) && ((forall|vk: u32|
                !says_key(parts[k], vk)) || exists|j: int|
                0 <= j < k && !says_modifier(#[trigger] parts[j]));
        assert(k == i);
        if forall|v: u32| !says_key(parts[k], v) {
            assert(!says_key(parts[i], vk));
        }
    } else {
        let m = if i == 0 {
            1int
        } else {
            0
        };
        assert(says_modifier(parts[m]));
        assert(!says_modifier(parts[i]));
        if let Scan::Fine { key: Some(v), .. } = scan(parts) {
            let k = choose|k: int|
                #![trigger parts[k]]
                0 <= k < parts.len() && says_key(parts[k], v) && forall|j: int|
                    0 <= j < parts.len() && j != k ==> says_modifier(#[trigger] parts[j]);
            assert(k == i);
        }
        assert(any_says(parts, "ctrl"@, "control"@) || any_says(parts, "shift"@, "shift"@)
            || any_says(parts, "alt"@, "menu"@) || any_says(parts, "win"@, "super"@) || any_says(
            parts,
            "meta"@,
            "meta"@,
        ));
    }
}

/// A hotkey is described by its modifiers, in the order Ctrl, Shift, Alt, Win, and then
/// its key.
pub proof fn law_a_description_has_an_order(b: Binding)
    ensures
        b.parts().last() == label_of(b.vk),
        forall|i: int|
            0 <= i < b.parts().len() - 1 ==> {
                ||| #[trigger] b.parts()[i] == "Ctrl"@ && b.modifiers.0 & 2u32 != 0 && i == 0
                ||| b.parts()[i] == "Shift"@ && b.modifiers.0 & 4u32 != 0 && i <= 1
                ||| b.parts()[i] == "Alt"@ && b.modifiers.0 & 1u32 != 0 && i <= 2
                ||| b.parts()[i] == "Win"@ && b.modifiers.0 & 8u32 != 0 && i == b.parts().len() - 2
            },
        b.modifiers.0 & 2u32 != 0 ==> b.parts()[0] == "Ctrl"@,
        b.modifiers.0 & 8u32 != 0 ==> b.parts()[b.parts().len() - 2] == "Win"@,
        b.modifiers.0 & 4u32 != 0 ==> b.parts()[if b.modifiers.0 & 2u32 != 0 {
            1int
        } else {
            0
        }] == "Shift"@,
        b.modifiers.0 & 1u32 != 0 ==> b.parts()[b.parts().len() - if b.modifiers.0 & 8u32 != 0 {
            3int
        } else {
            2
        }] == "Alt"@,
{
}

/// What a hotkey is described as parses back to the same hotkey.
pub proof fn law_description_parses_back(spec: Seq<char>)
    requires
        binding_of(spec) is Some,
    ensures
        binding_of(binding_of(spec)->0.description()) == binding_of(spec),
{
    let b = binding_of(spec)->0;
    if let Scan::Fine { control, shift, alt, win, .. } = scan(split(spec, '+')) {
        lemma_bitmask(control, shift, alt, win);
    }
    lemma_scan_key(split(spec, '+'));
    lemma_label_part(b.vk);
    lemma_scan_modifiers(b.modifiers);
    let parts = b.parts();
    assert forall|i: int| 0 <= i < parts.len() implies !(#[trigger] parts[i]).contains('+') by {
        if i < parts.len() - 1 {
            assert(parts[i] == modifier_names(b.modifiers)[i]);
        }
    }
    reveal_strlit("+");
    assert("+"@ =~= seq!['+']);
    lemma_split_join(parts, '+');
    assert(parts.drop_last() =~= modifier_names(b.modifiers));
}

// ---------------------------------------------------------------------------
// The configured hotkeys
// ---------------------------------------------------------------------------

/// One configured hotkey, understood: the combination, and the command it runs.
#[derive(Debug)]
pub struct Action {
    /// The combination as written in the config, for messages.
    pub spec: String,
    pub binding: Binding,
    /// The command as written, for the tray menu.
    pub command: String,
    /// That command split into words, already known to be understood.
    pub words: Vec<String>,
}

/// What the configured hotkeys came to.
///
/// Both halves matter. A daemon that refused to start over one bad line would take
/// the working hotkeys down with it; one that started silently would leave a key
/// that does nothing and no clue why. So the good ones are registered and the rest
/// are explained.
#[derive(Debug)]
pub struct Plan {
    pub ready: Vec<Action>,
    pub problems: Vec<String>,
}

impl Default for Plan {
    fn default() -> (r: Plan)
        ensures
            r.ready@.len() == 0,
            r.problems@.len() == 0,
    {
        Plan { ready: Vec::new(), problems: Vec::new() }
    }
}

/// What the configured hotkeys come to: which entries are ready, and what is said
/// of the others.
pub struct Planned {
    pub ready: Seq<int>,
    pub problems: Seq<Seq<char>>,
}

/// Entries that ask for the same keys as a combination.
pub open spec fn bound_to(configured: NameMap<String>, b: Binding) -> spec_fn(int) -> bool {
    |k: int| binding_of(configured.names()[k]) == Some(b)
}

/// What the first so many entries come to, given what is to be said of each
/// entry's command: nothing, where it would be understood.
pub open spec fn planned(
    configured: NameMap<String>,
    complaints: Seq<Option<Seq<char>>>,
    n: nat,
) -> Planned
    decreases n,
{
    if n == 0 {
        Planned { ready: Seq::empty(), problems: Seq::empty() }
    } else {
        let earlier = planned(configured, complaints, (n - 1) as nat);
        match problem_with(configured, complaints, earlier.ready, n - 1) {
            Some(problem) => Planned { problems: earlier.problems.push(problem), ..earlier },
            None => Planned { ready: earlier.ready.push(n - 1), ..earlier },
        }
    }
}

/// What is wrong with an entry, if anything is, with the entries that are ready
/// already.
pub open spec fn problem_with(
    configured: NameMap<String>,
    complaints: Seq<Option<Seq<char>>>,
    ready: Seq<int>,
    i: int,
) -> Option<Seq<char>> {
    let spec = configured.names()[i];
    match binding_of(spec) {
        None => Some(spec + ": "@ + refusal(spec)),
        Some(b) => {
            let other = first_where(ready, bound_to(configured, b));
            if other < ready.len() {
                Some(
                    spec + ": the same keys as \""@ + configured.names()[ready[other]]
                        + "\", which is already bound to \""@ + configured.values()[ready[other]]@
                        + "\""@,
                )
            } else if words_of(configured.values()[i]@).len() == 0 {
                Some(spec + ": no command to run"@)
            } else {
                match complaints[i] {
                    Some(complaint) => Some(spec + ": "@ + complaint),
                    None => None,
                }
            }
        },
    }
}

/// Whether an action is a configured entry, understood.
pub open spec fn is_entry(action: Action, configured: NameMap<String>, i: int) -> bool {
    &&& 0 <= i < configured.names().len()
    &&& action.spec@ == configured.names()[i]
    &&& binding_of(configured.names()[i]) == Some(action.binding)
    &&& action.command@ == configured.values()[i]@
    &&& texts(action.words@) == words_of(configured.values()[i]@)
}

/// Whether a plan is what the configured hotkeys come to.
pub open spec fn is_plan(plan: Plan, configured: NameMap<String>, p: Planned) -> bool {
    &&& plan.ready@.len() == p.ready.len()
    &&& forall|k: int|
        0 <= k < p.ready.len() ==> is_entry(#[trigger] plan.ready@[k], configured, p.ready[k])
    &&& texts(plan.problems@) == p.problems
}

/// What is to be said of commands.
pub open spec fn complaints_in(checks: Seq<Result<(), String>>) -> Seq<Option<Seq<char>>> {
    checks.map_values(
        |c: Result<(), String>|
            match c {
                Ok(_) => None::<Seq<char>>,
                Err(e) => Some(e@),
            },
    )
}

// The first of the ready actions that has the same keys.
fn same_keys(ready: &Vec<Action>, binding: Binding) -> (r: Option<usize>)
    ensures
        match r {
            Some(k) => {
                &&& k < ready@.len()
                &&& ready@[k as int].binding == binding
                &&& forall|j: int| 0 <= j < k ==> (#[trigger] ready@[j]).binding != binding
            },
            None => forall|j: int|
                0 <= j < ready@.len() ==> (#[trigger] ready@[j]).binding != binding,
        },
{
    for k in 0..ready.len()
        invariant
            forall|j: int| 0 <= j < k ==> (#[trigger] ready@[j]).binding != binding,
    {
        if ready[k].binding == binding {
            return Some(k);
        }
    }
    None
}

/// Check every configured hotkey: the combination, the command, and whether two
/// entries ask for the same keys, given what came of checking each command.
///
/// Two spellings of one combination are different entries but the same keystroke,
/// and the second registration would be the one that failed.
pub fn plan_with(configured: &NameMap<String>, checks: &[Result<(), String>]) -> (r: Plan)
    requires
        checks@.len() == configured.names().len(),
    ensures
        is_plan(
            r,
            *configured,
            planned(*configured, complaints_in(checks@), configured.names().len()),
        ),
{
    let mut ready: Vec<Action> = Vec::new();
    let mut problems: Vec<String> = Vec::new();
    let ghost complaints = complaints_in(checks@);
    let n = configured.len();
    assert(texts(problems@) =~= Seq::empty());
    for i in 0..n
        invariant
            n == configured.names().len(),
            configured.wf(),
            checks@.len() == n,
            complaints == complaints_in(checks@),
            ready@.len() == planned(*configured, complaints, i as nat).ready.len(),
            forall|k: int|
                0 <= k < ready@.len() ==> is_entry(
                    #[trigger] ready@[k],
                    *configured,
                    planned(*configured, complaints, i as nat).ready[k],
                ),
            texts(problems@) == planned(*configured, complaints, i as nat).problems,
    {
        let ghost earlier = planned(*configured, complaints, i as nat);
        let ghost said = problems@;
        let spec = configured.name_at(i).as_str();
        let command = configured.value_at(i).as_str();
        let mut problem: Option<String> = None;
        match parse(spec) {
            Err(e) => {
                let why = headline(&e);
                problem = Some(cat3(spec, ": ", why.as_str()));
            },
            Ok(binding) => {
                let other = same_keys(&ready, binding);
                proof {
                    let meets = bound_to(*configured, binding);
                    let k = match other {
                        Some(k) => k as int,
                        None => ready@.len() as int,
                    };
                    assert forall|j: int| 0 <= j < k implies !meets(
                        #[trigger] earlier.ready[j],
                    ) by {
                        assert(is_entry(ready@[j], *configured, earlier.ready[j]));
                    }
                    if k < ready@.len() {
                        assert(is_entry(ready@[k], *configured, earlier.ready[k]));
                    }
                    lemma_first_where_is(earlier.ready, meets, k);
                }
                match other {
                    Some(k) => {
                        let head = cat4(
                            spec,
                            ": the same keys as \"",
                            ready[k].spec.as_str(),
                            "\", which is already bound to \"",
                        );
                        problem = Some(cat3(head.as_str(), ready[k].command.as_str(), "\""));
                    },
                    None => {
                        let words = split_words(command);
                        if words.len() == 0 {
                            problem = Some(cat2(spec, ": no command to run"));
                        } else {
                            match &checks[i] {
                                Err(e) => {
                                    problem = Some(cat3(spec, ": ", e.as_str()));
                                },
                                Ok(_) => {
                                    ready.push(
                                        Action {
                                            spec: spec.to_owned(),
                                            binding,
                                            command: command.to_owned(),
                                            words,
                                        },
                                    );
                                },
                            }
                        }
                    },
                }
            },
        }
        assert(opt_text(problem) == problem_with(
            *configured,
            complaints,
            earlier.ready,
            i as int,
        ));
        if let Some(p) = problem {
            let ghost text = p@;
            problems.push(p);
            assert(texts(problems@) =~= texts(said).push(text));
        }
    }
    Plan { ready, problems }
}

/// What is to be said of the command of each entry, by the parser of the command
/// line.
pub open spec fn complaints_for(configured: NameMap<String>, cec: bool) -> Seq<
    Option<Seq<char>>,
> {
    configured.values().map_values(
        |command: String|
            match complaint_of(typed(words_of(command@), cec)) {
                Some(said) => Some(said[0]),
                None => None,
            },
    )
}

/// Check every configured hotkey.
///
/// The command is checked with the command line's own parser, so a misspelled
/// subcommand is caught here rather than on the first press.
pub fn plan(configured: &NameMap<String>, cec: bool) -> (r: Plan)
    ensures
        configured.wf(),
        is_plan(
            r,
            *configured,
            planned(*configured, complaints_for(*configured, cec), configured.names().len()),
        ),
{
    let mut checks: Vec<Result<(), String>> = Vec::new();
    let n = configured.len();
    let ghost expected = complaints_for(*configured, cec);
    assert(complaints_in(checks@) =~= expected.take(0));
    for i in 0..n
        invariant
            n == configured.names().len(),
            configured.wf(),
            expected == complaints_for(*configured, cec),
            checks@.len() == i,
            complaints_in(checks@) == expected.take(i as int),
    {
        let words = split_words(configured.value_at(i).as_str());
        let check: Result<(), String> = match check_words(words.as_slice(), cec) {
            Ok(_) => Ok(()),
            Err(e) => Err(headline(&e)),
        };
        let ghost before = checks@;
        checks.push(check);
        assert(complaints_in(checks@) =~= complaints_in(before).push(expected[i as int]));
        assert(expected.take(i + 1) =~= expected.take(i as int).push(expected[i as int]));
    }
    assert(expected.take(n as int) =~= expected);
    plan_with(configured, checks.as_slice())
}

/// Every configured hotkey is ready or explained, and none is both.
pub proof fn law_every_hotkey_is_ready_or_explained(
    configured: NameMap<String>,
    complaints: Seq<Option<Seq<char>>>,
    n: nat,
)
    ensures
        planned(configured, complaints, n).ready.len() + planned(
            configured,
            complaints,
            n,
        ).problems.len() == n,
    decreases n,
{
    if n > 0 {
        law_every_hotkey_is_ready_or_explained(configured, complaints, (n - 1) as nat);
    }
}

/// No two hotkeys that are ready ask for the same keys, and they stand in the
/// order of their entries.
pub proof fn law_ready_hotkeys_are_distinct(
    configured: NameMap<String>,
    complaints: Seq<Option<Seq<char>>>,
    n: nat,
)
    ensures
        ({
            let ready = planned(configured, complaints, n).ready;
            &&& forall|i: int|
                #![trigger ready[i]]
                0 <= i < ready.len() ==> 0 <= ready[i] < n && binding_of(
                    configured.names()[ready[i]],
                ) is Some
            &&& forall|i: int, j: int|
                #![trigger ready[i], ready[j]]
                0 <= i < j < ready.len() ==> ready[i] < ready[j] && binding_of(
                    configured.names()[ready[i]],
                ) != binding_of(configured.names()[ready[j]])
        }),
    decreases n,
{
    if n > 0 {
        law_ready_hotkeys_are_distinct(configured, complaints, (n - 1) as nat);
        let earlier = planned(configured, complaints, (n - 1) as nat).ready;
        let ready = planned(configured, complaints, n).ready;
        if ready != earlier {
            let b = binding_of(configured.names()[n - 1])->0;
            lemma_first_where(earlier, bound_to(configured, b));
            assert forall|i: int, j: int|
                #![trigger ready[i], ready[j]]
                0 <= i < j < ready.len() implies ready[i] < ready[j] && binding_of(
                configured.names()[ready[i]],
            ) != binding_of(configured.names()[ready[j]]) by {
                assert(ready[i] == earlier[i]);
                if j < earlier.len() {
                    assert(ready[j] == earlier[j]);
                } else {
                    assert(!bound_to(configured, b)(earlier[i]));
                }
            }
        }
    }
}

/// One bad entry does not cost the good ones: an entry with a combination of its
/// own and a command that is understood is ready, whatever the other entries are.
pub proof fn law_one_bad_entry_does_not_cost_the_good_ones(
    configured: NameMap<String>,
    complaints: Seq<Option<Seq<char>>>,
    n: nat,
    i: int,
)
    requires
        0 <= i < n,
        binding_of(configured.names()[i]) is Some,
        words_of(configured.values()[i]@).len() > 0,
        complaints[i] is None,
        forall|j: int|
            0 <= j < i ==> binding_of(#[trigger] configured.names()[j]) != binding_of(
                configured.names()[i],
            ),
    ensures
        planned(configured, complaints, n).ready.contains(i),
    decreases n,
{
    let earlier = planned(configured, complaints, (n - 1) as nat);
    if i < n - 1 {
        law_one_bad_entry_does_not_cost_the_good_ones(configured, complaints, (n - 1) as nat, i);
        let k = choose|k: int| 0 <= k < earlier.ready.len() && earlier.ready[k] == i;
        assert(planned(configured, complaints, n).ready[k] == i);
    } else {
        let b = binding_of(configured.names()[i])->0;
        law_ready_hotkeys_are_distinct(configured, complaints, (n - 1) as nat);
        assert forall|j: int| 0 <= j < earlier.ready.len() implies !bound_to(configured, b)(
            #[trigger] earlier.ready[j],
        ) by {
            assert(binding_of(configured.names()[earlier.ready[j]]) != binding_of(
                configured.names()[i],
            ));
        }
        lemma_first_where_is(
            earlier.ready,
            bound_to(configured, b),
            earlier.ready.len() as int,
        );
        assert(planned(configured, complaints, n).ready[earlier.ready.len() as int] == i);
    }
}

// ---------------------------------------------------------------------------
// What is said of what is wrong
// ---------------------------------------------------------------------------

/// Whether some parts are modifiers, but for one key at most.
pub open spec fn modifiers_and_a_key(parts: Seq<Seq<char>>, key: Option<(int, u32)>) -> bool {
    &&& key matches Some(at) ==> 0 <= at.0 < parts.len() && says_key(parts[at.0], at.1)
    &&& forall|j: int|
        0 <= j < parts.len() && (key matches Some(at) ==> j != at.0) ==> says_modifier(
            #[trigger] parts[j],
        )
}

// Modifiers and a key come to just that.
proof fn lemma_scan_fine(parts: Seq<Seq<char>>, key: Option<(int, u32)>)
    requires
        modifiers_and_a_key(parts, key),
    ensures
        scan(parts) matches Scan::Fine { control, shift, alt, win, key: found } && {
            &&& found == match key {
                Some(at) => Some(at.1),
                None => None,
            }
            &&& (control || shift || alt || win) == (parts.len() > if key is Some {
                1int
            } else {
                0
            })
        },
    decreases parts.len(),
{
    lemma_key_literals();
    if parts.len() > 0 {
        let (fewer, last) = (parts.drop_last(), parts.last());
        assert(parts[parts.len() - 1] == last);
        assert forall|j: int| 0 <= j < fewer.len() implies #[trigger] parts[j] == fewer[j] by {}
        match key {
            Some(at) => if at.0 == parts.len() - 1 {
                lemma_scan_fine(fewer, None);
            } else {
                lemma_scan_fine(fewer, key);
                assert(says_modifier(last));
            },
            None => {
                lemma_scan_fine(fewer, None);
                assert(says_modifier(last));
            },
        }
    }
}

/// What is said of a text that is no hotkey names the first part that is wrong: one that
/// is empty, one that is no key, or a second key, with the first one.
pub proof fn law_a_refusal_names_the_first_part_that_is_wrong(
    spec: Seq<char>,
    i: int,
    key: Option<(int, u32)>,
)
    requires
        0 <= i < split(spec, '+').len(),
        modifiers_and_a_key(split(spec, '+').take(i), key),
    ensures
        ({
            let part = split(spec, '+')[i];
            &&& trim(part).len() == 0 ==> binding_of(spec) is None && refusal(spec) == "\""@ + spec
                + "\" has an empty part; write it like ctrl+shift+s"@
            &&& trim(part).len() > 0 && !says_modifier(part) && code_for(lower(trim(part))) is None
                ==> binding_of(spec) is None && refusal(spec) == "\""@ + trim(part) + "\" in \""@
                + spec + "\" is not a key this understands"@
            &&& key matches Some(at) ==> forall|vk: u32| #[trigger]
                says_key(part, vk) ==> binding_of(spec) is None && refusal(spec) == "\""@ + spec
                    + "\" names two keys ("@ + label_of(at.1) + " and "@ + label_of(vk)
                    + "); a hotkey has one key and any number of modifiers"@
        }),
{
    let parts = split(spec, '+');
    let part = parts[i];
    lemma_key_literals();
    lemma_scan_fine(parts.take(i), key);
    assert(parts.take(i + 1).drop_last() =~= parts.take(i));
    assert(parts.take(i + 1).last() == part);
    if !(scan(parts.take(i + 1)) is Fine) {
        lemma_scan_prefix(parts, i + 1);
    }
}

/// Where every part is understood, a text that is no hotkey lacks a key or a modifier,
/// and that is what is said of it.
pub proof fn law_a_refusal_names_what_is_missing(spec: Seq<char>, vk: u32)
    ensures
        modifiers_and_a_key(split(spec, '+'), None) ==> binding_of(spec) is None && refusal(spec)
            == "\""@ + spec + "\" is all modifiers and no key"@,
        split(spec, '+').len() == 1 && says_key(split(spec, '+')[0], vk) ==> binding_of(spec)
            is None && refusal(spec) == "\""@ + spec
            + "\" has no modifier. A bare key would be taken system-wide, leaving it unusable everywhere else — write something like ctrl+shift+"@
            + lower(label_of(vk)),
{
    let parts = split(spec, '+');
    if modifiers_and_a_key(parts, None) {
        lemma_scan_fine(parts, None);
    }
    if parts.len() == 1 && says_key(parts[0], vk) {
        lemma_scan_fine(parts, Some((0int, vk)));
    }
}

/// An entry that is no hotkey is explained as such. One with the keys of an entry that is
/// ready already is explained by that entry and its command. One without a command is
/// explained so, and one whose command is not understood by what is said of it. Any other
/// is ready. What was said and what was ready before stays so.
pub proof fn law_what_becomes_of_an_entry(
    configured: NameMap<String>,
    complaints: Seq<Option<Seq<char>>>,
    i: nat,
)
    ensures
        ({
            let before = planned(configured, complaints, i);
            let after = planned(configured, complaints, i + 1);
            let (spec, command) = (
                configured.names()[i as int],
                configured.values()[i as int]@,
            );
            let fresh = forall|k: int|
                0 <= k < before.ready.len() ==> binding_of(
                    configured.names()[#[trigger] before.ready[k]],
                ) != binding_of(spec);
            let found = binding_of(spec);
            &&& found is None ==> after.ready == before.ready && after.problems
                == before.problems.push(spec + ": "@ + refusal(spec))
            &&& forall|k: int|
                0 <= k < before.ready.len() && found is Some && binding_of(
                    configured.names()[#[trigger] before.ready[k]],
                ) == found ==> after.ready == before.ready && after.problems
                    == before.problems.push(
                    spec + ": the same keys as \""@ + configured.names()[before.ready[k]]
                        + "\", which is already bound to \""@
                        + configured.values()[before.ready[k]]@ + "\""@,
                )
            &&& found is Some && fresh && words_of(command).len() == 0 ==> after.ready
                == before.ready && after.problems == before.problems.push(
                spec + ": no command to run"@,
            )
            &&& found is Some && fresh && words_of(command).len() > 0
                && complaints[i as int] is Some ==> after.ready == before.ready && after.problems
                == before.problems.push(spec + ": "@ + complaints[i as int]->0)
            &&& found is Some && fresh && words_of(command).len() > 0
                && complaints[i as int] is None ==> after.ready == before.ready.push(i as int)
                && after.problems == before.problems
        }),
{
    let before = planned(configured, complaints, i);
    let spec = configured.names()[i as int];
    law_ready_hotkeys_are_distinct(configured, complaints, i);
    if let Some(b) = binding_of(spec) {
        let same = bound_to(configured, b);
        lemma_first_where(before.ready, same);
        let f = first_where(before.ready, same);
        assert forall|k: int|
            0 <= k < before.ready.len() && binding_of(
                configured.names()[#[trigger] before.ready[k]],
            ) == Some(b) implies k == f by {
            assert(same(before.ready[k]));
            if k < f {
                assert(!same(before.ready[k]));
            }
            assert(same(before.ready[f]));
        }
        if f < before.ready.len() {
            assert(same(before.ready[f]));
        }
    }
}

/// The laws on keys, combinations and plans are about what the functions here return.
pub proof fn law_hotkeys_are_read_as_stated(
    name: &str,
    vk: u32,
    code: Option<u32>,
    label: String,
    r: Result<Binding, Error>,
)
    ensures
        call_ensures(key_code, (name,), code) ==> code == code_for(name@),
        call_ensures(key_name, (vk,), label) ==> label@ == label_of(vk),
        call_ensures(parse, (name,), r) ==> match r {
            Ok(b) => binding_of(name@) == Some(b),
            Err(e) => binding_of(name@) is None && chain(e) == seq![refusal(name@)],
        },
{
}

/// A plan has one hotkey for each entry that is ready, with the entry's text, keys, command
/// and words, and one problem for each that is not.
pub proof fn law_a_plan_holds_what_its_entries_say(
    configured: &NameMap<String>,
    checks: &[Result<(), String>],
    r: Plan,
    k: int,
)
    requires
        checks@.len() == configured.names().len(),
        call_ensures(plan_with, (configured, checks), r),
    ensures
        ({
            let p = planned(*configured, complaints_in(checks@), configured.names().len());
            &&& r.ready@.len() == p.ready.len()
            &&& texts(r.problems@) == p.problems
            &&& 0 <= k < r.ready@.len() ==> {
                let (action, i) = (r.ready@[k], p.ready[k]);
                &&& action.spec@ == configured.names()[i]
                &&& binding_of(action.spec@) == Some(action.binding)
                &&& action.command@ == configured.values()[i]@
                &&& texts(action.words@) == words_of(action.command@)
            }
        }),
        forall|i: int|
            #![trigger checks@[i]]
            0 <= i < checks@.len() ==> (complaints_in(checks@)[i] is None <==> checks@[i] is Ok)
                && (checks@[i] matches Err(e) ==> complaints_in(checks@)[i] == Some(e@)),
{
    let p = planned(*configured, complaints_in(checks@), configured.names().len());
    if 0 <= k < r.ready@.len() {
        assert(is_entry(r.ready@[k], *configured, p.ready[k]));
    }
}

/// A command is checked as it would be run, and what is said of it is the first line of
/// what reading it comes to.
pub proof fn law_commands_are_checked_as_they_are_run(
    configured: NameMap<String>,
    cec: bool,
    i: int,
)
    requires
        0 <= i < configured.values().len(),
    ensures
        ({
            let found = complaint_of(typed(words_of(configured.values()[i]@), cec));
            &&& complaints_for(configured, cec).len() == configured.values().len()
            &&& found is None ==> complaints_for(configured, cec)[i] is None
            &&& found is Some ==> complaints_for(configured, cec)[i] == Some(found->0[0])
        }),
        forall|r: Plan|
            call_ensures(plan, (&configured, cec), r) ==> is_plan(
                r,
                configured,
                planned(configured, complaints_for(configured, cec), configured.names().len()),
            ),
{
}

} // verus!
