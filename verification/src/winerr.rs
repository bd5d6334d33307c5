//! Win32 error reporting.
//!
//! The display entry points answer with `WIN32_ERROR` codes, and a failure is
//! never reported as less than its symbolic name, its number, and the system's
//! own words for it.

use vstd::prelude::*;
use vstd::string::*;

use crate::text::{
    decimal, decimal_text, digits_value, hex, hex_text, law_hex_reads_back,
    lemma_decimal_reads_back, lemma_hex_width, sixteen_to,
};

verus! {

pub const ERROR_SUCCESS: u32 = 0;

pub const ERROR_INSUFFICIENT_BUFFER: u32 = 122;

/// What a Win32 call answered: its code, and the system's message text for that
/// code where it has one.
#[derive(Debug)]
pub struct Answer {
    pub code: u32,
    pub message: Option<String>,
}

impl Clone for Answer {
    fn clone(&self) -> (r: Answer)
        ensures
            r == *self,
    {
        Answer {
            code: self.code,
            message: match &self.message {
                Some(m) => Some(m.clone()),
                None => None,
            },
        }
    }
}

/// The symbolic names of the codes that the display calls document.
pub open spec fn name_of(code: u32) -> Option<Seq<char>> {
    if code == 0 {
        Some("ERROR_SUCCESS"@)
    } else if code == 5 {
        Some("ERROR_ACCESS_DENIED"@)
    } else if code == 13 {
        Some("ERROR_INVALID_DATA"@)
    } else if code == 31 {
        Some("ERROR_GEN_FAILURE"@)
    } else if code == 50 {
        Some("ERROR_NOT_SUPPORTED"@)
    } else if code == 87 {
        Some("ERROR_INVALID_PARAMETER"@)
    } else if code == 122 {
        Some("ERROR_INSUFFICIENT_BUFFER"@)
    } else if code == 1004 {
        Some("ERROR_INVALID_FLAGS"@)
    } else if code == 1610 {
        Some("ERROR_BAD_CONFIGURATION"@)
    } else {
        None
    }
}

/// Symbolic name for the codes `SetDisplayConfig` documents, plus the handful
/// the query path can return.
pub fn name(code: u32) -> (r: Option<&'static str>)
    ensures
        match r {
            Some(n) => name_of(code) == Some(n@),
            None => name_of(code) is None,
        },
{
    match code {
        0 => Some("ERROR_SUCCESS"),
        5 => Some("ERROR_ACCESS_DENIED"),
        13 => Some("ERROR_INVALID_DATA"),
        31 => Some("ERROR_GEN_FAILURE"),
        50 => Some("ERROR_NOT_SUPPORTED"),
        87 => Some("ERROR_INVALID_PARAMETER"),
        122 => Some("ERROR_INSUFFICIENT_BUFFER"),
        1004 => Some("ERROR_INVALID_FLAGS"),
        1610 => Some("ERROR_BAD_CONFIGURATION"),
        _ => None,
    }
}

/// Guidance for the codes whose own text says little about displays.
pub open spec fn hint_of(code: u32) -> Option<Seq<char>> {
    if code == 1610 {
        Some("The requested topology has no entry in the display database."@)
    } else if code == 31 {
        Some(
            "The driver refused this configuration. Usually this means the GPU cannot drive this many outputs at once, or not all of them at these resolutions."@,
        )
    } else if code == 5 {
        Some(
            "SetDisplayConfig requires access to the console session; it fails over Remote Desktop and from a service."@,
        )
    } else if code == 50 {
        Some("This requires a WDDM display driver."@)
    } else {
        None
    }
}

/// An extra line of guidance for codes where the raw text is unhelpful when it
/// is displays that are being switched.
pub fn hint(code: u32) -> (r: Option<&'static str>)
    ensures
        match r {
            Some(h) => hint_of(code) == Some(h@),
            None => hint_of(code) is None,
        },
{
    match code {
        1610 => Some("The requested topology has no entry in the display database."),
        31 => Some(
            "The driver refused this configuration. Usually this means the GPU cannot drive this many outputs at once, or not all of them at these resolutions.",
        ),
        5 => Some(
            "SetDisplayConfig requires access to the console session; it fails over Remote Desktop and from a service.",
        ),
        50 => Some("This requires a WDDM display driver."),
        _ => None,
    }
}

/// How a code is written: by its symbolic name and number, or as a bare number,
/// which is in hexadecimal where it is too large for a plain Win32 code.
pub open spec fn headline(code: u32) -> Seq<char> {
    match name_of(code) {
        Some(n) => n + " ("@ + decimal(code as nat) + ")"@,
        None => if code > 0xFFFF {
            "error 0x"@ + hex(code as nat, 8)
        } else {
            "error "@ + decimal(code as nat)
        },
    }
}

/// A code rendered for display, with the system's message and the hint.
pub open spec fn description(code: u32, message: Option<Seq<char>>) -> Seq<char> {
    headline(code) + match message {
        Some(m) => ": "@ + m,
        None => Seq::empty(),
    } + match hint_of(code) {
        Some(h) => "\n  "@ + h,
        None => Seq::empty(),
    }
}

/// What an optional string holds.
pub open spec fn opt_text(s: Option<String>) -> Option<Seq<char>> {
    match s {
        Some(t) => Some(t@),
        None => None,
    }
}

impl Answer {
    /// The answer rendered for display.
    pub open spec fn described(self) -> Seq<char> {
        description(self.code, opt_text(self.message))
    }
}

/// Render an error code for display: `ERROR_BAD_CONFIGURATION (1610): <text>`,
/// where `<text>` is the system's own message for the code, if it has one.
pub fn describe(code: u32, message: Option<&str>) -> (r: String)
    ensures
        r@ == description(
            code,
            match message {
                Some(m) => Some(m@),
                None => None,
            },
        ),
{
    let mut out = String::new();
    match name(code) {
        Some(n) => {
            out.append(n);
            out.append(" (");
            let number = decimal_text(code as u128);
            out.append(number.as_str());
            out.append(")");
        },
        None => {
            // Plain Win32 codes are small and conventionally written in decimal.
            // Anything larger is shaped like an HRESULT, and is only
            // recognisable, or searchable, in hex.
            if code > 0xFFFF {
                out.append("error 0x");
                let number = hex_text(code, 8);
                out.append(number.as_str());
            } else {
                out.append("error ");
                let number = decimal_text(code as u128);
                out.append(number.as_str());
            }
        },
    }
    assert(out@ =~= headline(code));
    let ghost head = out@;
    if let Some(m) = message {
        out.append(": ");
        out.append(m);
    }
    let ghost body = out@;
    assert(body =~= head + match message {
        Some(m) => ": "@ + m@,
        None => Seq::empty(),
    });
    if let Some(h) = hint(code) {
        out.append("\n  ");
        out.append(h);
    }
    assert(out@ =~= body + match hint_of(code) {
        Some(h) => "\n  "@ + h,
        None => Seq::empty(),
    });
    out
}

/// Render what a call answered.
pub fn describe_answer(answer: &Answer) -> (r: String)
    ensures
        r@ == answer.described(),
{
    match &answer.message {
        Some(m) => describe(answer.code, Some(m.as_str())),
        None => describe(answer.code, None),
    }
}

/// Every code renders into something, whether or not the system has words for
/// it, and the rendering leads with the code itself.
pub proof fn law_description_is_never_empty(code: u32, message: Option<Seq<char>>)
    ensures
        description(code, message).len() > 0,
        headline(code) =~= description(code, message).take(headline(code).len() as int),
{
    reveal_strlit(" (");
    reveal_strlit("error 0x");
    reveal_strlit("error ");
}

/// Each code that the display calls document is called by its own Windows name, and no
/// other has one.
pub proof fn law_each_code_has_its_windows_name(code: u32)
    ensures
        code == 0 ==> name_of(code) == Some("ERROR_SUCCESS"@),
        code == 5 ==> name_of(code) == Some("ERROR_ACCESS_DENIED"@),
        code == 13 ==> name_of(code) == Some("ERROR_INVALID_DATA"@),
        code == 31 ==> name_of(code) == Some("ERROR_GEN_FAILURE"@),
        code == 50 ==> name_of(code) == Some("ERROR_NOT_SUPPORTED"@),
        code == 87 ==> name_of(code) == Some("ERROR_INVALID_PARAMETER"@),
        code == 122 ==> name_of(code) == Some("ERROR_INSUFFICIENT_BUFFER"@),
        code == 1004 ==> name_of(code) == Some("ERROR_INVALID_FLAGS"@),
        code == 1610 ==> name_of(code) == Some("ERROR_BAD_CONFIGURATION"@),
        name_of(code) is Some ==> code == 0 || code == 5 || code == 13 || code == 31 || code == 50
            || code == 87 || code == 122 || code == 1004 || code == 1610,
        ERROR_SUCCESS == 0 && ERROR_INSUFFICIENT_BUFFER == 122,
{
}

/// Guidance goes with the codes that it is about, and with no other.
pub proof fn law_guidance_goes_with_its_code(code: u32)
    ensures
        code == 1610 ==> hint_of(code) == Some(
            "The requested topology has no entry in the display database."@,
        ),
        code == 31 ==> hint_of(code) == Some(
            "The driver refused this configuration. Usually this means the GPU cannot drive this many outputs at once, or not all of them at these resolutions."@,
        ),
        code == 5 ==> hint_of(code) == Some(
            "SetDisplayConfig requires access to the console session; it fails over Remote Desktop and from a service."@,
        ),
        code == 50 ==> hint_of(code) == Some("This requires a WDDM display driver."@),
        hint_of(code) is Some <==> code == 5 || code == 31 || code == 50 || code == 1610,
{
}

/// A code can be read out of its description: behind its name, where it has one, in
/// decimal where it is a plain Win32 code, and in eight hexadecimal digits where it is
/// not.
pub proof fn law_a_code_reads_back(code: u32)
    ensures
        name_of(code) matches Some(name) ==> {
            let h = headline(code);
            &&& h.take(name.len() as int) == name
            &&& digits_value(h.subrange(name.len() as int + 2, h.len() - 1), 10) == code
        },
        name_of(code) is None && code <= 0xFFFF ==> headline(code).take(6) == "error "@
            && digits_value(headline(code).skip(6), 10) == code,
        name_of(code) is None && code > 0xFFFF ==> headline(code).take(8) == "error 0x"@
            && headline(code).len() == 16 && digits_value(headline(code).skip(8), 16) == code,
{
    reveal_strlit(" (");
    reveal_strlit(")");
    reveal_strlit("error 0x");
    reveal_strlit("error ");
    lemma_decimal_reads_back(code as nat);
    law_hex_reads_back(code as nat, 8);
    reveal_with_fuel(sixteen_to, 9);
    lemma_hex_width(code as nat, 8);
    let h = headline(code);
    match name_of(code) {
        Some(name) => {
            assert(h.take(name.len() as int) =~= name);
            assert(h.subrange(name.len() as int + 2, h.len() - 1) =~= decimal(code as nat));
        },
        None => if code > 0xFFFF {
            assert(h.take(8) =~= "error 0x"@);
            assert(h.skip(8) =~= hex(code as nat, 8));
        } else {
            assert(h.take(6) =~= "error "@);
            assert(h.skip(6) =~= decimal(code as nat));
        },
    }
}

/// A description is the code, then the system's words where it has any, and then the
/// guidance on a line of its own, where there is any.
pub proof fn law_a_description_has_its_parts(code: u32, words: Seq<char>)
    ensures
        ({
            let tail = match hint_of(code) {
                Some(hint) => "\n  "@ + hint,
                None => Seq::<char>::empty(),
            };
            &&& description(code, None) == headline(code) + tail
            &&& description(code, Some(words)) == headline(code) + ": "@ + words + tail
        }),
{
    let tail = match hint_of(code) {
        Some(hint) => "\n  "@ + hint,
        None => Seq::<char>::empty(),
    };
    assert(description(code, None) =~= headline(code) + tail);
    assert(description(code, Some(words)) =~= headline(code) + ": "@ + words + tail);
}

/// The laws on codes are about what the functions here return.
pub proof fn law_codes_are_told_of_as_stated(code: u32, message: Option<&str>, answer: &Answer)
    ensures
        forall|r: Option<&'static str>|
            call_ensures(name, (code,), r) ==> match r {
                Some(n) => name_of(code) == Some(n@),
                None => name_of(code) is None,
            },
        forall|r: Option<&'static str>|
            call_ensures(hint, (code,), r) ==> match r {
                Some(h) => hint_of(code) == Some(h@),
                None => hint_of(code) is None,
            },
        forall|r: String|
            call_ensures(describe, (code, message), r) ==> r@ == description(
                code,
                match message {
                    Some(m) => Some(m@),
                    None => None,
                },
            ),
        forall|r: String|
            call_ensures(describe_answer, (answer,), r) ==> r@ == answer.described(),
{
}

} // verus!
