//! DDC/CI: talking to a monitor's own controls over the video cable.
//!
//! This is the protocol behind the buttons on the front of a monitor: input
//! source, brightness, contrast, and on many panels power. Features are addressed
//! by VCP code, a byte: `0x60` is input select, `0x10` brightness, `0xD6` power
//! mode. The calls are the caller's; this module interprets their replies.
//!
//! Only active displays can be reached: DDC/CI rides on the video link, so a
//! display whose output is switched off has no channel to talk over.

use vstd::prelude::*;

use crate::display::ccd::{decode_utf16, terminated, terminated_len, utf16};
use crate::error::{chain, Error};
use crate::seqs::{first_where, lemma_first_where, lemma_first_where_is};
use crate::text::{
    cat2, cat5, digits_value, hex, hex_text, law_hex_reads_back, same_text,
};
use crate::winerr::{describe_answer, Answer};

verus! {

/// A monitor's reply about one VCP feature.
#[derive(Debug, Clone, Copy, PartialEq, Eq, Structural)]
pub struct Vcp {
    pub current: u32,
    pub maximum: u32,
}

/// What is said of a display that did not answer about a feature. One that does
/// not implement a code and one that does not speak DDC/CI at all look the same,
/// so both are mentioned.
pub open spec fn unsupported_text(code: u8, last_error: Answer) -> Seq<char> {
    "the display did not answer VCP 0x"@ + hex(code as nat, 2)
        + " (it may not implement this feature, or DDC/CI at all) ["@ + last_error.described()
        + "]"@
}

/// Say that a display did not answer about a feature.
pub fn unsupported(code: u8, last_error: &Answer) -> (r: String)
    ensures
        r@ == unsupported_text(code, *last_error),
{
    let number = hex_text(code as u32, 2);
    let why = describe_answer(last_error);
    cat5(
        "the display did not answer VCP 0x",
        number.as_str(),
        " (it may not implement this feature, or DDC/CI at all) [",
        why.as_str(),
        "]",
    )
}

/// The reply to reading a feature. A call that returned zero failed.
pub fn get_reply(ok: i32, code: u8, vcp: Vcp, last_error: &Answer) -> (r: Result<Vcp, Error>)
    ensures
        match r {
            Ok(v) => ok != 0 && v == vcp,
            Err(e) => ok == 0 && chain(e) == seq![unsupported_text(code, *last_error)],
        },
{
    if ok == 0 {
        Err(Error::Plain { why: unsupported(code, last_error) })
    } else {
        Ok(vcp)
    }
}

/// The reply to setting a feature. A call that returned zero failed.
pub fn set_reply(ok: i32, code: u8, last_error: &Answer) -> (r: Result<(), Error>)
    ensures
        match r {
            Ok(_) => ok != 0,
            Err(e) => ok == 0 && chain(e) == seq![unsupported_text(code, *last_error)],
        },
{
    if ok == 0 {
        Err(Error::Plain { why: unsupported(code, last_error) })
    } else {
        Ok(())
    }
}

/// Whether a GDI device has a physical monitor to talk to.
pub fn check_count(gdi_device: &str, count: u32) -> (r: Result<(), Error>)
    ensures
        match r {
            Ok(_) => count != 0,
            Err(e) => count == 0 && chain(e) == seq![
                gdi_device@ + " reports no physical monitors"@,
            ],
        },
{
    if count == 0 {
        Err(Error::Plain { why: cat2(gdi_device, " reports no physical monitors") })
    } else {
        Ok(())
    }
}

/// Whether a display reports what it supports, by the length of that.
pub fn check_capabilities(ok: i32, len: u32) -> (r: Result<(), Error>)
    ensures
        match r {
            Ok(_) => ok != 0 && len != 0,
            Err(e) => (ok == 0 || len == 0) && chain(e) == seq![
                "this display does not report a capabilities string"@,
            ],
        },
{
    if ok == 0 || len == 0 {
        Err(
            Error::Plain {
                why: "this display does not report a capabilities string".to_owned(),
            },
        )
    } else {
        Ok(())
    }
}

/// What stands in front of the first zero, or everything where there is none.
pub open spec fn until_zero(bytes: Seq<u8>) -> Seq<u8> {
    bytes.take(first_where(bytes, |b: u8| b == 0))
}

/// The text that bytes hold, with a replacement character for what is no UTF-8.
pub uninterp spec fn utf8_lossy(bytes: Seq<u8>) -> Seq<char>;

/// Whether bytes are all ASCII.
pub open spec fn ascii(bytes: Seq<u8>) -> bool {
    forall|i: int| 0 <= i < bytes.len() ==> #[trigger] bytes[i] < 128
}

/// `String::from_utf8_lossy`, into an owned string: a function of the bytes. ASCII
/// bytes, which are UTF-8, come out as the characters with their codes. What other
/// bytes come out as is left unsaid.
#[verifier::external_body]
fn from_utf8_lossy(bytes: &[u8]) -> (r: String)
    ensures
        r@ == utf8_lossy(bytes@),
        ascii(bytes@) ==> r@ == Seq::new(bytes@.len(), |i: int| bytes@[i] as char),
{
    String::from_utf8_lossy(bytes).into_owned()
}

/// The capabilities string in a reply: a text that lists the VCP codes a monitor
/// implements, and ends in a zero.
pub fn capabilities(ok: i32, reply: &[u8]) -> (r: Result<String, Error>)
    ensures
        match r {
            Ok(text) => {
                &&& ok != 0
                &&& text@ == utf8_lossy(until_zero(reply@))
                &&& ascii(until_zero(reply@)) ==> text@ == Seq::new(
                    until_zero(reply@).len(),
                    |i: int| until_zero(reply@)[i] as char,
                )
            },
            Err(e) => ok == 0 && chain(e) == seq!["reading the capabilities string failed"@],
        },
{
    if ok == 0 {
        return Err(Error::Plain { why: "reading the capabilities string failed".to_owned() });
    }
    let ghost zero = |b: u8| b == 0;
    let mut text: Vec<u8> = Vec::new();
    let mut end: usize = 0;
    while end < reply.len() && reply[end] != 0
        invariant
            end <= reply@.len(),
            text@ == reply@.take(end as int),
            forall|j: int| 0 <= j < end ==> reply@[j] != 0,
        decreases reply@.len() - end,
    {
        text.push(reply[end]);
        assert(reply@.take(end + 1) =~= reply@.take(end as int).push(reply@[end as int]));
        end += 1;
    }
    proof {
        assert forall|j: int| 0 <= j < end implies !zero(#[trigger] reply@[j]) by {}
        lemma_first_where_is(reply@, zero, end as int);
    }
    Ok(from_utf8_lossy(text.as_slice()))
}

/// The name of a display device, out of the buffer that Windows filled in.
pub fn device_name(ok: bool, buf: &[u16]) -> (r: Option<String>)
    ensures
        match r {
            Some(name) => ok && name@ == utf16(terminated(buf@)),
            None => !ok,
        },
{
    if !ok {
        return None;
    }
    let len = terminated_len(buf);
    Some(decode_utf16(buf, len))
}

/// Device names that are a given one.
pub open spec fn is_device(gdi_device: Seq<char>) -> spec_fn(Option<String>) -> bool {
    |name: Option<String>| name matches Some(n) && n@ == gdi_device
}

/// Which of the attached displays a GDI device drives, by their device names.
pub fn find_device(names: &[Option<String>], gdi_device: &str) -> (r: Result<usize, Error>)
    ensures
        match r {
            Ok(i) => i < names@.len() && i == first_where(names@, is_device(gdi_device@)),
            Err(e) => first_where(names@, is_device(gdi_device@)) >= names@.len() && chain(
                e,
            ) == seq!["no attached display is currently driven by "@ + gdi_device@],
        },
{
    for i in 0..names.len()
        invariant
            forall|j: int| 0 <= j < i ==> !is_device(gdi_device@)(#[trigger] names@[j]),
    {
        if let Some(name) = &names[i] {
            if same_text(name.as_str(), gdi_device) {
                proof {
                    lemma_first_where_is(names@, is_device(gdi_device@), i as int);
                }
                return Ok(i);
            }
        }
    }
    proof {
        lemma_first_where_is(names@, is_device(gdi_device@), names@.len() as int);
    }
    Err(Error::Plain { why: cat2("no attached display is currently driven by ", gdi_device) })
}

/// Say that the attached displays could not be listed.
pub fn enumeration_failed(last_error: &Answer) -> (r: Error)
    ensures
        chain(r) == seq!["enumerating attached displays failed: "@ + last_error.described()],
{
    let why = describe_answer(last_error);
    Error::Plain { why: cat2("enumerating attached displays failed: ", why.as_str()) }
}

/// The text of a reply ends before its first zero, or with the reply where it has none.
pub proof fn law_a_reply_ends_at_its_first_zero(bytes: Seq<u8>)
    ensures
        until_zero(bytes).len() <= bytes.len(),
        until_zero(bytes) == bytes.take(until_zero(bytes).len() as int),
        !until_zero(bytes).contains(0),
        until_zero(bytes).len() < bytes.len() ==> bytes[until_zero(bytes).len() as int] == 0,
{
    let zero = |b: u8| b == 0;
    lemma_first_where(bytes, zero);
    let f = first_where(bytes, zero);
    assert(until_zero(bytes) == bytes.take(f));
    if until_zero(bytes).contains(0) {
        let i = choose|i: int| 0 <= i < until_zero(bytes).len() && until_zero(bytes)[i] == 0;
        assert(!zero(bytes[i]));
    }
}

/// A display is found by the name of the device that drives it: it is the first that
/// goes by that name, and one whose name is not known is never found.
pub proof fn law_a_display_is_found_by_its_device(
    names: Seq<Option<String>>,
    gdi_device: Seq<char>,
    i: int,
)
    requires
        0 <= i < names.len(),
    ensures
        ({
            let found = first_where(names, is_device(gdi_device));
            &&& i < found ==> !(names[i] is Some && names[i]->0@ == gdi_device)
            &&& i == found ==> names[i] is Some && names[i]->0@ == gdi_device
        }),
{
    lemma_first_where(names, is_device(gdi_device));
    let found = first_where(names, is_device(gdi_device));
    if i < found {
        assert(!is_device(gdi_device)(names[i]));
    }
}

/// What is said of a display that did not answer names the feature, in two hexadecimal
/// digits, and ends with what Windows had to say.
pub proof fn law_a_silent_display_is_reported(code: u8, last_error: Answer)
    ensures
        ({
            let head = "the display did not answer VCP 0x"@ + hex(code as nat, 2)
                + " (it may not implement this feature, or DDC/CI at all) ["@;
            unsupported_text(code, last_error) == head + last_error.described() + "]"@
        }),
        digits_value(hex(code as nat, 2), 16) == code,
{
    law_hex_reads_back(code as nat, 2);
}

/// A reply counts exactly if the call says that it went well, and is then handed on; a
/// display without monitors or without a capabilities string is refused, and no other.
pub proof fn law_a_reply_counts_if_the_call_went_well(
    ok: i32,
    code: u8,
    vcp: Vcp,
    last_error: &Answer,
    device: &str,
    n: u32,
    got: Result<Vcp, Error>,
    put: Result<(), Error>,
    counted: Result<(), Error>,
    long: Result<(), Error>,
)
    requires
        call_ensures(get_reply, (ok, code, vcp, last_error), got),
        call_ensures(set_reply, (ok, code, last_error), put),
        call_ensures(check_count, (device, n), counted),
        call_ensures(check_capabilities, (ok, n), long),
    ensures
        ok != 0 ==> got == Ok::<Vcp, Error>(vcp) && put is Ok,
        ok == 0 ==> (got matches Err(e) && chain(e) == seq![unsupported_text(code, *last_error)])
            && (put matches Err(e) && chain(e) == seq![unsupported_text(code, *last_error)]),
        counted is Ok <==> n > 0,
        counted matches Err(e) ==> chain(e) == seq![device@ + " reports no physical monitors"@],
        long is Ok <==> ok != 0 && n > 0,
        long matches Err(e) ==> chain(e) == seq![
            "this display does not report a capabilities string"@,
        ],
{
}

/// A device is found exactly if one of the names is its name, and it is the first such; a
/// capabilities string ends at its first zero; and a name counts only if it was told.
pub proof fn law_devices_and_strings_are_read_as_stated(
    names: &[Option<String>],
    device: &str,
    ok: i32,
    bytes: &[u8],
    told: bool,
    buf: &[u16],
    last_error: &Answer,
)
    ensures
        forall|r: Result<usize, Error>|
            call_ensures(find_device, (names, device), r) ==> match r {
                Ok(i) => i == first_where(names@, is_device(device@)) && i < names@.len(),
                Err(e) => first_where(names@, is_device(device@)) >= names@.len() && chain(e)
                    == seq!["no attached display is currently driven by "@ + device@],
            },
        forall|r: Result<String, Error>|
            call_ensures(capabilities, (ok, bytes), r) ==> (r is Ok <==> ok != 0) && (
            ok != 0 && ascii(until_zero(bytes@)) ==> r->Ok_0@.len() == until_zero(bytes@).len()),
        forall|r: Option<String>|
            call_ensures(device_name, (told, buf), r) ==> (r is Some <==> told) && (
            r matches Some(name) ==> name@ == utf16(terminated(buf@))),
        forall|r: Error|
            call_ensures(enumeration_failed, (last_error,), r) ==> chain(r) == seq![
                "enumerating attached displays failed: "@ + last_error.described(),
            ],
{
}

} // verus!
