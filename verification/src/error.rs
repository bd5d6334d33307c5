//! What can go wrong, and how it is put into words.

use vstd::prelude::*;

use crate::display::ccd::Luid;
use crate::text::{cat2, cat3, cat4, cat5, decimal, decimal_text, join, joined, texts};
use crate::winerr::{describe_answer, Answer};

verus! {

/// Everything that can keep a command from doing what it was asked.
#[derive(Debug)]
pub enum Error {
    /// `GetDisplayConfigBufferSizes` did not succeed.
    BufferSizes { answer: Answer },
    /// `QueryDisplayConfig` did not succeed.
    Query { answer: Answer },
    /// The configuration changed on every attempt to read it.
    KeptChanging,
    /// Windows did not say which device an adapter is.
    AdapterName { answer: Answer },
    /// Nothing is known about an adapter.
    NoAdapter { adapter: Luid },
    /// Something that was being done failed.
    Context { doing: String, cause: String },
    /// Something that was being done failed over another error.
    Nested { doing: String, inner: Box<Error> },
    /// Something failed that says itself what it was.
    Plain { why: String },
    /// `switch` was given no profiles and the config names none.
    NoSwitchPair,
    /// The config names the wrong number of profiles to switch between.
    BadSwitchPair { found: usize },
    /// A profile lists a name that is no target's.
    UnknownTarget { name: String, known: Vec<String> },
    /// There is no profile of that name.
    UnknownProfile { name: String, known: Vec<String> },
    /// A wanted output is not there.
    NotConnected { target_id: u32, device: String, present: Vec<String> },
    /// The adapter has no source left for a wanted output.
    NoFreeSource { target_id: u32, wanted: usize },
    /// Windows would not accept a change.
    Validation { answer: Answer },
    /// Windows did not make a change, in either way of asking.
    Apply { database: Answer, best_mode: Answer },
}

impl Error {
    /// The error in words.
    pub open spec fn text(self) -> Seq<char>
        decreases self,
    {
        match self {
            Error::BufferSizes { answer } => "GetDisplayConfigBufferSizes failed: "@
                + answer.described(),
            Error::Query { answer } => "QueryDisplayConfig failed: "@ + answer.described(),
            Error::KeptChanging =>
                "display configuration kept changing while being read (5 attempts)"@,
            Error::AdapterName { answer } => "GET_ADAPTER_NAME failed: "@ + answer.described(),
            Error::NoAdapter { adapter } => "no adapter for LUID "@ + decimal(
                adapter.low_part as nat,
            ),
            Error::Context { doing, cause } => doing@ + ": "@ + cause@,
            Error::Nested { doing, inner } => doing@ + ": "@ + inner.text(),
            Error::Plain { why } => why@,
            Error::NoSwitchPair =>
                "no switch pair configured\n  Add `\"switch\": [\"<profile-a>\", \"<profile-b>\"]` to the config, or pass both names: `monitor-switcher switch <a> <b>`"@,
            Error::BadSwitchPair { found } => "\"switch\" must name exactly 2 profiles, found "@
                + decimal(found as nat),
            Error::UnknownTarget { name, known } => "profile refers to unknown target \""@ + name@
                + "\"; known targets: "@ + join(texts(known@), ", "@),
            Error::UnknownProfile { name, known } => "no profile named \""@ + name@
                + "\"; known profiles: "@ + join(texts(known@), ", "@),
            Error::NotConnected { target_id, device, present } => "target "@ + decimal(
                target_id as nat,
            ) + " on adapter "@ + device@ + " is not connected.\n  Currently connected: "@ + join(
                texts(present@),
                ", "@,
            ),
            Error::NoFreeSource { target_id, wanted } => "no free GPU source for target "@
                + decimal(target_id as nat) + " — the adapter cannot drive "@ + decimal(
                wanted as nat,
            ) + " outputs at once"@,
            Error::Validation { answer } => "validation failed: "@ + answer.described()
                + "\n  If the cause is a missing saved layout, a real apply would still succeed by letting Windows choose the modes; if the hardware cannot drive this combination, it would not."@,
            Error::Apply { database, best_mode } =>
                "could not apply this topology.\n  from the display database: "@
                + database.described() + "\n  letting Windows choose modes: "@
                + best_mode.described(),
        }
    }

    /// The error in words.
    pub fn message(&self) -> (r: String)
        ensures
            r@ == self.text(),
        decreases self,
    {
        match self {
            Error::BufferSizes { answer } => {
                let why = describe_answer(answer);
                cat2("GetDisplayConfigBufferSizes failed: ", why.as_str())
            },
            Error::Query { answer } => {
                let why = describe_answer(answer);
                cat2("QueryDisplayConfig failed: ", why.as_str())
            },
            Error::KeptChanging =>
                "display configuration kept changing while being read (5 attempts)".to_owned(),
            Error::AdapterName { answer } => {
                let why = describe_answer(answer);
                cat2("GET_ADAPTER_NAME failed: ", why.as_str())
            },
            Error::NoAdapter { adapter } => {
                let number = decimal_text(adapter.low_part as u128);
                cat2("no adapter for LUID ", number.as_str())
            },
            Error::Context { doing, cause } => cat3(doing.as_str(), ": ", cause.as_str()),
            Error::Nested { doing, inner } => {
                let cause = inner.message();
                cat3(doing.as_str(), ": ", cause.as_str())
            },
            Error::Plain { why } => why.clone(),
            Error::NoSwitchPair =>
                "no switch pair configured\n  Add `\"switch\": [\"<profile-a>\", \"<profile-b>\"]` to the config, or pass both names: `monitor-switcher switch <a> <b>`".to_owned(),
            Error::BadSwitchPair { found } => {
                let number = decimal_text(*found as u128);
                cat2("\"switch\" must name exactly 2 profiles, found ", number.as_str())
            },
            Error::UnknownTarget { name, known } => {
                let list = joined(known.as_slice(), ", ");
                cat4(
                    "profile refers to unknown target \"",
                    name.as_str(),
                    "\"; known targets: ",
                    list.as_str(),
                )
            },
            Error::UnknownProfile { name, known } => {
                let list = joined(known.as_slice(), ", ");
                cat4(
                    "no profile named \"",
                    name.as_str(),
                    "\"; known profiles: ",
                    list.as_str(),
                )
            },
            Error::NotConnected { target_id, device, present } => {
                let number = decimal_text(*target_id as u128);
                let list = joined(present.as_slice(), ", ");
                let head = cat5(
                    "target ",
                    number.as_str(),
                    " on adapter ",
                    device.as_str(),
                    " is not connected.\n  Currently connected: ",
                );
                cat2(head.as_str(), list.as_str())
            },
            Error::NoFreeSource { target_id, wanted } => {
                let number = decimal_text(*target_id as u128);
                let outputs = decimal_text(*wanted as u128);
                cat5(
                    "no free GPU source for target ",
                    number.as_str(),
                    " — the adapter cannot drive ",
                    outputs.as_str(),
                    " outputs at once",
                )
            },
            Error::Validation { answer } => {
                let why = describe_answer(answer);
                cat3(
                    "validation failed: ",
                    why.as_str(),
                    "\n  If the cause is a missing saved layout, a real apply would still succeed by letting Windows choose the modes; if the hardware cannot drive this combination, it would not.",
                )
            },
            Error::Apply { database, best_mode } => {
                let first = describe_answer(database);
                let second = describe_answer(best_mode);
                cat4(
                    "could not apply this topology.\n  from the display database: ",
                    first.as_str(),
                    "\n  letting Windows choose modes: ",
                    second.as_str(),
                )
            },
        }
    }
}

/// An error as what failed, and then what caused it, one cause after the other.
pub open spec fn chain(e: Error) -> Seq<Seq<char>>
    decreases e,
{
    match e {
        Error::Context { doing, cause } => seq![doing@, cause@],
        Error::Nested { doing, inner } => seq![doing@] + chain(*inner),
        _ => seq![e.text()],
    }
}

/// An error in words is what failed and its causes, joined.
pub proof fn law_text_is_the_chain_joined(e: Error)
    ensures
        chain(e).len() > 0,
        e.text() == join(chain(e), ": "@),
    decreases e,
{
    match e {
        Error::Context { doing, cause } => {
            reveal_with_fuel(join, 2);
            assert(seq![doing@, cause@].drop_last() =~= seq![doing@]);
        },
        Error::Nested { doing, inner } => {
            law_text_is_the_chain_joined(*inner);
            lemma_join_first(doing@, chain(*inner), ": "@);
        },
        _ => {},
    }
}

// What stands first is followed by the rest, joined.
proof fn lemma_join_first(first: Seq<char>, rest: Seq<Seq<char>>, sep: Seq<char>)
    requires
        rest.len() > 0,
    ensures
        join(seq![first] + rest, sep) == first + sep + join(rest, sep),
    decreases rest.len(),
{
    let all = seq![first] + rest;
    if rest.len() == 1 {
        reveal_with_fuel(join, 2);
        assert(all.drop_last() =~= seq![first]);
    } else {
        assert(all.drop_last() =~= seq![first] + rest.drop_last());
        lemma_join_first(first, rest.drop_last(), sep);
        assert(join(all, sep) =~= first + sep + join(rest, sep));
    }
}

/// What failed, and then what caused it, one cause after the other.
pub fn causes(e: &Error) -> (r: Vec<String>)
    ensures
        texts(r@) == chain(*e),
        r@.len() > 0,
    decreases e,
{
    let mut out: Vec<String> = Vec::new();
    match e {
        Error::Context { doing, cause } => {
            out.push(doing.clone());
            out.push(cause.clone());
        },
        Error::Nested { doing, inner } => {
            let rest = causes(inner);
            out.push(doing.clone());
            let ghost tail = texts(rest@);
            assert(texts(out@) =~= seq![doing@] + tail.take(0));
            for i in 0..rest.len()
                invariant
                    tail == texts(rest@),
                    texts(out@) == seq![doing@] + tail.take(i as int),
                    out@.len() > 0,
            {
                let ghost before = out@;
                out.push(rest[i].clone());
                assert(texts(out@) =~= texts(before).push(tail[i as int]));
                assert(seq![doing@] + tail.take(i + 1) =~= (seq![doing@] + tail.take(
                    i as int,
                )).push(tail[i as int]));
            }
            assert(tail.take(rest@.len() as int) =~= tail);
        },
        _ => {
            out.push(e.message());
        },
    }
    assert(texts(out@) =~= chain(*e));
    out
}

/// What failed, without its causes.
pub fn headline(e: &Error) -> (r: String)
    ensures
        r@ == chain(*e)[0],
{
    let all = causes(e);
    assert(texts(all@)[0] == all@[0]@);
    all[0].clone()
}

/// The error that a text and its causes make.
pub fn layered(text: String, under: &[String]) -> (r: Error)
    ensures
        chain(r) == seq![text@] + texts(under@),
{
    let n: usize = under.len();
    if n == 0 {
        assert(texts(under@) =~= Seq::empty());
        return Error::Plain { why: text };
    }
    let mut inner = Error::Plain { why: under[n - 1].clone() };
    let mut i: usize = n - 1;
    assert(chain(inner) =~= texts(under@).skip(i as int));
    while i > 0
        invariant
            i < n,
            n == under@.len(),
            chain(inner) == texts(under@).skip(i as int),
        decreases i,
    {
        i -= 1;
        inner = Error::Nested { doing: under[i].clone(), inner: Box::new(inner) };
        assert(chain(inner) =~= texts(under@).skip(i as int));
    }
    assert(texts(under@).skip(0) =~= texts(under@));
    Error::Nested { doing: text, inner: Box::new(inner) }
}

/// What caused an error, each on a line of its own.
pub open spec fn cause_lines(e: Error) -> Seq<Seq<char>> {
    chain(e).skip(1).map_values(|cause: Seq<char>| "  caused by: "@ + cause)
}

/// How an error is reported: what failed, and each cause on a line of its own.
pub open spec fn report_lines(e: Error) -> Seq<Seq<char>> {
    seq!["error: "@ + chain(e)[0]] + cause_lines(e)
}

/// What caused an error, each on a line of its own.
pub fn caused_by(e: &Error) -> (r: Vec<String>)
    ensures
        texts(r@) == cause_lines(*e),
{
    let all = causes(e);
    let mut lines: Vec<String> = Vec::new();
    let ghost expected = cause_lines(*e);
    assert(texts(lines@) =~= expected.take(0));
    for i in 1..all.len()
        invariant
            texts(all@) == chain(*e),
            expected == cause_lines(*e),
            texts(lines@) == expected.take(i - 1),
    {
        let line = cat2("  caused by: ", all[i].as_str());
        let ghost before = lines@;
        lines.push(line);
        assert(texts(lines@) =~= texts(before).push(line@));
        assert(expected[i - 1] == "  caused by: "@ + chain(*e).skip(1)[i - 1]);
        assert(line@ == expected[i - 1]);
        assert(expected.take(i as int) =~= expected.take(i - 1).push(expected[i - 1]));
    }
    assert(expected.take(all@.len() - 1) =~= expected);
    lines
}

/// The lines by which a failure is reported: the whole of it, since a silent or
/// vague failure is what this program was written to avoid.
pub fn report_error(e: &Error) -> (r: Vec<String>)
    ensures
        texts(r@) == report_lines(*e),
{
    let all = causes(e);
    let mut lines: Vec<String> = Vec::new();
    assert(texts(all@)[0] == all@[0]@);
    lines.push(cat2("error: ", all[0].as_str()));
    let mut rest = caused_by(e);
    let ghost head = lines@;
    let ghost tail = rest@;
    lines.append(&mut rest);
    assert(texts(lines@) =~= texts(head) + texts(tail));
    assert(texts(lines@) =~= report_lines(*e));
    lines
}

/// An error is reported by what failed, and each of its causes on a line of its own.
pub proof fn law_an_error_is_reported_with_its_causes(e: Error, i: int)
    ensures
        report_lines(e).len() == chain(e).len(),
        report_lines(e)[0] == "error: "@ + chain(e)[0],
        1 <= i < chain(e).len() ==> report_lines(e)[i] == "  caused by: "@ + chain(e)[i],
        cause_lines(e).len() == chain(e).len() - 1,
{
    law_text_is_the_chain_joined(e);
}

/// What failed comes first in an error, and what it failed over follows, from the nearest
/// cause to the last.
pub proof fn law_causes_follow_what_they_caused(doing: String, cause: String, inner: Error)
    ensures
        chain(Error::Context { doing, cause }) == seq![doing@, cause@],
        chain(Error::Plain { why: cause }) == seq![cause@],
        chain(Error::Nested { doing, inner: Box::new(inner) }) == seq![doing@] + chain(inner),
{
}

/// Each error says what it is about: which call failed and what it was answered, which
/// name is unknown and which are known, or which output is not there and which are.
pub proof fn law_each_error_says_what_it_is_about(
    answer: Answer,
    second: Answer,
    adapter: Luid,
    name: String,
    known: Vec<String>,
    id: u32,
    count: usize,
)
    ensures
        (Error::BufferSizes { answer }).text() == "GetDisplayConfigBufferSizes failed: "@
            + answer.described(),
        (Error::Query { answer }).text() == "QueryDisplayConfig failed: "@ + answer.described(),
        Error::KeptChanging.text()
            == "display configuration kept changing while being read (5 attempts)"@,
        (Error::AdapterName { answer }).text() == "GET_ADAPTER_NAME failed: "@
            + answer.described(),
        (Error::NoAdapter { adapter }).text() == "no adapter for LUID "@ + decimal(
            adapter.low_part as nat,
        ),
        Error::NoSwitchPair.text()
            == "no switch pair configured\n  Add `\"switch\": [\"<profile-a>\", \"<profile-b>\"]` to the config, or pass both names: `monitor-switcher switch <a> <b>`"@,
        (Error::BadSwitchPair { found: count }).text()
            == "\"switch\" must name exactly 2 profiles, found "@ + decimal(count as nat),
        (Error::UnknownTarget { name, known }).text() == "profile refers to unknown target \""@
            + name@ + "\"; known targets: "@ + join(texts(known@), ", "@),
        (Error::UnknownProfile { name, known }).text() == "no profile named \""@ + name@
            + "\"; known profiles: "@ + join(texts(known@), ", "@),
        (Error::NotConnected { target_id: id, device: name, present: known }).text() == "target "@
            + decimal(id as nat) + " on adapter "@ + name@
            + " is not connected.\n  Currently connected: "@ + join(texts(known@), ", "@),
        (Error::NoFreeSource { target_id: id, wanted: count }).text()
            == "no free GPU source for target "@ + decimal(id as nat)
            + " — the adapter cannot drive "@ + decimal(count as nat) + " outputs at once"@,
        (Error::Validation { answer }).text() == "validation failed: "@ + answer.described()
            + "\n  If the cause is a missing saved layout, a real apply would still succeed by letting Windows choose the modes; if the hardware cannot drive this combination, it would not."@,
        (Error::Apply { database: answer, best_mode: second }).text()
            == "could not apply this topology.\n  from the display database: "@
            + answer.described() + "\n  letting Windows choose modes: "@ + second.described(),
{
}

/// The laws on errors are about what the functions here return.
pub proof fn law_errors_are_told_of_as_stated(e: &Error, text: String, under: &[String])
    ensures
        forall|r: String| call_ensures(Error::message, (e,), r) ==> r@ == e.text(),
        forall|r: Vec<String>| call_ensures(causes, (e,), r) ==> texts(r@) == chain(*e),
        forall|r: String| call_ensures(headline, (e,), r) ==> r@ == chain(*e)[0],
        forall|r: Error|
            call_ensures(layered, (text, under), r) ==> chain(r) == seq![text@] + texts(under@),
        forall|r: Vec<String>| call_ensures(caused_by, (e,), r) ==> texts(r@) == cause_lines(*e),
        forall|r: Vec<String>|
            call_ensures(report_error, (e,), r) ==> texts(r@) == report_lines(*e),
{
}

} // verus!
