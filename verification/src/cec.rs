//! HDMI-CEC control, for displays that can be switched on and off over the HDMI
//! cable itself.
//!
//! Televisions generally speak CEC, and not the protocol by which computer
//! monitors are controlled. Everything here is best-effort by design: a profile's
//! displays must switch whether or not an adapter is plugged in, so every failure
//! is a message to report, and never undoes a change that already succeeded.
//!
//! The adapter, and the clock, are the caller's. This module decides what to ask
//! of the television next, and what to say in the end.

use vstd::prelude::*;
use vstd::string::*;

use crate::error::{chain, Error};
use crate::text::{
    cat3, decimal, decimal_text, law_signed_decimal_reads_back, signed_decimal,
    signed_decimal_text, signed_value,
};

verus! {

/// How long to wait for the TV to finish an in-progress power transition before
/// issuing a new command, in seconds. Asking a TV to wake while it is still going
/// to sleep is ignored, which is the failure that this avoids.
pub const SETTLE_SECONDS: u64 = 12;

/// How long to wait for the TV to report itself on after being told to wake, in
/// seconds.
pub const POWER_ON_SECONDS: u64 = 15;

/// How long to wait between two questions, in milliseconds.
pub const POLL_MILLISECONDS: u64 = 400;

/// The name under which this program shows up on the TV's own device list, which
/// has room for thirteen characters.
pub fn osd_name() -> (r: &'static str)
    ensures
        r@ == "monitor-sw"@,
{
    "monitor-sw"
}

/// What a television says of its power.
#[derive(Debug, Clone, Copy, PartialEq, Eq, Structural)]
pub enum PowerStatus {
    On,
    Standby,
    InTransitionStandbyToOn,
    InTransitionOnToStandby,
    Unknown,
    Other { raw: i32 },
}

impl PowerStatus {
    /// The status in words.
    pub open spec fn text(self) -> Seq<char> {
        match self {
            PowerStatus::On => "On"@,
            PowerStatus::Standby => "Standby"@,
            PowerStatus::InTransitionStandbyToOn => "InTransitionStandbyToOn"@,
            PowerStatus::InTransitionOnToStandby => "InTransitionOnToStandby"@,
            PowerStatus::Unknown => "Unknown"@,
            PowerStatus::Other { raw } => "Other("@ + signed_decimal(raw as int) + ")"@,
        }
    }

    /// The status in words.
    pub fn name(&self) -> (r: String)
        ensures
            r@ == self.text(),
    {
        match self {
            PowerStatus::On => "On".to_owned(),
            PowerStatus::Standby => "Standby".to_owned(),
            PowerStatus::InTransitionStandbyToOn => "InTransitionStandbyToOn".to_owned(),
            PowerStatus::InTransitionOnToStandby => "InTransitionOnToStandby".to_owned(),
            PowerStatus::Unknown => "Unknown".to_owned(),
            PowerStatus::Other { raw } => {
                let number = signed_decimal_text(*raw);
                cat3("Other(", number.as_str(), ")")
            },
        }
    }

    /// Whether no power transition is in progress.
    pub open spec fn settled(self) -> bool {
        self != PowerStatus::InTransitionOnToStandby && self
            != PowerStatus::InTransitionStandbyToOn
    }

    /// Whether the television is off, or about to be.
    pub open spec fn asleep(self) -> bool {
        self == PowerStatus::Standby || self == PowerStatus::InTransitionOnToStandby
    }
}

/// What there is to say of a television that was to be woken.
#[derive(Debug, Clone, Copy, PartialEq, Eq, Structural)]
pub enum Woken {
    /// It was on already.
    Already,
    /// It confirmed that it is on.
    Confirmed,
    /// The command was accepted; the TV just has not confirmed yet. Many sets
    /// report late, so this is a note rather than a failure.
    Unconfirmed,
}

/// How far waking a television has come.
#[derive(Debug)]
pub enum Wake {
    /// Its status is to be asked, until no transition is in progress: a wake sent
    /// while it is going to sleep is silently dropped.
    Settling,
    /// Its status is to be asked, to see whether it is on already.
    Checking,
    /// It is to be told to wake.
    Sending,
    /// Its status is to be asked, until it is on.
    Waiting,
    /// Its input is to be taken over.
    Claiming { woken: Woken },
    /// Its status is to be asked once more, to be reported.
    Asking,
    Done { message: String },
    Failed { error: Error },
}

/// What came of the last thing asked of a television.
#[derive(Debug)]
pub enum Heard {
    /// Its status, and whether the time for asking is up.
    Status { status: PowerStatus, time_up: bool },
    /// Whether a command was accepted, or why not.
    Sent { outcome: Result<(), String> },
}

/// What is said of a television that is on.
pub open spec fn awake_text(woken: Woken, claimed: bool) -> Seq<char> {
    match woken {
        Woken::Already => if claimed {
            "TV already on, input claimed"@
        } else {
            "TV already on"@
        },
        _ => if claimed {
            "TV woken, input claimed"@
        } else {
            "TV woken"@
        },
    }
}

/// What is said of a television that did not confirm that it is on.
pub open spec fn unconfirmed_text(status: PowerStatus) -> Seq<char> {
    "TV did not confirm power-on within "@ + decimal(POWER_ON_SECONDS as nat) + "s (status: "@
        + status.text() + ")"@
}

/// Whether what was heard answers what was asked.
pub open spec fn answers(state: Wake, heard: Heard) -> bool {
    match state {
        Wake::Settling | Wake::Checking | Wake::Waiting | Wake::Asking => heard is Status,
        Wake::Sending | Wake::Claiming { .. } => heard is Sent,
        Wake::Done { .. } | Wake::Failed { .. } => false,
    }
}

/// Where waking a television stands when what there is to say of it is known: its
/// input is taken over first, where that is wanted.
pub open spec fn wake_end(woken: Woken, claimed: bool, next: Wake) -> bool {
    match woken {
        Woken::Unconfirmed => next is Asking,
        _ => next matches Wake::Done { message } && message@ == awake_text(woken, claimed),
    }
}

/// Where waking a television stands after what was heard of it.
pub open spec fn wake_next(state: Wake, claim: bool, heard: Heard, next: Wake) -> bool {
    match (state, heard) {
        (Wake::Settling, Heard::Status { status, time_up }) => if status.settled() || time_up {
            next is Checking
        } else {
            next is Settling
        },
        (Wake::Checking, Heard::Status { status, .. }) => if status != PowerStatus::On {
            next is Sending
        } else if claim {
            next == (Wake::Claiming { woken: Woken::Already })
        } else {
            wake_end(Woken::Already, false, next)
        },
        (Wake::Sending, Heard::Sent { outcome }) => match outcome {
            Ok(_) => next is Waiting,
            Err(cause) => next matches Wake::Failed { error } && chain(error) == seq![
                "sending CEC power-on"@,
                cause@,
            ],
        },
        (Wake::Waiting, Heard::Status { status, time_up }) => {
            let woken = if status == PowerStatus::On {
                Woken::Confirmed
            } else {
                Woken::Unconfirmed
            };
            if status != PowerStatus::On && !time_up {
                next is Waiting
            } else if claim {
                next == (Wake::Claiming { woken })
            } else {
                wake_end(woken, false, next)
            }
        },
        (Wake::Claiming { woken }, Heard::Sent { outcome }) => match outcome {
            Ok(_) => wake_end(woken, true, next),
            Err(cause) => next matches Wake::Failed { error } && chain(error) == seq![
                "claiming the TV's input as active source"@,
                cause@,
            ],
        },
        (Wake::Asking, Heard::Status { status, .. }) => next matches Wake::Done { message }
            && message@ == unconfirmed_text(status),
        // Nothing was asked that this would answer.
        _ => next == state,
    }
}

// Where waking a television stands when what there is to say of it is known.
fn end_of(woken: Woken, claimed: bool) -> (r: Wake)
    ensures
        wake_end(woken, claimed, r),
{
    match woken {
        Woken::Unconfirmed => Wake::Asking,
        Woken::Already => if claimed {
            Wake::Done { message: "TV already on, input claimed".to_owned() }
        } else {
            Wake::Done { message: "TV already on".to_owned() }
        },
        Woken::Confirmed => if claimed {
            Wake::Done { message: "TV woken, input claimed".to_owned() }
        } else {
            Wake::Done { message: "TV woken".to_owned() }
        },
    }
}

/// Start waking a television.
pub fn wake() -> (r: Wake)
    ensures
        r == Wake::Settling,
{
    Wake::Settling
}

/// Take what was heard of a television that is being woken, and whose input is to
/// be taken over, or not.
pub fn wake_step(state: Wake, claim: bool, heard: Heard) -> (r: Wake)
    ensures
        wake_next(state, claim, heard, r),
{
    match (state, heard) {
        (Wake::Settling, Heard::Status { status, time_up }) => if time_up || !(status
            == PowerStatus::InTransitionOnToStandby || status
            == PowerStatus::InTransitionStandbyToOn) {
            Wake::Checking
        } else {
            Wake::Settling
        },
        (Wake::Checking, Heard::Status { status, .. }) => if status != PowerStatus::On {
            Wake::Sending
        } else if claim {
            Wake::Claiming { woken: Woken::Already }
        } else {
            end_of(Woken::Already, false)
        },
        (Wake::Sending, Heard::Sent { outcome }) => match outcome {
            Ok(_) => Wake::Waiting,
            Err(cause) => Wake::Failed {
                error: Error::Context { doing: "sending CEC power-on".to_owned(), cause },
            },
        },
        (Wake::Waiting, Heard::Status { status, time_up }) => {
            let woken = if status == PowerStatus::On {
                Woken::Confirmed
            } else {
                Woken::Unconfirmed
            };
            if status != PowerStatus::On && !time_up {
                Wake::Waiting
            } else if claim {
                Wake::Claiming { woken }
            } else {
                end_of(woken, false)
            }
        },
        (Wake::Claiming { woken }, Heard::Sent { outcome }) => match outcome {
            Ok(_) => end_of(woken, true),
            Err(cause) => Wake::Failed {
                error: Error::Context {
                    doing: "claiming the TV's input as active source".to_owned(),
                    cause,
                },
            },
        },
        (Wake::Asking, Heard::Status { status, .. }) => {
            let seconds = decimal_text(POWER_ON_SECONDS as u128);
            let name = status.name();
            let head = cat3("TV did not confirm power-on within ", seconds.as_str(), "s (status: ");
            let message = cat3(head.as_str(), name.as_str(), ")");
            Wake::Done { message }
        },
        (state, _) => state,
    }
}

/// The states that waking a television goes through, given what was heard of it.
pub open spec fn is_wake(states: Seq<Wake>, claim: bool, heard: Seq<Heard>) -> bool {
    &&& states.len() == heard.len() + 1
    &&& states[0] is Settling
    &&& forall|i: int|
        0 <= i < heard.len() ==> answers(#[trigger] states[i], heard[i]) && wake_next(
            states[i],
            claim,
            heard[i],
            states[i + 1],
        )
}

/// A television is told to wake only when it is not on, and not before its last
/// power transition was waited out, or the time for waiting was up.
pub proof fn law_a_wake_waits_out_a_transition(
    states: Seq<Wake>,
    claim: bool,
    heard: Seq<Heard>,
    n: int,
)
    requires
        is_wake(states, claim, heard),
        0 <= n < states.len(),
        states[n] is Sending,
    ensures
        n >= 2,
        states[n - 1] is Checking,
        heard[n - 1] matches Heard::Status { status, .. } && status != PowerStatus::On,
        states[n - 2] is Settling,
        heard[n - 2] matches Heard::Status { status, time_up } && (status.settled() || time_up),
{
    assert(answers(states[n - 1], heard[n - 1]) && wake_next(
        states[n - 1],
        claim,
        heard[n - 1],
        states[n],
    ));
    assert(answers(states[n - 2], heard[n - 2]) && wake_next(
        states[n - 2],
        claim,
        heard[n - 2],
        states[n - 1],
    ));
}

/// A television is waited for until it says that it is on, or until the time for
/// that is up: nothing else that it says ends the wait.
pub proof fn law_waiting_ends_when_it_is_on_or_the_time_is_up(
    claim: bool,
    status: PowerStatus,
    time_up: bool,
    next: Wake,
)
    requires
        wake_next(Wake::Waiting, claim, Heard::Status { status, time_up }, next),
    ensures
        next is Waiting <==> status != PowerStatus::On && !time_up,
        status == PowerStatus::On && claim ==> next == (Wake::Claiming { woken: Woken::Confirmed }),
        status == PowerStatus::On && !claim ==> (next matches Wake::Done { message }
            && message@ == "TV woken"@),
        status != PowerStatus::On && time_up && claim ==> next == (Wake::Claiming {
            woken: Woken::Unconfirmed,
        }),
        status != PowerStatus::On && time_up && !claim ==> next is Asking,
{
}

/// The last power transition is waited out: as long as a television says that it is
/// on its way on or off, and there is time left, nothing is decided. Anything else
/// that it says, or the time being up, ends that.
pub proof fn law_a_transition_is_waited_out(
    claim: bool,
    status: PowerStatus,
    time_up: bool,
    next: Wake,
)
    requires
        wake_next(Wake::Settling, claim, Heard::Status { status, time_up }, next),
    ensures
        next is Settling <==> !time_up && (status == PowerStatus::InTransitionOnToStandby || status
            == PowerStatus::InTransitionStandbyToOn),
        !(next is Settling) ==> next is Checking,
{
}

/// A television that is on is not told to wake; any other is.
pub proof fn law_a_television_that_is_on_is_not_told_to_wake(
    claim: bool,
    status: PowerStatus,
    time_up: bool,
    next: Wake,
)
    requires
        wake_next(Wake::Checking, claim, Heard::Status { status, time_up }, next),
    ensures
        next is Sending <==> status != PowerStatus::On,
        status == PowerStatus::On && claim ==> next == (Wake::Claiming { woken: Woken::Already }),
        status == PowerStatus::On && !claim ==> (next matches Wake::Done { message }
            && message@ == "TV already on"@),
{
}

// The states of waking a television up to a point are states of waking it.
proof fn lemma_wake_step(states: Seq<Wake>, claim: bool, heard: Seq<Heard>, n: int)
    requires
        is_wake(states, claim, heard),
        0 < n < states.len(),
    ensures
        answers(states[n - 1], heard[n - 1]),
        wake_next(states[n - 1], claim, heard[n - 1], states[n]),
        is_wake(states.take(n), claim, heard.take(n - 1)),
{
    assert(answers(states[n - 1], heard[n - 1]));
    let (before, earlier) = (states.take(n), heard.take(n - 1));
    assert forall|i: int| 0 <= i < earlier.len() implies answers(#[trigger] before[i], earlier[i])
        && wake_next(before[i], claim, earlier[i], before[i + 1]) by {
        assert(answers(states[i], heard[i]));
    }
}

/// Whether it was heard that a television is on while a state lasted.
pub open spec fn heard_on(states: Seq<Wake>, heard: Seq<Heard>, state: Wake, n: int) -> bool {
    exists|i: int|
        #![trigger states[i]]
        0 <= i < n && states[i] == state && (heard[i] matches Heard::Status { status, .. }
            && status == PowerStatus::On)
}

/// Whether a television was still not on when the time for waiting was up.
pub open spec fn heard_time_up(states: Seq<Wake>, heard: Seq<Heard>, n: int) -> bool {
    exists|i: int|
        #![trigger states[i]]
        0 <= i < n && states[i] == Wake::Waiting && (heard[i] matches Heard::Status {
            status,
            time_up,
        } && time_up && status != PowerStatus::On)
}

/// Whether a command that was sent in a state was accepted.
pub open spec fn accepted(heard: Seq<Heard>, i: int) -> bool {
    heard[i] matches Heard::Sent { outcome } && outcome is Ok
}

// What is known of a television once its input is claimed, or its status is asked
// for a last time.
proof fn lemma_woken(states: Seq<Wake>, claim: bool, heard: Seq<Heard>, n: int)
    requires
        is_wake(states, claim, heard),
        0 <= n < states.len(),
    ensures
        states[n] matches Wake::Claiming { woken } ==> claim && match woken {
            Woken::Already => heard_on(states, heard, Wake::Checking, n),
            Woken::Confirmed => heard_on(states, heard, Wake::Waiting, n),
            Woken::Unconfirmed => heard_time_up(states, heard, n),
        },
        states[n] is Asking ==> heard_time_up(states, heard, n) && (claim ==> n >= 1 && states[n
            - 1] is Claiming && accepted(heard, n - 1)),
    decreases n,
{
    if n > 0 {
        lemma_wake_step(states, claim, heard, n);
        lemma_woken(states, claim, heard, n - 1);
    }
}

/// What is said of a television that was woken is so. It was on already, where it
/// said so before anything was sent. It was woken, where it said that it is on while
/// it was waited for. It did not confirm, only where the time for waiting was up and
/// it was still not on. Its input was claimed, where that was wanted and accepted.
pub proof fn law_what_is_said_of_a_wake_is_so(
    states: Seq<Wake>,
    claim: bool,
    heard: Seq<Heard>,
    n: int,
)
    requires
        is_wake(states, claim, heard),
        0 <= n < states.len(),
        states[n] is Done,
    ensures
        ({
            let message = states[n]->message@;
            ||| !claim && message == "TV already on"@ && heard_on(
                states,
                heard,
                Wake::Checking,
                n,
            )
            ||| claim && message == "TV already on, input claimed"@ && heard_on(
                states,
                heard,
                Wake::Checking,
                n,
            ) && accepted(heard, n - 1)
            ||| !claim && message == "TV woken"@ && heard_on(states, heard, Wake::Waiting, n)
            ||| claim && message == "TV woken, input claimed"@ && heard_on(
                states,
                heard,
                Wake::Waiting,
                n,
            ) && accepted(heard, n - 1)
            ||| heard_time_up(states, heard, n) && (heard[n - 1] matches Heard::Status {
                status,
                ..
            } && message == "TV did not confirm power-on within "@ + decimal(15) + "s (status: "@
                + status.text() + ")"@)
        }),
{
    lemma_wake_step(states, claim, heard, n);
    lemma_woken(states, claim, heard, n - 1);
}

/// Waking a television fails only over a command that was refused, and says which
/// one it was, and why.
pub proof fn law_a_wake_fails_over_a_refused_command(
    states: Seq<Wake>,
    claim: bool,
    heard: Seq<Heard>,
    n: int,
)
    requires
        is_wake(states, claim, heard),
        0 < n < states.len(),
    ensures
        states[n] is Failed <==> (heard[n - 1] matches Heard::Sent { outcome } && outcome is Err),
        states[n] matches Wake::Failed { error } ==> {
            let cause = heard[n - 1]->outcome->Err_0@;
            if states[n - 1] is Sending {
                chain(error) == seq!["sending CEC power-on"@, cause]
            } else {
                claim && chain(error) == seq!["claiming the TV's input as active source"@, cause]
            }
        },
{
    lemma_wake_step(states, claim, heard, n);
    lemma_woken(states, claim, heard, n - 1);
}

/// How far along a state is.
pub open spec fn wake_rank(state: Wake) -> int {
    match state {
        Wake::Settling => 0,
        Wake::Checking => 1,
        Wake::Sending => 2,
        Wake::Waiting => 3,
        Wake::Claiming { .. } => 4,
        Wake::Asking => 5,
        Wake::Done { .. } => 6,
        Wake::Failed { .. } => 6,
    }
}

/// Waking a television comes to an end: every answer takes it further, but for
/// those after which a status is asked again, and none of those comes once the
/// time for asking is up.
pub proof fn law_waking_comes_to_an_end(state: Wake, claim: bool, heard: Heard, next: Wake)
    requires
        answers(state, heard),
        wake_next(state, claim, heard, next),
    ensures
        wake_rank(state) < wake_rank(next) || {
            &&& state is Settling || state is Waiting
            &&& next == state
            &&& heard matches Heard::Status { time_up, .. } && !time_up
        },
{
}

/// What is to be done about a television that is to sleep.
#[derive(Debug)]
pub enum Sleep {
    /// It is asleep already.
    Done { message: String },
    /// It is to be told to go to standby.
    Sending,
}

/// Start putting a television into standby, by what it says of its power.
pub fn sleep(status: PowerStatus) -> (r: Sleep)
    ensures
        match r {
            Sleep::Done { message } => status.asleep() && message@ == "TV already in standby"@,
            Sleep::Sending => !status.asleep(),
        },
{
    if status == PowerStatus::Standby || status == PowerStatus::InTransitionOnToStandby {
        Sleep::Done { message: "TV already in standby".to_owned() }
    } else {
        Sleep::Sending
    }
}

/// What is said of a television that was told to go to standby.
pub fn sleep_sent(outcome: Result<(), String>) -> (r: Result<String, Error>)
    ensures
        match outcome {
            Ok(_) => r matches Ok(message) && message@ == "TV sent to standby"@,
            Err(cause) => r matches Err(e) && chain(e) == seq![
                "sending CEC standby"@,
                cause@,
            ],
        },
{
    match outcome {
        Ok(_) => Ok("TV sent to standby".to_owned()),
        Err(cause) => Err(
            Error::Context { doing: "sending CEC standby".to_owned(), cause },
        ),
    }
}

/// What is said where no adapter could be opened.
pub fn open_failed(cause: String) -> (r: Error)
    ensures
        chain(r) == seq![
            "no CEC adapter found (is the Pulse-Eight adapter plugged in?)"@,
            cause@,
        ],
{
    Error::Context {
        doing: "no CEC adapter found (is the Pulse-Eight adapter plugged in?)".to_owned(),
        cause,
    }
}

/// The line on what a command did about a display, or on its power.
pub fn display_line(name: &str, message: &str) -> (r: String)
    ensures
        r@ == name@ + ": "@ + message@,
{
    cat3(name, ": ", message)
}

/// A television is left alone exactly if it is in standby or on its way there; any other
/// is told to go to standby. The message says which it was.
pub proof fn law_only_a_television_that_is_up_is_put_to_sleep(status: PowerStatus, r: Sleep)
    requires
        call_ensures(sleep, (status,), r),
    ensures
        r is Sending <==> status != PowerStatus::Standby && status
            != PowerStatus::InTransitionOnToStandby,
        r matches Sleep::Done { message } ==> message@ == "TV already in standby"@,
{
}

/// A refused standby is reported with its cause, and only a refused one is.
pub proof fn law_a_refused_standby_is_reported(
    outcome: Result<(), String>,
    r: Result<String, Error>,
)
    requires
        call_ensures(sleep_sent, (outcome,), r),
    ensures
        r is Ok <==> outcome is Ok,
        r matches Ok(message) ==> message@ == "TV sent to standby"@,
        r matches Err(e) ==> (outcome matches Err(cause) && chain(e).len() == 2 && chain(e)[0]
            == "sending CEC standby"@ && chain(e)[1] == cause@),
{
}

/// Each status is called by its name; one that is not known by name shows the number
/// that was heard.
pub proof fn law_each_status_has_its_name(raw: i32)
    ensures
        PowerStatus::On.text() == "On"@,
        PowerStatus::Standby.text() == "Standby"@,
        PowerStatus::InTransitionStandbyToOn.text() == "InTransitionStandbyToOn"@,
        PowerStatus::InTransitionOnToStandby.text() == "InTransitionOnToStandby"@,
        PowerStatus::Unknown.text() == "Unknown"@,
        ({
            let text = (PowerStatus::Other { raw }).text();
            &&& text.len() > 7
            &&& text.take(6) == "Other("@
            &&& text.last() == ')'
            &&& signed_value(text.subrange(6, text.len() - 1)) == raw
        }),
{
    let number = signed_decimal(raw as int);
    let text = (PowerStatus::Other { raw }).text();
    law_signed_decimal_reads_back(raw as int);
    reveal_strlit("Other(");
    reveal_strlit(")");
    assert(text.take(6) =~= "Other("@);
    assert(text.subrange(6, text.len() - 1) =~= number);
}

/// A television has twelve seconds to settle and fifteen to come on, and is asked every
/// four tenths of a second. What is said of one that did not confirm says how long it had
/// and what it last said.
pub proof fn law_how_long_a_television_has(status: PowerStatus)
    ensures
        SETTLE_SECONDS == 12 && POWER_ON_SECONDS == 15 && POLL_MILLISECONDS == 400,
        unconfirmed_text(status) == "TV did not confirm power-on within "@ + decimal(15)
            + "s (status: "@ + status.text() + ")"@,
{
}

/// What is said of a television and what is done about it stand in each other's terms:
/// the laws on waking are about the steps that are taken.
pub proof fn law_waking_goes_by_its_steps(state: Wake, claim: bool, heard: Heard, r: Wake)
    ensures
        call_ensures(wake, (), r) ==> r == Wake::Settling,
        call_ensures(wake_step, (state, claim, heard), r) ==> wake_next(state, claim, heard, r),
{
}

} // verus!
