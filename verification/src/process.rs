//! Keeping the programs that are run within their bounds of time and output.

use vstd::prelude::*;

use crate::text;

verus! {

/// How many bytes of a stream are read before it is known to pass `limit`.
pub fn read_budget(limit: usize) -> (result: u64)
    ensures
        result == if limit < usize::MAX {
            limit + 1
        } else {
            usize::MAX as int
        },
{
    if limit < usize::MAX {
        limit as u64 + 1
    } else {
        usize::MAX as u64
    }
}

/// Refuses what was read of a stream where it passes `limit` bytes.
pub fn read_limited(output: Vec<u8>, limit: usize) -> (result: Result<Vec<u8>, String>)
    ensures
        match result {
            Ok(kept) => output@.len() <= limit && kept == output,
            Err(message) => output@.len() > limit && message@ == "saida excedeu o limite de "@
                + text::decimal_text(limit as nat) + " bytes"@,
        },
{
    if output.len() > limit {
        let mut message = "saida excedeu o limite de ".to_owned();
        message.push_str(text::decimal(limit as u64).as_str());
        message.push_str(" bytes");
        return Err(message);
    }
    Ok(output)
}

/// The complaint about a program that ran for too long.
pub open spec fn overtime(seconds: u64) -> Seq<char> {
    "subprocesso excedeu o limite de "@ + text::decimal_text(seconds as nat) + "s"@
}

fn overtime_text(seconds: u64) -> (result: String)
    ensures
        result@ == overtime(seconds),
{
    let mut message = "subprocesso excedeu o limite de ".to_owned();
    message.push_str(text::decimal(seconds).as_str());
    message.push_str("s");
    message
}

/// What is known of a running program when it is asked after.
#[derive(PartialEq, Eq, Debug)]
pub enum Poll {
    Running,
    Exited { success: bool },
    /// It could not be asked after, for this cause.
    Fault(String),
}

/// What to do next with a running program.
#[derive(PartialEq, Eq, Debug)]
pub enum Watch {
    /// Wait a little and ask again.
    Wait,
    /// It has ended, and its result counts.
    Finish,
    /// Stop the program and everything that it started, and give up with this message.
    Abort(String),
    /// It has ended badly.
    Fail,
}

/// What is to be done with a program whose output is captured.
pub open spec fn captured_step(poll: Poll, expired: bool, timeout: u64, step: Watch) -> bool {
    match poll {
        Poll::Exited { .. } => step is Finish,
        Poll::Fault(cause) => step matches Watch::Abort(message) && message@ == text::caused(
            "falha ao consultar subprocesso"@,
            cause@,
        ),
        Poll::Running => if expired {
            step matches Watch::Abort(message) && message@ == overtime(timeout)
        } else {
            step is Wait
        },
    }
}

/// Decides what is to be done with a program whose output is captured; `expired` says whether its
/// `timeout` seconds are over.
pub fn watch_captured(poll: &Poll, expired: bool, timeout: u64) -> (result: Watch)
    ensures
        captured_step(*poll, expired, timeout, result),
{
    match poll {
        Poll::Exited { .. } => Watch::Finish,
        Poll::Fault(cause) => Watch::Abort(
            text::caused_text("falha ao consultar subprocesso", cause.as_str()),
        ),
        Poll::Running => {
            if expired {
                Watch::Abort(overtime_text(timeout))
            } else {
                Watch::Wait
            }
        },
    }
}

/// What is to be done with a program that can be cancelled.
pub open spec fn cancellable_step(
    stopped: bool,
    expired: bool,
    poll: Poll,
    timeout: u64,
    step: Watch,
) -> bool {
    if stopped {
        step matches Watch::Abort(message) && message@ == "operacao cancelada"@
    } else if expired {
        step matches Watch::Abort(message) && message@ == overtime(timeout)
    } else {
        match poll {
            Poll::Exited { success } => if success {
                step is Finish
            } else {
                step is Fail
            },
            Poll::Fault(cause) => step matches Watch::Abort(message) && message@ == text::caused(
                "falha ao consultar subprocesso"@,
                cause@,
            ),
            Poll::Running => step is Wait,
        }
    }
}

/// Decides what is to be done with a program that can be cancelled: a request to stop comes
/// first, then its time, then how it ended.
pub fn watch_cancellable(stopped: bool, expired: bool, poll: &Poll, timeout: u64) -> (result:
    Watch)
    ensures
        cancellable_step(stopped, expired, *poll, timeout, result),
{
    if stopped {
        return Watch::Abort("operacao cancelada".to_owned());
    }
    if expired {
        return Watch::Abort(overtime_text(timeout));
    }
    match poll {
        Poll::Exited { success } => {
            if *success {
                Watch::Finish
            } else {
                Watch::Fail
            }
        },
        Poll::Fault(cause) => Watch::Abort(
            text::caused_text("falha ao consultar subprocesso", cause.as_str()),
        ),
        Poll::Running => Watch::Wait,
    }
}

/// A program that ended badly is never taken for one that ended well, and one that was asked to
/// stop or is over its time never goes on.
pub proof fn lemma_watch_bounded(
    stopped: bool,
    expired: bool,
    poll: Poll,
    timeout: u64,
    step: Watch,
)
    requires
        cancellable_step(stopped, expired, poll, timeout, step),
    ensures
        step is Finish ==> !stopped && !expired && poll == (Poll::Exited { success: true }),
        stopped || expired ==> step is Abort,
        step is Wait ==> !stopped && !expired && poll is Running,
{
}

/// A program that has ended is finished with, whether or not its time was over; one that runs is
/// waited for until its time is over, and stopped after that with the time told.
pub proof fn lemma_captured(
    cause: String,
    success: bool,
    expired: bool,
    timeout: u64,
    step: Watch,
)
    ensures
        captured_step(Poll::Exited { success }, expired, timeout, step) ==> step is Finish,
        captured_step(Poll::Running, false, timeout, step) ==> step is Wait,
        captured_step(Poll::Running, true, timeout, step) ==> step is Abort && text::occurs_in(
            step->Abort_0@,
            text::decimal_text(timeout as nat),
        ),
        captured_step(Poll::Fault(cause), expired, timeout, step) ==> step is Abort
            && text::ends_with(step->Abort_0@, cause@),
{
    text::lemma_caused_holds_both("falha ao consultar subprocesso"@, cause@);
    text::lemma_occurs_between(
        "subprocesso excedeu o limite de "@,
        text::decimal_text(timeout as nat),
        "s"@,
    );
}

/// A program that can be cancelled is stopped as soon as that is wanted, whatever else is known of
/// it; otherwise it is stopped when its time is over, and its success or failure counts before that.
pub proof fn lemma_cancellable(
    poll: Poll,
    cause: String,
    success: bool,
    expired: bool,
    timeout: u64,
    step: Watch,
)
    ensures
        cancellable_step(true, expired, poll, timeout, step) ==> step is Abort && step->Abort_0@
            == "operacao cancelada"@,
        cancellable_step(false, true, poll, timeout, step) ==> step is Abort && text::occurs_in(
            step->Abort_0@,
            text::decimal_text(timeout as nat),
        ),
        cancellable_step(false, false, Poll::Running, timeout, step) ==> step is Wait,
        cancellable_step(false, false, Poll::Exited { success }, timeout, step) ==> (step is Finish
            <==> success) && (step is Fail <==> !success),
        cancellable_step(false, false, Poll::Fault(cause), timeout, step) ==> step is Abort
            && text::ends_with(step->Abort_0@, cause@),
{
    text::lemma_caused_holds_both("falha ao consultar subprocesso"@, cause@);
    text::lemma_occurs_between(
        "subprocesso excedeu o limite de "@,
        text::decimal_text(timeout as nat),
        "s"@,
    );
}

} // verus!
