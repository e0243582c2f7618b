//! Diagnostics of contained panics.

use crate::logger::{Level, LogDispatch, Logger, LoggerService, LoggerView};
use crate::text::{join2, join4, join5};
use std::time::SystemTime;
use vstd::prelude::*;

verus! {

/// The text of a panic payload: a text payload as it is, a fixed marker for
/// anything else.
pub fn payload_text(text: Option<String>) -> (r: String)
    ensures
        r@ == rendered(text),
{
    match text {
        Some(text) => text,
        None => "non-string panic payload".to_owned(),
    }
}

/// The report of a contained panic.
pub fn panic_report(what: &str, payload: &str) -> (r: String)
    ensures
        r@ == panic_line(what@, payload@),
{
    join4("cordis: ", what, " panicked: ", payload)
}

/// The report of a framework task that panicked; the panic itself goes on.
pub fn framework_panic_report(operation: &str, context: &str, payload: &str) -> (r: String)
    ensures
        r@ == "cordis: framework task "@ + operation@ + " panicked ("@ + context@ + "): "@
            + payload@,
{
    let head = join5("cordis: framework task ", operation, " panicked (", context, "): ");
    join2(head.as_str(), payload)
}

/// The report of a superseded input whose destructor panicked after its caller
/// was gone; `fiber` is the quoted name.
pub fn input_drop_report(fiber: &str, payload: &str) -> (r: String)
    ensures
        r@ == "cordis: era input Drop panicked after caller cancellation (fiber="@ + fiber@ + "): "@
            + payload@,
{
    join4(
        "cordis: era input Drop panicked after caller cancellation (fiber=",
        fiber,
        "): ",
        payload,
    )
}

/// Where a diagnostic line went.
pub enum Report {
    /// To the Runtime's exporters, as a record.
    Logged(LogDispatch),
    /// To the host's error stream.
    Stderr(String),
}

/// Whether `r` is how a line is routed: through the logger as a warning where the
/// site has one, to the error stream otherwise.
pub open spec fn routed(
    r: Report,
    service: LoggerView,
    logger: Option<Seq<char>>,
    text: Seq<char>,
    timestamp: SystemTime,
    reentrant: bool,
) -> bool {
    match logger {
        Some(channel) => r matches Report::Logged(dispatch) && service.logged(
            dispatch,
            channel,
            Level::Warn,
            text,
            timestamp,
            reentrant,
        ),
        None => r matches Report::Stderr(line) && line@ == text,
    }
}

/// The logging state after a routed line: a logger assigned one record.
pub open spec fn after_report(service: LoggerView, logger: Option<Seq<char>>) -> LoggerView {
    match logger {
        Some(_) => LoggerView { sequence: (service.sequence + 1) as u64, ..service },
        None => service,
    }
}

/// The channel of an optional logger.
pub open spec fn channel_of(logger: Option<&Logger>) -> Option<Seq<char>> {
    match logger {
        Some(l) => Some(l@),
        None => None,
    }
}

/// Routes a diagnostic line: through the logger as a warning where the site has
/// one, to the error stream otherwise.
pub fn report_text(
    logger: Option<&Logger>,
    service: &mut LoggerService,
    text: String,
    timestamp: SystemTime,
    reentrant: bool,
) -> (r: Report)
    requires
        old(service)@.sequence < u64::MAX,
    ensures
        final(service)@ == after_report(old(service)@, channel_of(logger)),
        routed(r, old(service)@, channel_of(logger), text@, timestamp, reentrant),
{
    match logger {
        Some(logger) => Report::Logged(logger.warn(service, text, timestamp, reentrant)),
        None => Report::Stderr(text),
    }
}

/// How a contained callback ended.
pub enum CallbackEnd {
    /// It returned.
    Returned,
    /// It panicked; the payload's text where it is one.
    Panicked(Option<String>),
}

/// The rendered payload.
pub open spec fn rendered(text: Option<String>) -> Seq<char> {
    match text {
        Some(t) => t@,
        None => "non-string panic payload"@,
    }
}

/// The report of a contained panic.
pub open spec fn panic_line(what: Seq<char>, payload: Seq<char>) -> Seq<char> {
    "cordis: "@ + what + " panicked: "@ + payload
}

/// Contains one user callback: a panic is reported once and goes no further; a
/// callback that returned leaves no trace.
pub fn contain(
    what: &str,
    logger: Option<&Logger>,
    service: &mut LoggerService,
    end: CallbackEnd,
    timestamp: SystemTime,
    reentrant: bool,
) -> (r: Option<Report>)
    requires
        old(service)@.sequence < u64::MAX,
    ensures
        match end {
            CallbackEnd::Returned => r is None && final(service)@ == old(service)@,
            CallbackEnd::Panicked(payload) => final(service)@ == after_report(
                old(service)@,
                channel_of(logger),
            ) && (r matches Some(report) && routed(
                report,
                old(service)@,
                channel_of(logger),
                panic_line(what@, rendered(payload)),
                timestamp,
                reentrant,
            )),
        },
{
    match end {
        CallbackEnd::Returned => None,
        CallbackEnd::Panicked(payload) => {
            let text = payload_text(payload);
            let line = panic_report(what, text.as_str());
            Some(report_text(logger, service, line, timestamp, reentrant))
        },
    }
}

/// How a task joined at a drain ended.
pub enum JoinEnd {
    /// It returned.
    Returned,
    /// It panicked; the payload's text where it is one.
    Panicked(Option<String>),
    /// It was cancelled.
    Cancelled,
}

/// Contains a task joined at a drain: only a panic is reported.
pub fn contain_join(
    what: &str,
    logger: Option<&Logger>,
    service: &mut LoggerService,
    end: JoinEnd,
    timestamp: SystemTime,
    reentrant: bool,
) -> (r: Option<Report>)
    requires
        old(service)@.sequence < u64::MAX,
    ensures
        match end {
            JoinEnd::Panicked(payload) => final(service)@ == after_report(
                old(service)@,
                channel_of(logger),
            ) && (r matches Some(report) && routed(
                report,
                old(service)@,
                channel_of(logger),
                panic_line(what@, rendered(payload)),
                timestamp,
                reentrant,
            )),
            _ => r is None && final(service)@ == old(service)@,
        },
{
    match end {
        JoinEnd::Panicked(payload) => contain(
            what,
            logger,
            service,
            CallbackEnd::Panicked(payload),
            timestamp,
            reentrant,
        ),
        _ => None,
    }
}

/// Reports a framework task that panicked as an error of the Runtime; the panic
/// itself goes on.
pub fn report_panic(
    logger: &Logger,
    service: &mut LoggerService,
    operation: &str,
    context: &str,
    payload: Option<String>,
    timestamp: SystemTime,
    reentrant: bool,
) -> (r: LogDispatch)
    requires
        old(service)@.sequence < u64::MAX,
    ensures
        final(service)@ == after_report(old(service)@, Some(logger@)),
        old(service)@.logged(
            r,
            logger@,
            Level::Error,
            "cordis: framework task "@ + operation@ + " panicked ("@ + context@ + "): "@ + rendered(
                payload,
            ),
            timestamp,
            reentrant,
        ),
{
    let text = payload_text(payload);
    let line = framework_panic_report(operation, context, text.as_str());
    logger.error(service, line, timestamp, reentrant)
}

} // verus!
