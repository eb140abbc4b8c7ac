//! Receive errors and how they are classified.
use std::io;
use vstd::prelude::*;

verus! {

/// Declares `std::io::ErrorKind`, with the variants that std defines.
#[verifier::external_type_specification]
pub struct ExErrorKind(std::io::ErrorKind);

/// Declares `std::io::Error`, which is carried through unread.
#[verifier::external_type_specification]
#[verifier::external_body]
pub struct ExError(std::io::Error);

/// The kind that `std::io::Error::kind` reports for `error`. An error keeps the kind it was made
/// with.
pub uninterp spec fn kind_of(error: std::io::Error) -> std::io::ErrorKind;

/// The error that `std::io::Error::new` makes of a kind and a text.
pub uninterp spec fn error_from(kind: std::io::ErrorKind, text: Seq<char>) -> std::io::Error;

/// Calls `std::io::Error::kind`: the result is the kind of the error.
#[verifier::external_body]
pub(crate) fn error_kind(error: &io::Error) -> (kind: io::ErrorKind)
    ensures
        kind == kind_of(*error),
{
    error.kind()
}

/// Calls `std::io::Error::new` with a text as the payload: the result depends on the kind and the
/// text alone, and `kind` is the kind it has. What the error displays is left unsaid.
#[verifier::external_body]
pub(crate) fn new_error(kind: io::ErrorKind, text: &str) -> (error: io::Error)
    ensures
        error == error_from(kind, text@),
        kind_of(error) == kind,
{
    io::Error::new(kind, text)
}

/// What a receive error calls for.
#[derive(Clone, Copy, Debug, PartialEq, Eq)]
pub enum FailureClass {
    /// The call was interrupted: try again at once.
    Interrupted,
    /// The error may go away: try again after a while.
    Recoverable,
    /// The socket is of no more use: stop.
    Terminal,
}

/// The kinds of error after which receiving is tried again with a delay.
pub open spec fn recoverable(kind: io::ErrorKind) -> bool {
    ||| kind is ConnectionAborted
    ||| kind is ConnectionRefused
    ||| kind is ConnectionReset
    ||| kind is HostUnreachable
    ||| kind is NetworkDown
    ||| kind is NetworkUnreachable
    ||| kind is TimedOut
    ||| kind is WouldBlock
}

/// The class of a receive error of this kind.
pub open spec fn class_of(kind: io::ErrorKind) -> FailureClass {
    if kind is Interrupted {
        FailureClass::Interrupted
    } else if recoverable(kind) {
        FailureClass::Recoverable
    } else {
        FailureClass::Terminal
    }
}

/// Whether receiving is tried again, with a delay, after an error of this kind.
pub fn is_recoverable_receive_error(kind: io::ErrorKind) -> (result: bool)
    ensures
        result == recoverable(kind),
        result == (match kind {
            io::ErrorKind::ConnectionAborted
            | io::ErrorKind::ConnectionRefused
            | io::ErrorKind::ConnectionReset
            | io::ErrorKind::HostUnreachable
            | io::ErrorKind::NetworkDown
            | io::ErrorKind::NetworkUnreachable
            | io::ErrorKind::TimedOut
            | io::ErrorKind::WouldBlock => true,
            _ => false,
        }),
{
    matches!(
        kind,
        io::ErrorKind::ConnectionAborted
            | io::ErrorKind::ConnectionRefused
            | io::ErrorKind::ConnectionReset
            | io::ErrorKind::HostUnreachable
            | io::ErrorKind::NetworkDown
            | io::ErrorKind::NetworkUnreachable
            | io::ErrorKind::TimedOut
            | io::ErrorKind::WouldBlock
    )
}

/// The class of a receive error of this kind.
pub fn classify(kind: io::ErrorKind) -> (class: FailureClass)
    ensures
        class == class_of(kind),
        match kind {
            io::ErrorKind::Interrupted => class is Interrupted,
            io::ErrorKind::ConnectionAborted
            | io::ErrorKind::ConnectionRefused
            | io::ErrorKind::ConnectionReset
            | io::ErrorKind::HostUnreachable
            | io::ErrorKind::NetworkDown
            | io::ErrorKind::NetworkUnreachable
            | io::ErrorKind::TimedOut
            | io::ErrorKind::WouldBlock => class is Recoverable,
            _ => class is Terminal,
        },
{
    if matches!(kind, io::ErrorKind::Interrupted) {
        FailureClass::Interrupted
    } else if is_recoverable_receive_error(kind) {
        FailureClass::Recoverable
    } else {
        FailureClass::Terminal
    }
}

/// An error of one of eight kinds may go away, an interruption is one of its own, and every other
/// error is terminal; each of these both ways.
pub proof fn law_each_kind_has_its_class(kind: io::ErrorKind)
    ensures
        recoverable(kind) <==> {
            ||| kind is ConnectionAborted
            ||| kind is ConnectionRefused
            ||| kind is ConnectionReset
            ||| kind is HostUnreachable
            ||| kind is NetworkDown
            ||| kind is NetworkUnreachable
            ||| kind is TimedOut
            ||| kind is WouldBlock
        },
        class_of(kind) is Interrupted <==> kind is Interrupted,
        class_of(kind) is Recoverable <==> {
            ||| kind is ConnectionAborted
            ||| kind is ConnectionRefused
            ||| kind is ConnectionReset
            ||| kind is HostUnreachable
            ||| kind is NetworkDown
            ||| kind is NetworkUnreachable
            ||| kind is TimedOut
            ||| kind is WouldBlock
        },
        class_of(kind) is Terminal <==> {
            &&& !(kind is Interrupted)
            &&& !(kind is ConnectionAborted)
            &&& !(kind is ConnectionRefused)
            &&& !(kind is ConnectionReset)
            &&& !(kind is HostUnreachable)
            &&& !(kind is NetworkDown)
            &&& !(kind is NetworkUnreachable)
            &&& !(kind is TimedOut)
            &&& !(kind is WouldBlock)
        },
{
}

} // verus!
