//! What can go wrong between here and the accessibility bus.
use vstd::prelude::*;
use vstd::string::*;

use crate::free::Nanos;
use crate::text;

verus! {

/// How long a request to the detection thread may go unanswered.
///
/// Not a latency budget: the line between "slow" and "never". Crossing it
/// produces a sentence rather than a frozen desktop.
pub const REPLY_DEADLINE: Nanos = 5_000_000_000;

#[derive(Debug)]
pub enum Error {
    /// The accessibility bus said no, or said nothing intelligible.
    Bus(String),
    /// A single call exceeded its budget: an application that stopped
    /// answering, not a protocol error.
    Timeout(&'static str),
    /// The detection thread is gone.
    Disconnected,
    /// The detection thread is *alive* and did not answer inside
    /// [`REPLY_DEADLINE`]. A thread that has died ends the wait by itself; a
    /// thread stuck awaiting a reply that will never come does not.
    Stalled(&'static str),
}

/// An [`Error`], its texts as their characters.
pub enum ErrorView {
    Bus(Seq<char>),
    Timeout(Seq<char>),
    Disconnected,
    Stalled(Seq<char>),
}

impl View for Error {
    type V = ErrorView;

    open spec fn view(&self) -> ErrorView {
        match self {
            Error::Bus(m) => ErrorView::Bus(m@),
            Error::Timeout(what) => ErrorView::Timeout(what@),
            Error::Disconnected => ErrorView::Disconnected,
            Error::Stalled(what) => ErrorView::Stalled(what@),
        }
    }
}

impl Clone for Error {
    fn clone(&self) -> (e: Self)
        ensures
            e@ == self@,
    {
        match self {
            Error::Bus(m) => Error::Bus(m.clone()),
            Error::Timeout(what) => Error::Timeout(what),
            Error::Disconnected => Error::Disconnected,
            Error::Stalled(what) => Error::Stalled(what),
        }
    }
}

impl ErrorView {
    /// What the error says.
    pub open spec fn message(self) -> Seq<char> {
        match self {
            ErrorView::Bus(m) => "at-spi: "@ + m,
            ErrorView::Timeout(what) => "at-spi: '"@ + what
                + "' timed out; the application is not answering"@,
            ErrorView::Disconnected => "at-spi: detection thread is gone"@,
            ErrorView::Stalled(what) => "at-spi: '"@ + what + "' did not answer in "@ + text::decimal(
                (REPLY_DEADLINE / 1_000_000_000) as nat,
            )
                + "s — the accessibility bus or the application behind it has stopped responding. muvor is not stuck; it gave up on purpose (§4.2-ii)"@,
        }
    }
}

impl Error {
    /// What the error says.
    pub fn describe(&self) -> (s: String)
        ensures
            s@ == self@.message(),
    {
        match self {
            Error::Bus(m) => {
                let mut s: String = "at-spi: ".to_owned();
                s.append(m.as_str());
                s
            },
            Error::Timeout(what) => {
                let mut s: String = "at-spi: '".to_owned();
                s.append(what);
                s.append("' timed out; the application is not answering");
                s
            },
            Error::Disconnected => "at-spi: detection thread is gone".to_owned(),
            Error::Stalled(what) => {
                let mut s: String = "at-spi: '".to_owned();
                s.append(what);
                s.append("' did not answer in ");
                text::push_decimal(&mut s, REPLY_DEADLINE / 1_000_000_000);
                s.append(
                    "s — the accessibility bus or the application behind it has stopped responding. muvor is not stuck; it gave up on purpose (§4.2-ii)",
                );
                s
            },
        }
    }
}

} // verus!
