//! What can go wrong while setting up, running and capturing a process.
use vstd::prelude::*;
use crate::text::{decimal, decimal_text, digit_char, push_char};

verus! {

/// Errors of preparing a sandbox and of running a process in it.
#[derive(Clone, Debug)]
pub enum CapturedWorkdirError {
    /// The process ran for longer than it was allowed to.
    Timeout { timeout_ms: u64, description: String },
    /// A failure that may pass if the run is tried again.
    Retryable(String),
    /// Any other failure.
    Fatal(String),
}

/// `ms` milliseconds in seconds, to the nearest tenth (halves round up),
/// written with one decimal.
pub open spec fn seconds_text(ms: nat) -> Seq<char> {
    let tenths = (ms + 50) / 100;
    decimal(tenths / 10) + seq!['.', digit_char(tenths % 10)]
}

/// Text of a seconds count.
fn seconds_of(ms: u64) -> (r: String)
    ensures
        r@ == seconds_text(ms as nat),
{
    let tenths: u64 = ms / 100 + if ms % 100 >= 50 { 1u64 } else { 0u64 };
    assert(tenths == (ms + 50) / 100);
    let digits = ['0', '1', '2', '3', '4', '5', '6', '7', '8', '9'];
    assert(digits@ == seq!['0', '1', '2', '3', '4', '5', '6', '7', '8', '9']);
    let mut r = decimal_text(tenths / 10);
    push_char(&mut r, '.');
    push_char(&mut r, digits[(tenths % 10) as usize]);
    assert(r@ =~= seconds_text(ms as nat));
    r
}

pub open spec fn timeout_prefix() -> Seq<char> {
    "Exceeded timeout of "@
}

pub open spec fn timeout_middle() -> Seq<char> {
    " seconds when executing local process: "@
}

pub open spec fn retryable_suffix() -> Seq<char> {
    " (retryable error)"@
}

impl CapturedWorkdirError {
    /// The human-readable text of an error.
    pub open spec fn spec_message(&self) -> Seq<char> {
        match self {
            CapturedWorkdirError::Timeout { timeout_ms, description } =>
                timeout_prefix() + seconds_text(*timeout_ms as nat) + timeout_middle() + description@,
            CapturedWorkdirError::Retryable(m) => m@ + retryable_suffix(),
            CapturedWorkdirError::Fatal(m) => m@,
        }
    }

    /// The human-readable text of this error.
    pub fn message(&self) -> (r: String)
        ensures
            r@ == self.spec_message(),
    {
        match self {
            CapturedWorkdirError::Timeout { timeout_ms, description } => {
                proof {
                    reveal_strlit("Exceeded timeout of ");
                    reveal_strlit(" seconds when executing local process: ");
                }
                let mut r = String::from_str("Exceeded timeout of ");
                let secs = seconds_of(*timeout_ms);
                r.append(secs.as_str());
                r.append(" seconds when executing local process: ");
                r.append(description.as_str());
                r
            },
            CapturedWorkdirError::Retryable(m) => {
                proof { reveal_strlit(" (retryable error)"); }
                let mut r = m.clone();
                r.append(" (retryable error)");
                r
            },
            CapturedWorkdirError::Fatal(m) => m.clone(),
        }
    }
}

impl From<String> for CapturedWorkdirError {
    fn from(value: String) -> (r: Self) {
        CapturedWorkdirError::Fatal(value)
    }
}

impl vstd::std_specs::convert::FromSpecImpl<String> for CapturedWorkdirError {
    open spec fn obeys_from_spec() -> bool {
        true
    }

    open spec fn from_spec(v: String) -> Self {
        CapturedWorkdirError::Fatal(v)
    }
}

} // verus!
