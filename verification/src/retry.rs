//! Bounded exponential backoff for loading and saving the history file.
//!
//! Several processes read and write one file without a lock. A failed read
//! or write is tried again after a growing pause, up to a fixed number of
//! attempts. This module decides; the caller performs the attempts and the
//! pauses and hands each outcome back.

use vstd::prelude::*;
use vstd::arithmetic::power2::{lemma_pow2_unfold, pow2};
use vstd::utf8::encode_utf8;
use crate::item::ItemView;
use crate::store::ClipboardStorage;

verus! {

/// The number of attempts after which an operation is given up.
pub const MAX_ATTEMPTS: u32 = 5;

/// The pause after the first failed attempt, in milliseconds.
pub const BASE_DELAY_MS: u64 = 50;

/// The pause after the given number of failed attempts, in milliseconds: the
/// base delay, doubled with every failure after the first.
pub open spec fn backoff_ms(failures: nat) -> nat {
    BASE_DELAY_MS as nat * pow2((failures - 1) as nat)
}

/// Whether `needle` stands in `hay` at offset `i`.
pub open spec fn occurs_at(hay: Seq<u8>, needle: Seq<u8>, i: int) -> bool {
    0 <= i && i + needle.len() <= hay.len() && hay.subrange(i, i + needle.len()) == needle
}

/// Whether `needle` stands somewhere in `hay`.
pub open spec fn occurs_in(hay: Seq<u8>, needle: Seq<u8>) -> bool {
    exists|i: int| occurs_at(hay, needle, i)
}

/// The words by which a failure to get hold of the shared file is known.
pub open spec fn contention_mark() -> Seq<char> {
    "Failed to acquire"@
}

/// Whether an error message tells of contention for the file: whether the
/// mark stands somewhere in it, both taken as UTF-8 bytes.
pub open spec fn mentions_contention(message: Seq<char>) -> bool {
    occurs_in(encode_utf8(message), encode_utf8(contention_mark()))
}

/// Whether `needle` stands in `hay` at offset `start`.
fn matches_at(hay: &[u8], needle: &[u8], start: usize) -> (b: bool)
    requires
        start + needle@.len() <= hay@.len(),
    ensures
        b == occurs_at(hay@, needle@, start as int),
{
    let n = hay.len();
    let m = needle.len();
    let mut j: usize = 0;
    while j < m
        invariant
            n == hay@.len(),
            m == needle@.len(),
            j <= m,
            start + m <= n,
            forall|k: int| 0 <= k < j ==> hay@[start + k] == needle@[k],
        decreases m - j,
    {
        if hay[start + j] != needle[j] {
            assert(hay@.subrange(start as int, start + m)[j as int] != needle@[j as int]);
            return false;
        }
        j += 1;
    }
    assert(hay@.subrange(start as int, start + m) =~= needle@);
    true
}

/// Whether `needle` stands somewhere in `hay`.
pub fn contains_bytes(hay: &[u8], needle: &[u8]) -> (found: bool)
    ensures
        found == occurs_in(hay@, needle@),
{
    if needle.len() > hay.len() {
        return false;
    }
    let last = hay.len() - needle.len();
    let mut i: usize = 0;
    loop
        invariant
            last == hay@.len() - needle@.len(),
            i <= last,
            forall|k: int| 0 <= k < i ==> !occurs_at(hay@, needle@, k),
        decreases last - i,
    {
        if matches_at(hay, needle, i) {
            return true;
        }
        if i == last {
            return false;
        }
        i += 1;
    }
}

/// Whether an error message tells of contention for the shared file.
pub fn is_contention(message: &str) -> (b: bool)
    ensures
        b == mentions_contention(message@),
{
    contains_bytes(message.as_bytes(), "Failed to acquire".as_bytes())
}

/// The pause after the given number of failed attempts, in milliseconds.
pub fn backoff_delay_ms(failures: u32) -> (delay_ms: u64)
    requires
        1 <= failures <= MAX_ATTEMPTS,
    ensures
        delay_ms == backoff_ms(failures as nat),
{
    let mut delay_ms: u64 = BASE_DELAY_MS;
    let mut n: u32 = 1;
    proof {
        vstd::arithmetic::power2::lemma2_to64();
    }
    while n < failures
        invariant
            1 <= n <= failures <= MAX_ATTEMPTS,
            delay_ms == backoff_ms(n as nat),
            delay_ms <= 50 * 16,
            pow2(0) == 1 && pow2(1) == 2 && pow2(2) == 4 && pow2(3) == 8 && pow2(4) == 16,
        decreases failures - n,
    {
        delay_ms = delay_ms * 2;
        n += 1;
    }
    delay_ms
}

/// A failed attempt, with what went wrong.
pub struct Failed<E> {
    /// The error as the operation gave it.
    pub error: E,
    /// The error in words.
    pub message: String,
}

/// What there is to say of a failed attempt.
pub struct Report {
    /// Which attempt failed, counting from one.
    pub attempt: u32,
    /// The error in words.
    pub message: String,
    /// Whether the failure is worth a line in the log. Contention for the
    /// file is not: it is expected while several processes share it.
    pub log_attempt: bool,
    /// Whether this was the last attempt.
    pub exhausted: bool,
}

/// What the caller does next.
pub enum Action<T> {
    /// The operation is over, with this result.
    Return(T),
    /// Pause for `delay_ms` milliseconds, then try again.
    Sleep { delay_ms: u64 },
}

/// The decision after one attempt.
pub struct Step<T> {
    /// Set when the attempt failed.
    pub report: Option<Report>,
    pub action: Action<T>,
}

/// The state of one retried operation: the number of attempts that failed.
pub struct Retry {
    pub failures: u32,
}

impl Retry {
    /// The state before the first attempt.
    pub fn new() -> (retry: Retry)
        ensures
            retry.failures == 0,
    {
        Retry { failures: 0 }
    }

    /// The number of failures once one more is counted. The count stops at
    /// the ceiling.
    pub open spec fn failures_after(self) -> u32 {
        if self.failures < MAX_ATTEMPTS {
            (self.failures + 1) as u32
        } else {
            self.failures
        }
    }

    /// Counts one more failure and says what there is to report of it and,
    /// unless it was the last attempt, how long to pause before the next.
    pub fn record_failure(&mut self, message: String) -> (outcome: (Report, Option<u64>))
        ensures
            final(self).failures == old(self).failures_after(),
            outcome.0.describes(message@, final(self).failures),
            outcome.1 == if final(self).failures >= MAX_ATTEMPTS {
                None
            } else {
                Some(backoff_ms(final(self).failures as nat) as u64)
            },
    {
        if self.failures < MAX_ATTEMPTS {
            self.failures += 1;
        }
        let exhausted = self.failures >= MAX_ATTEMPTS;
        let log_attempt = !is_contention(message.as_str());
        let pause = if exhausted {
            None
        } else {
            Some(backoff_delay_ms(self.failures))
        };
        (Report { attempt: self.failures, message, log_attempt, exhausted }, pause)
    }

    /// Decides what follows an attempt to load the history. A history that
    /// was read is returned. A failure is counted; after the last attempt the
    /// empty history is returned in place of the error.
    pub fn after_load<E>(&mut self, outcome: Result<ClipboardStorage, Failed<E>>) -> (step: Step<
        ClipboardStorage,
    >)
        ensures
            match outcome {
                Ok(storage) => {
                    &&& final(self).failures == old(self).failures
                    &&& step.report is None
                    &&& step.action == Action::Return(storage)
                },
                Err(failed) => {
                    &&& final(self).failures == old(self).failures_after()
                    &&& step.report is Some
                    &&& step.report->0.describes(failed.message@, final(self).failures)
                    &&& if final(self).failures >= MAX_ATTEMPTS {
                        step.action is Return && step.action->Return_0@ == Seq::<ItemView>::empty()
                    } else {
                        step.action == (Action::<ClipboardStorage>::Sleep {
                            delay_ms: backoff_ms(final(self).failures as nat) as u64,
                        })
                    }
                },
            },
    {
        match outcome {
            Ok(storage) => Step { report: None, action: Action::Return(storage) },
            Err(failed) => {
                let (report, pause) = self.record_failure(failed.message);
                let action = match pause {
                    Some(delay_ms) => Action::Sleep { delay_ms },
                    None => Action::Return(ClipboardStorage::new()),
                };
                Step { report: Some(report), action }
            },
        }
    }

    /// Decides what follows an attempt to save the history. A failure is
    /// counted; after the last attempt its error is returned to the caller.
    pub fn after_save<E>(&mut self, outcome: Result<(), Failed<E>>) -> (step: Step<Result<(), E>>)
        ensures
            match outcome {
                Ok(done) => {
                    &&& final(self).failures == old(self).failures
                    &&& step.report is None
                    &&& step.action == Action::<Result<(), E>>::Return(Ok(()))
                },
                Err(failed) => {
                    &&& final(self).failures == old(self).failures_after()
                    &&& step.report is Some
                    &&& step.report->0.describes(failed.message@, final(self).failures)
                    &&& step.action == if final(self).failures >= MAX_ATTEMPTS {
                        Action::<Result<(), E>>::Return(Err(failed.error))
                    } else {
                        Action::<Result<(), E>>::Sleep {
                            delay_ms: backoff_ms(final(self).failures as nat) as u64,
                        }
                    }
                },
            },
    {
        match outcome {
            Ok(done) => Step { report: None, action: Action::Return(Ok(())) },
            Err(failed) => {
                let (report, pause) = self.record_failure(failed.message);
                let action = match pause {
                    Some(delay_ms) => Action::Sleep { delay_ms },
                    None => Action::Return(Err(failed.error)),
                };
                Step { report: Some(report), action }
            },
        }
    }
}

/// The number of failures counted after `n` failed attempts in a row, from
/// the given count.
pub open spec fn failures_after_run(failures: u32, n: nat) -> u32
    decreases n,
{
    if n == 0 {
        failures
    } else {
        (Retry { failures: failures_after_run(failures, (n - 1) as nat) }).failures_after()
    }
}

/// The pauses between attempts: 50 ms after the first failure and twice the
/// last pause after each further one.
pub proof fn lemma_backoff_doubles(failures: nat)
    requires
        failures >= 1,
    ensures
        backoff_ms(1) == 50,
        backoff_ms(failures + 1) == 2 * backoff_ms(failures),
{
    vstd::arithmetic::power2::lemma2_to64();
    lemma_pow2_unfold(failures);
    assert(50 * (2 * pow2((failures - 1) as nat)) == 2 * (50 * pow2((failures - 1) as nat)))
        by (nonlinear_arith);
}

/// An operation that fails every time is tried five times and no more: the
/// first four failures are followed by pauses of 50, 100, 200 and 400 ms,
/// the fifth ends it.
pub proof fn lemma_gives_up_at_ceiling(n: nat)
    ensures
        failures_after_run(0, n) == if n < MAX_ATTEMPTS {
            n
        } else {
            MAX_ATTEMPTS as nat
        },
        failures_after_run(0, n) >= MAX_ATTEMPTS <==> n >= 5,
        backoff_ms(1) == 50 && backoff_ms(2) == 100 && backoff_ms(3) == 200 && backoff_ms(4)
            == 400,
    decreases n,
{
    vstd::arithmetic::power2::lemma2_to64();
    if n > 0 {
        lemma_gives_up_at_ceiling((n - 1) as nat);
    }
}

impl Report {
    /// Whether this is the report of a failure with the given message that
    /// brought the count of failures to `failures`.
    pub open spec fn describes(self, message: Seq<char>, failures: u32) -> bool {
        &&& self.attempt == failures
        &&& self.message@ == message
        &&& self.log_attempt == !mentions_contention(message)
        &&& self.exhausted == (failures >= MAX_ATTEMPTS)
    }
}

} // verus!
