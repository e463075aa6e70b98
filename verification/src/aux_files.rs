//! Ingesting auxiliary files into a timeline: which timeline, how often the
//! configuration request is tried, and what the files are called.

use vstd::prelude::*;
use vstd::string::StringExecFns;
use crate::targets::TenantTimelineId;

verus! {

/// The delay before the second attempt, in milliseconds.
pub const FIRST_DELAY_MS: u64 = 200;

/// The longest delay between two attempts, in milliseconds.
pub const MAX_DELAY_MS: u64 = 5_000;

/// How many attempts are made before the failure is final.
pub const MAX_ATTEMPTS: u32 = 5;

/// How many batches of files are ingested.
pub const INGEST_BATCHES: u32 = 100;

/// How many files a batch holds.
pub const INGEST_ITEMS_PER_BATCH: u32 = 100;

/// How often the files are listed.
pub const LIST_ITERATIONS: u32 = 100;

/// Why the ingestion could not start.
#[derive(Clone, Copy, Debug, PartialEq, Eq, Structural)]
pub enum AuxFilesError {
    /// Targets were named, and not exactly one.
    NotExactlyOneTarget { given: usize },
}

/// The targets to ask for: those that the caller named, which must be
/// exactly one; none where the caller named none.
pub fn explicit_target(targets: &Option<Vec<TenantTimelineId>>) -> (chosen: Result<
    Option<TenantTimelineId>,
    AuxFilesError,
>)
    ensures
        chosen == (match *targets {
            None => Ok(None),
            Some(targets) => if targets@.len() == 1 {
                Ok(Some(targets@[0]))
            } else {
                Err(AuxFilesError::NotExactlyOneTarget { given: targets@.len() as usize })
            },
        }),
{
    match targets {
        None => Ok(None),
        Some(targets) => {
            if targets.len() != 1 {
                Err(AuxFilesError::NotExactlyOneTarget { given: targets.len() })
            } else {
                Ok(Some(targets[0]))
            }
        },
    }
}

/// Where the attempts at a request stand.
#[derive(Clone, Copy, Debug, PartialEq, Eq, Structural)]
pub struct RetryState {
    /// How many attempts have been made.
    pub attempt: u32,
    /// The delay before the next attempt, in milliseconds.
    pub delay_ms: u64,
}

/// What to do after an attempt.
#[derive(Clone, Copy, Debug, PartialEq, Eq, Structural)]
pub enum RetryAction {
    /// The request went through.
    Proceed,
    /// Wait for so many milliseconds and try again.
    SleepAndRetry { delay_ms: u64 },
    /// The failure is final.
    GiveUp,
}

/// Twice `delay_ms`, and no more than [`MAX_DELAY_MS`].
pub open spec fn next_delay(delay_ms: u64) -> u64 {
    if 2 * delay_ms <= MAX_DELAY_MS {
        (2 * delay_ms) as u64
    } else {
        MAX_DELAY_MS
    }
}

/// The delay after `failures` failed attempts: the first delay doubled so
/// many times, and no more than [`MAX_DELAY_MS`].
pub open spec fn delay_after(failures: nat) -> u64
    decreases failures,
{
    if failures == 0 {
        FIRST_DELAY_MS
    } else {
        next_delay(delay_after((failures - 1) as nat))
    }
}

impl RetryState {
    /// The state before the first attempt.
    pub fn new() -> (state: RetryState)
        ensures
            state == (RetryState { attempt: 0, delay_ms: FIRST_DELAY_MS }),
    {
        RetryState { attempt: 0, delay_ms: FIRST_DELAY_MS }
    }

    /// Whether the state is one that attempts lead to: fewer than
    /// [`MAX_ATTEMPTS`] have been made, and the delay is the one that
    /// follows so many failures.
    pub open spec fn wf(self) -> bool {
        self.attempt < MAX_ATTEMPTS && self.delay_ms == delay_after(self.attempt as nat)
    }

    /// The state and the action after an attempt that succeeded or not.
    pub open spec fn spec_after_attempt(self, succeeded: bool) -> (RetryState, RetryAction) {
        let attempt = (self.attempt + 1) as u32;
        if succeeded {
            (RetryState { attempt, delay_ms: self.delay_ms }, RetryAction::Proceed)
        } else if attempt < MAX_ATTEMPTS {
            (
                RetryState { attempt, delay_ms: next_delay(self.delay_ms) },
                RetryAction::SleepAndRetry { delay_ms: self.delay_ms },
            )
        } else {
            (RetryState { attempt, delay_ms: self.delay_ms }, RetryAction::GiveUp)
        }
    }

    /// Takes in how an attempt ended and tells what to do next.
    pub fn after_attempt(self, succeeded: bool) -> (next: (RetryState, RetryAction))
        requires
            self.attempt < u32::MAX,
        ensures
            next == self.spec_after_attempt(succeeded),
    {
        let attempt = self.attempt + 1;
        if succeeded {
            (RetryState { attempt, delay_ms: self.delay_ms }, RetryAction::Proceed)
        } else if attempt < MAX_ATTEMPTS {
            let doubled = match self.delay_ms.checked_mul(2) {
                Some(doubled) => doubled,
                None => u64::MAX,
            };
            let delay_ms = if doubled < MAX_DELAY_MS {
                doubled
            } else {
                MAX_DELAY_MS
            };
            (
                RetryState { attempt, delay_ms },
                RetryAction::SleepAndRetry { delay_ms: self.delay_ms },
            )
        } else {
            (RetryState { attempt, delay_ms: self.delay_ms }, RetryAction::GiveUp)
        }
    }
}

/// No delay is longer than [`MAX_DELAY_MS`].
pub proof fn lemma_delay_bounded(failures: nat)
    ensures
        FIRST_DELAY_MS <= delay_after(failures) <= MAX_DELAY_MS,
    decreases failures,
{
    if failures > 0 {
        lemma_delay_bounded((failures - 1) as nat);
    }
}

/// From the state before the first attempt on, a retry is asked for only
/// after fewer than [`MAX_ATTEMPTS`] attempts, with a delay of at most
/// [`MAX_DELAY_MS`] that doubles from one failure to the next, and the state
/// that follows is again one that attempts lead to.
pub proof fn lemma_retry_keeps_wf(state: RetryState, succeeded: bool)
    requires
        state.wf(),
    ensures
        state.spec_after_attempt(succeeded).1 matches RetryAction::SleepAndRetry { delay_ms }
            ==> {
            &&& !succeeded
            &&& delay_ms == delay_after(state.attempt as nat)
            &&& delay_ms <= MAX_DELAY_MS
            &&& state.spec_after_attempt(succeeded).0.wf()
        },
        state.spec_after_attempt(succeeded).1 is GiveUp ==> !succeeded && state.attempt + 1
            == MAX_ATTEMPTS,
        state.spec_after_attempt(succeeded).1 is Proceed <==> succeeded,
{
    lemma_delay_bounded(state.attempt as nat);
}

/// The decimal digit of `digit`, which is below ten.
pub open spec fn digit_char(digit: nat) -> char {
    if digit == 0 {
        '0'
    } else if digit == 1 {
        '1'
    } else if digit == 2 {
        '2'
    } else if digit == 3 {
        '3'
    } else if digit == 4 {
        '4'
    } else if digit == 5 {
        '5'
    } else if digit == 6 {
        '6'
    } else if digit == 7 {
        '7'
    } else if digit == 8 {
        '8'
    } else {
        '9'
    }
}

/// `value` in decimal, in at least `width` digits: a number with fewer
/// digits has zeros in front.
pub open spec fn padded_decimal(value: nat, width: nat) -> Seq<char>
    decreases value, width,
{
    if value < 10 && width <= 1 {
        seq![digit_char(value)]
    } else {
        padded_decimal(value / 10, if width > 0 {
            (width - 1) as nat
        } else {
            0
        }).push(digit_char(value % 10))
    }
}

/// The name of the file `id` of the batch `batch`.
pub open spec fn spec_aux_file_path(batch: u32, id: u32) -> Seq<char> {
    "pg_logical/mappings/"@ + padded_decimal(batch as nat, 3) + "."@ + padded_decimal(
        id as nat,
        3,
    )
}

/// What the file `id` holds.
pub open spec fn spec_aux_file_content(id: u32) -> Seq<char> {
    padded_decimal(id as nat, 8)
}

/// The text of one decimal digit.
fn digit_text(digit: u32) -> (text: &'static str)
    requires
        digit < 10,
    ensures
        text@ == seq![digit_char(digit as nat)],
{
    proof {
        reveal_strlit("0");
        reveal_strlit("1");
        reveal_strlit("2");
        reveal_strlit("3");
        reveal_strlit("4");
        reveal_strlit("5");
        reveal_strlit("6");
        reveal_strlit("7");
        reveal_strlit("8");
        reveal_strlit("9");
    }
    let text = if digit == 0 {
        "0"
    } else if digit == 1 {
        "1"
    } else if digit == 2 {
        "2"
    } else if digit == 3 {
        "3"
    } else if digit == 4 {
        "4"
    } else if digit == 5 {
        "5"
    } else if digit == 6 {
        "6"
    } else if digit == 7 {
        "7"
    } else if digit == 8 {
        "8"
    } else {
        "9"
    };
    assert(text@ =~= seq![digit_char(digit as nat)]);
    text
}

/// Appends `value` in decimal, in at least `width` digits, to `text`.
fn append_padded_decimal(text: &mut String, value: u32, width: u32)
    ensures
        final(text)@ == old(text)@ + padded_decimal(value as nat, width as nat),
    decreases value, width,
{
    if value < 10 && width <= 1 {
        text.append(digit_text(value));
    } else {
        let narrower = if width > 0 {
            width - 1
        } else {
            0
        };
        append_padded_decimal(text, value / 10, narrower);
        text.append(digit_text(value % 10));
        assert(text@ =~= old(text)@ + padded_decimal(value as nat, width as nat));
    }
}

/// The name of the file `id` of the batch `batch`.
pub fn aux_file_path(batch: u32, id: u32) -> (path: String)
    ensures
        path@ == spec_aux_file_path(batch, id),
{
    let mut path = "pg_logical/mappings/".to_owned();
    append_padded_decimal(&mut path, batch, 3);
    path.append(".");
    append_padded_decimal(&mut path, id, 3);
    path
}

/// What the file `id` holds.
pub fn aux_file_content(id: u32) -> (content: String)
    ensures
        content@ == spec_aux_file_content(id),
{
    let mut content = String::new();
    append_padded_decimal(&mut content, id, 8);
    assert(content@ =~= spec_aux_file_content(id));
    content
}

/// The files of the batch `batch`: their names and what they hold.
pub fn aux_file_batch(batch: u32) -> (items: Vec<(String, String)>)
    ensures
        items@.len() == INGEST_ITEMS_PER_BATCH,
        forall|id: int|
            0 <= id < INGEST_ITEMS_PER_BATCH ==> (#[trigger] items@[id]).0@ == spec_aux_file_path(
                batch,
                id as u32,
            ) && items@[id].1@ == spec_aux_file_content(id as u32),
{
    let mut items: Vec<(String, String)> = Vec::new();
    let mut id: u32 = 0;
    while id < INGEST_ITEMS_PER_BATCH
        invariant
            id <= INGEST_ITEMS_PER_BATCH,
            items@.len() == id,
            forall|k: int|
                0 <= k < id ==> (#[trigger] items@[k]).0@ == spec_aux_file_path(batch, k as u32)
                    && items@[k].1@ == spec_aux_file_content(k as u32),
        decreases INGEST_ITEMS_PER_BATCH - id,
    {
        items.push((aux_file_path(batch, id), aux_file_content(id)));
        id += 1;
    }
    items
}

} // verus!
