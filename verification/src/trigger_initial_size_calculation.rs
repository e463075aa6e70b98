//! Asking a server to compute the logical size of timelines: the settings
//! of a run, and when a timeline is asked about again.

use vstd::prelude::*;

verus! {

/// The seconds after which a request is given up, where nothing else is
/// set.
pub const DEFAULT_TIMEOUT_SECS: u64 = 10;

/// The most requests in flight, where nothing else is set.
pub const DEFAULT_MAX_CONCURRENCY: usize = 32;

/// The number that `str::parse::<u64>` reads in `text`, if it reads one.
pub uninterp spec fn parsed_u64(text: Seq<char>) -> Option<u64>;

/// The number that `str::parse::<usize>` reads in `text`, if it reads one.
pub uninterp spec fn parsed_usize(text: Seq<char>) -> Option<usize>;

/// Calls `str::parse::<u64>`.
#[verifier::external_body]
fn parse_u64(text: &str) -> (number: Option<u64>)
    ensures
        number == parsed_u64(text@),
{
    text.parse::<u64>().ok()
}

/// Calls `str::parse::<usize>`.
#[verifier::external_body]
fn parse_usize(text: &str) -> (number: Option<usize>)
    ensures
        number == parsed_usize(text@),
{
    text.parse::<usize>().ok()
}

/// The seconds after which a request is given up: the number in `setting`,
/// or [`DEFAULT_TIMEOUT_SECS`] where nothing is set or what is set is no
/// number.
pub fn timeout_secs(setting: Option<&str>) -> (secs: u64)
    ensures
        secs == (match setting {
            Some(text) => match parsed_u64(text@) {
                Some(number) => number,
                None => DEFAULT_TIMEOUT_SECS,
            },
            None => DEFAULT_TIMEOUT_SECS,
        }),
{
    match setting {
        Some(text) => match parse_u64(text) {
            Some(number) => number,
            None => DEFAULT_TIMEOUT_SECS,
        },
        None => DEFAULT_TIMEOUT_SECS,
    }
}

/// The most requests in flight: the number in `setting`, or
/// [`DEFAULT_MAX_CONCURRENCY`] where nothing is set or what is set is no
/// number.
pub fn max_concurrency(setting: Option<&str>) -> (limit: usize)
    ensures
        limit == (match setting {
            Some(text) => match parsed_usize(text@) {
                Some(number) => number,
                None => DEFAULT_MAX_CONCURRENCY,
            },
            None => DEFAULT_MAX_CONCURRENCY,
        }),
{
    match setting {
        Some(text) => match parse_usize(text) {
            Some(number) => number,
            None => DEFAULT_MAX_CONCURRENCY,
        },
        None => DEFAULT_MAX_CONCURRENCY,
    }
}

/// What a server answered about a timeline.
#[derive(Clone, Copy, Debug, PartialEq, Eq, Structural)]
pub enum InfoAnswer {
    /// The request failed.
    Failed,
    /// The timeline's information, and whether its logical size is exact.
    Info { current_logical_size_is_accurate: bool },
}

/// What to do about a timeline after an answer.
#[derive(Clone, Copy, Debug, PartialEq, Eq, Structural)]
pub enum PollAction {
    /// Nothing more.
    Finish,
    /// Wait for the next tick and ask again.
    WaitAndAskAgain,
}

/// Tells what to do after `answer`: a timeline is asked about again only
/// where polling was asked for and its size is not exact yet; a failed
/// request ends the matter.
pub fn after_answer(poll_for_completion: bool, answer: InfoAnswer) -> (action: PollAction)
    ensures
        action == (match answer {
            InfoAnswer::Failed => PollAction::Finish,
            InfoAnswer::Info { current_logical_size_is_accurate } => if poll_for_completion
                && !current_logical_size_is_accurate {
                PollAction::WaitAndAskAgain
            } else {
                PollAction::Finish
            },
        }),
{
    match answer {
        InfoAnswer::Failed => PollAction::Finish,
        InfoAnswer::Info { current_logical_size_is_accurate } => {
            if poll_for_completion && !current_logical_size_is_accurate {
                PollAction::WaitAndAskAgain
            } else {
                PollAction::Finish
            }
        },
    }
}

} // verus!
