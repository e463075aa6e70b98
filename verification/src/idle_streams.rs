//! Opening a large number of idle streams: how many, and on which
//! connections.

use vstd::prelude::*;

verus! {

/// The most streams that are opened.
pub const MAX_STREAMS: usize = 1_000_000;

/// After how many streams progress is reported.
pub const PROGRESS_EVERY: usize = 1_000;

/// Why no streams are opened.
#[derive(Clone, Copy, Debug, PartialEq, Eq, Structural)]
pub enum StreamsError {
    /// More streams were asked for than [`MAX_STREAMS`].
    TooManyStreams { count: usize, max_streams: usize },
}

/// Accepts a number of streams up to [`MAX_STREAMS`].
pub fn check_stream_count(count: usize) -> (checked: Result<(), StreamsError>)
    ensures
        checked == (if count > MAX_STREAMS {
            Err(StreamsError::TooManyStreams { count, max_streams: MAX_STREAMS })
        } else {
            Ok(())
        }),
{
    if count > MAX_STREAMS {
        Err(StreamsError::TooManyStreams { count, max_streams: MAX_STREAMS })
    } else {
        Ok(())
    }
}

/// What is done before a stream is opened.
#[derive(Clone, Copy, Debug, PartialEq, Eq, Structural)]
pub struct StreamStep {
    /// Whether progress is reported.
    pub report_progress: bool,
    /// Whether the stream is the first on a new connection.
    pub reconnect: bool,
}

/// The connection, counted from zero, that carries the stream `index`.
pub open spec fn connection_of(index: usize, per_connection: usize) -> int
    recommends
        per_connection > 0,
{
    index as int / per_connection as int
}

/// What is done before the stream `index` is opened, with `per_connection`
/// streams on each connection: progress is reported at every
/// [`PROGRESS_EVERY`]th stream, and a new connection is made where the
/// stream before is on another one.
pub fn stream_step(index: usize, per_connection: usize) -> (step: StreamStep)
    requires
        per_connection > 0,
    ensures
        step.report_progress == (index % PROGRESS_EVERY == 0),
        step.reconnect == (index > 0 && index % per_connection == 0),
        step.reconnect == (index > 0 && connection_of(index, per_connection) != connection_of(
            (index - 1) as usize,
            per_connection,
        )),
{
    proof {
        if index > 0 {
            lemma_connection_changes(index as int, per_connection as int);
        }
    }
    StreamStep {
        report_progress: index % PROGRESS_EVERY == 0,
        reconnect: index % per_connection == 0 && index > 0,
    }
}

/// Going from one number to the next, the quotient by `d` changes exactly
/// at the multiples of `d`.
pub proof fn lemma_connection_changes(i: int, d: int)
    requires
        i > 0,
        d > 0,
    ensures
        (i % d == 0) == (i / d != (i - 1) / d),
{
    let q = (i - 1) / d;
    let r = (i - 1) % d;
    vstd::arithmetic::div_mod::lemma_fundamental_div_mod(i - 1, d);
    vstd::arithmetic::div_mod::lemma_mod_bound(i - 1, d);
    if r + 1 < d {
        assert(i == d * q + (r + 1));
        vstd::arithmetic::div_mod::lemma_fundamental_div_mod_converse(i, d, q, r + 1);
    } else {
        assert(i == d * (q + 1) + 0) by (nonlinear_arith)
            requires
                i - 1 == d * q + r,
                r + 1 == d,
        ;
        vstd::arithmetic::div_mod::lemma_fundamental_div_mod_converse(i, d, q + 1, 0);
    }
}

} // verus!
