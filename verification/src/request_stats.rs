//! Latency statistics of the requests that a benchmark made.

use vstd::prelude::*;

verus! {

/// A histogram of latencies in microseconds, kept by the crate
/// `hdrhistogram`.
#[verifier::external_body]
#[derive(Debug)]
pub struct LatencyHistogram {
    pub inner: hdrhistogram::Histogram<u64>,
}

/// How many samples `histogram` has recorded: what its `len` returns.
pub uninterp spec fn recorded_count(histogram: LatencyHistogram) -> u64;

/// The highest value that `histogram` is sure to take: what its `high`
/// returns.
pub uninterp spec fn highest_trackable(histogram: LatencyHistogram) -> u64;

/// The text that `humantime::format_duration` gives for a duration of
/// `micros` microseconds.
pub uninterp spec fn humantime_text(micros: u64) -> Seq<char>;

/// The lowest latency that is told from zero, in microseconds.
pub const LOWEST_LATENCY_MICROS: u64 = 1;

/// The highest latency that is sure to be taken, in microseconds.
pub const HIGHEST_LATENCY_MICROS: u64 = 1_000_000_000;

/// The significant decimal digits that are kept of a latency.
pub const LATENCY_SIGNIFICANT_DIGITS: u8 = 3;

/// `count` and `more` added up, capped at the largest number.
pub open spec fn capped_sum(count: u64, more: u64) -> u64 {
    if count + more <= u64::MAX {
        (count + more) as u64
    } else {
        u64::MAX
    }
}

/// Calls `hdrhistogram::Histogram::new_with_bounds`. It fails where `low`
/// is zero, where `high` is less than twice `low` and where `sigfig` is over
/// five; a histogram that it makes is empty and has `high` as its highest
/// value.
#[verifier::external_body]
fn histogram_with_bounds(low: u64, high: u64, sigfig: u8) -> (made: Option<LatencyHistogram>)
    ensures
        low < 1 || high < 2 * low || sigfig > 5 ==> made.is_none(),
        made matches Some(histogram) ==> recorded_count(histogram) == 0 && highest_trackable(
            histogram,
        ) == high,
{
    match hdrhistogram::Histogram::<u64>::new_with_bounds(low, high, sigfig) {
        Ok(inner) => Some(LatencyHistogram { inner }),
        Err(_) => None,
    }
}

/// Calls `hdrhistogram::Histogram::record`. A value up to the highest one
/// is recorded. A recorded value counts as one more sample; a refused one
/// changes no count. The highest value does not go down.
#[verifier::external_body]
fn histogram_record(histogram: &mut LatencyHistogram, value: u64) -> (recorded: bool)
    ensures
        value <= highest_trackable(*old(histogram)) ==> recorded,
        recorded ==> recorded_count(*final(histogram)) == capped_sum(
            recorded_count(*old(histogram)),
            1,
        ),
        !recorded ==> recorded_count(*final(histogram)) == recorded_count(*old(histogram)),
        highest_trackable(*final(histogram)) >= highest_trackable(*old(histogram)),
{
    histogram.inner.record(value).is_ok()
}

/// Calls `hdrhistogram::Histogram::add`. An empty `source` is always
/// taken. Where `source` is taken its samples count in `histogram` too; where
/// it is refused no count changes. The highest value does not go down.
#[verifier::external_body]
fn histogram_add(histogram: &mut LatencyHistogram, source: &LatencyHistogram) -> (added: bool)
    ensures
        recorded_count(*source) == 0 ==> added,
        added ==> recorded_count(*final(histogram)) == capped_sum(
            recorded_count(*old(histogram)),
            recorded_count(*source),
        ),
        !added ==> recorded_count(*final(histogram)) == recorded_count(*old(histogram)),
        highest_trackable(*final(histogram)) >= highest_trackable(*old(histogram)),
{
    histogram.inner.add(&source.inner).is_ok()
}

/// Calls `hdrhistogram::Histogram::len`.
#[verifier::external_body]
fn histogram_len(histogram: &LatencyHistogram) -> (len: u64)
    ensures
        len == recorded_count(*histogram),
{
    histogram.inner.len()
}

/// Calls `humantime::format_duration` on a duration of `micros`
/// microseconds and takes the text that it displays.
#[verifier::external_body]
fn format_micros(micros: u64) -> (text: String)
    ensures
        text@ == humantime_text(micros),
{
    humantime::format_duration(std::time::Duration::from_micros(micros)).to_string()
}

/// Why statistics could not be made or extended.
#[derive(Clone, Copy, Debug, PartialEq, Eq, Structural)]
pub enum StatsError {
    /// The histogram of latencies could not be made.
    Initialize,
    /// The latency does not fit in 64 bits of microseconds.
    LatencyTooLarge,
    /// The histogram refused the latency.
    Record { micros: u64 },
    /// The histogram refused the samples of another one.
    Merge,
}

/// The latencies of the requests made so far.
#[derive(Debug)]
pub struct Stats {
    latency_histo: LatencyHistogram,
}

impl Stats {
    /// How many latencies have been observed.
    pub closed spec fn request_count(&self) -> u64 {
        recorded_count(self.latency_histo)
    }

    /// Whether every latency up to [`HIGHEST_LATENCY_MICROS`] is taken.
    pub closed spec fn wf(&self) -> bool {
        highest_trackable(self.latency_histo) >= HIGHEST_LATENCY_MICROS
    }

    /// Empty statistics, with fixed bounds, so that a latency beyond them
    /// is refused and the histogram never grows.
    pub fn try_new() -> (made: Result<Stats, StatsError>)
        ensures
            match made {
                Ok(stats) => stats.wf() && stats.request_count() == 0,
                Err(e) => e == StatsError::Initialize,
            },
    {
        match histogram_with_bounds(
            LOWEST_LATENCY_MICROS,
            HIGHEST_LATENCY_MICROS,
            LATENCY_SIGNIFICANT_DIGITS,
        ) {
            Some(latency_histo) => Ok(Stats { latency_histo }),
            None => Err(StatsError::Initialize),
        }
    }

    /// Takes in a latency of `micros` microseconds.
    pub fn observe(&mut self, micros: u128) -> (result: Result<(), StatsError>)
        requires
            old(self).wf(),
        ensures
            final(self).wf(),
            micros <= HIGHEST_LATENCY_MICROS ==> result.is_ok(),
            micros > u64::MAX ==> result == Err::<(), StatsError>(StatsError::LatencyTooLarge),
            result.is_ok() ==> final(self).request_count() == capped_sum(
                old(self).request_count(),
                1,
            ),
            result.is_err() ==> final(self).request_count() == old(self).request_count(),
            micros <= u64::MAX && result.is_err() ==> result == Err::<(), StatsError>(
                StatsError::Record { micros: micros as u64 },
            ),
    {
        if micros > u64::MAX as u128 {
            return Err(StatsError::LatencyTooLarge);
        }
        let micros = micros as u64;
        if histogram_record(&mut self.latency_histo, micros) {
            Ok(())
        } else {
            Err(StatsError::Record { micros })
        }
    }

    /// Takes in the latencies of `other`.
    pub fn add(&mut self, other: &Stats) -> (result: Result<(), StatsError>)
        requires
            old(self).wf(),
        ensures
            final(self).wf(),
            other.request_count() == 0 ==> result.is_ok(),
            result.is_ok() ==> final(self).request_count() == capped_sum(
                old(self).request_count(),
                other.request_count(),
            ),
            result.is_err() ==> result == Err::<(), StatsError>(StatsError::Merge),
            result.is_err() ==> final(self).request_count() == old(self).request_count(),
    {
        if histogram_add(&mut self.latency_histo, &other.latency_histo) {
            Ok(())
        } else {
            Err(StatsError::Merge)
        }
    }

    /// How many latencies have been observed.
    pub fn len(&self) -> (count: u64)
        ensures
            count == self.request_count(),
    {
        histogram_len(&self.latency_histo)
    }

    /// The histogram of the latencies, in microseconds.
    pub fn histogram(&self) -> (histogram: &LatencyHistogram)
        ensures
            recorded_count(*histogram) == self.request_count(),
    {
        &self.latency_histo
    }

    /// The report on the latencies: `latency_mean` and `latency_percentiles`
    /// are what was read off the histogram, in microseconds. Where nothing
    /// was observed the report holds zeros instead.
    pub fn output(&self, latency_mean: u64, latency_percentiles: [u64; 4]) -> (output: Output)
        ensures
            output.request_count == self.request_count(),
            self.request_count() == 0 ==> output.latency_mean == 0
                && output.latency_percentiles.latency_percentiles@ == seq![0u64, 0u64, 0u64, 0u64],
            self.request_count() != 0 ==> output.latency_mean == latency_mean
                && output.latency_percentiles.latency_percentiles == latency_percentiles,
    {
        let request_count = self.len();
        if request_count == 0 {
            let zeros: [u64; 4] = [0, 0, 0, 0];
            assert(zeros@ =~= seq![0u64, 0u64, 0u64, 0u64]);
            Output {
                request_count,
                latency_mean: 0,
                latency_percentiles: LatencyPercentiles { latency_percentiles: zeros },
            }
        } else {
            Output {
                request_count,
                latency_mean,
                latency_percentiles: LatencyPercentiles { latency_percentiles },
            }
        }
    }
}

/// The latencies below which 95, 99, 99.9 and 99.99 percent of the requests
/// stayed, in microseconds.
#[derive(Clone, Copy, Debug)]
pub struct LatencyPercentiles {
    pub latency_percentiles: [u64; 4],
}

/// The name under which the percentile at `index` is reported.
pub open spec fn percentile_label(index: int) -> Seq<char> {
    if index == 0 {
        "p95"@
    } else if index == 1 {
        "p99"@
    } else if index == 2 {
        "p99.9"@
    } else {
        "p99.99"@
    }
}

impl LatencyPercentiles {
    /// The percentiles as they are reported: each under its name, as a
    /// duration in words.
    pub fn entries(&self) -> (entries: Vec<(String, String)>)
        ensures
            entries@.len() == 4,
            forall|i: int|
                0 <= i < 4 ==> (#[trigger] entries@[i]).0@ == percentile_label(i) && entries@[i].1@
                    == humantime_text(self.latency_percentiles@[i]),
    {
        let mut entries: Vec<(String, String)> = Vec::new();
        entries.push(("p95".to_owned(), format_micros(self.latency_percentiles[0])));
        entries.push(("p99".to_owned(), format_micros(self.latency_percentiles[1])));
        entries.push(("p99.9".to_owned(), format_micros(self.latency_percentiles[2])));
        entries.push(("p99.99".to_owned(), format_micros(self.latency_percentiles[3])));
        entries
    }
}

/// The report of a benchmark on its requests.
#[derive(Clone, Copy, Debug)]
pub struct Output {
    pub request_count: u64,
    /// The mean latency in microseconds.
    pub latency_mean: u64,
    pub latency_percentiles: LatencyPercentiles,
}

} // verus!
