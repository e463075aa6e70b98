//! A filesystem of a chosen size, whose used space is what the files under
//! a directory take.

use vstd::prelude::*;
use crate::statvfs::StatvfsError;

verus! {

/// The type `regex::Regex`: a compiled regular expression, of which
/// nothing is seen here.
#[verifier::external_type_specification]
#[verifier::external_body]
pub struct ExRegex(regex::Regex);

/// Whether `regex::Regex::new` accepts `pattern`: it is a regular
/// expression, and not a larger one than the crate compiles.
pub uninterp spec fn pattern_compiles(pattern: Seq<char>) -> bool;

/// Whether the regular expression written as `pattern` matches somewhere in
/// `name`.
pub uninterp spec fn pattern_matches(pattern: Seq<char>, name: Seq<char>) -> bool;

/// A regular expression that picks files by their names. The expression is
/// compiled from the pattern when the filter is made, and neither changes
/// afterwards.
#[derive(Debug)]
pub struct NameFilter {
    pattern: String,
    regex: regex::Regex,
}

/// Calls `regex::Regex::new`, which compiles with settings that are fixed:
/// whether an expression comes back depends on `pattern` alone. Which
/// patterns these are is not said here.
#[verifier::external_body]
fn compile_pattern(pattern: &str) -> (regex: Option<regex::Regex>)
    ensures
        regex.is_some() == pattern_compiles(pattern@),
{
    regex::Regex::new(pattern).ok()
}

/// Calls `regex::Regex::is_match` on the expression of `filter`, which was
/// compiled from the filter's pattern: the result depends on that pattern
/// and on `name` alone.
#[verifier::external_body]
fn filter_matches(filter: &NameFilter, name: &str) -> (matched: bool)
    ensures
        matched == pattern_matches(filter.pattern(), name@),
{
    filter.regex.is_match(name)
}

impl NameFilter {
    /// The text of the regular expression.
    pub closed spec fn pattern(&self) -> Seq<char> {
        self.pattern@
    }

    /// The filter for `pattern`: there is one exactly where `pattern` is
    /// accepted as a regular expression, and it holds that pattern.
    pub fn new(pattern: &str) -> (filter: Option<NameFilter>)
        ensures
            filter.is_some() == pattern_compiles(pattern@),
            filter matches Some(made) ==> made.pattern() == pattern@,
    {
        match compile_pattern(pattern) {
            Some(regex) => Some(NameFilter { pattern: pattern.to_owned(), regex }),
            None => None,
        }
    }

    /// The text of the regular expression.
    pub fn as_str(&self) -> (pattern: &str)
        ensures
            pattern@ == self.pattern(),
    {
        self.pattern.as_str()
    }

    /// Tells whether the expression matches somewhere in `name`.
    pub fn is_match(&self, name: &str) -> (matched: bool)
        ensures
            matched == pattern_matches(self.pattern(), name@),
    {
        filter_matches(self, name)
    }
}

/// The error that a mock can be told to fail with.
#[derive(Clone, Copy, Debug, PartialEq, Eq, Structural)]
pub enum MockedError {
    EIO,
}

/// What the mock is to report.
#[derive(Debug)]
pub enum Behavior {
    /// A filesystem of `total_blocks` blocks of `blocksize` bytes, on which
    /// the files that `name_filter` picks count as used space.
    Success { blocksize: u64, total_blocks: u64, name_filter: Option<NameFilter> },
    /// A failure.
    Failure { mocked_error: MockedError },
}

/// What kind of failure the operating system reported.
#[derive(Clone, Copy, Debug, PartialEq, Eq, Structural)]
pub enum IoErrorKind {
    NotFound,
    Other,
}

/// Why the metadata of a file could not be read.
#[derive(Clone, Copy, Debug, PartialEq, Eq, Structural)]
pub struct MetadataError {
    /// The kind of the operating system's error, where it was one.
    pub io_kind: Option<IoErrorKind>,
}

/// Tells whether the file was gone when its metadata was asked for.
pub fn is_not_found(e: &MetadataError) -> (gone: bool)
    ensures
        gone == (e.io_kind == Some(IoErrorKind::NotFound)),
{
    match e.io_kind {
        Some(IoErrorKind::NotFound) => true,
        _ => false,
    }
}

/// One step of a walk through a directory tree.
#[derive(Debug)]
pub enum WalkEntry {
    /// The walk could not read this entry.
    Unreadable,
    /// A directory, a link or another thing that is no regular file.
    NotAFile,
    /// A regular file: its name, where the name is valid UTF-8, and its
    /// length or the reason why the length is unknown.
    File { name: Option<String>, len: Result<u64, MetadataError> },
}

/// Why a directory tree could not be measured.
#[derive(Clone, Copy, Debug, PartialEq, Eq, Structural)]
pub enum WalkError {
    /// An entry could not be read; `index` is its place in the walk.
    Entry { index: usize },
    /// The metadata of the file at `index` could not be read.
    Metadata { index: usize },
}

/// Whether `filter` lets a file of the name `name` count: without a filter
/// every file counts, with one only a file whose name is valid UTF-8 and
/// matches.
pub open spec fn accepted(filter: Option<NameFilter>, name: Option<String>) -> bool {
    match filter {
        None => true,
        Some(filter) => match name {
            Some(name) => pattern_matches(filter.pattern(), name@),
            None => false,
        },
    }
}

/// The bytes that `entry` adds to the used space.
pub open spec fn counted_len(filter: Option<NameFilter>, entry: WalkEntry) -> nat {
    match entry {
        WalkEntry::File { name, len: Ok(len) } => if accepted(filter, name) {
            len as nat
        } else {
            0
        },
        _ => 0,
    }
}

/// Whether the walk fails at `entry`: it cannot be read, or it is a file
/// that counts whose metadata cannot be read for another reason than that
/// the file has gone.
pub open spec fn fails_at(filter: Option<NameFilter>, entry: WalkEntry) -> bool {
    match entry {
        WalkEntry::Unreadable => true,
        WalkEntry::NotAFile => false,
        WalkEntry::File { name, len } => accepted(filter, name) && (len matches Err(e) && e.io_kind
            != Some(IoErrorKind::NotFound)),
    }
}

/// The error of the walk at the entry `index`.
pub open spec fn failure_at(entry: WalkEntry, index: usize) -> WalkError {
    match entry {
        WalkEntry::Unreadable => WalkError::Entry { index },
        _ => WalkError::Metadata { index },
    }
}

/// The bytes that the first `upto` of `entries` add to the used space.
pub open spec fn counted_bytes(filter: Option<NameFilter>, entries: Seq<WalkEntry>, upto: int) -> nat
    decreases upto,
{
    if upto <= 0 {
        0
    } else {
        counted_bytes(filter, entries, upto - 1) + counted_len(filter, entries[upto - 1])
    }
}

/// The length of every file among the first `upto` of `entries`, added up.
pub open spec fn total_len(entries: Seq<WalkEntry>, upto: int) -> nat
    decreases upto,
{
    if upto <= 0 {
        0
    } else {
        total_len(entries, upto - 1) + (match entries[upto - 1] {
            WalkEntry::File { len: Ok(len), .. } => len as nat,
            _ => 0,
        })
    }
}

/// What counts is no more than what there is.
pub proof fn lemma_counted_within_total(filter: Option<NameFilter>, entries: Seq<WalkEntry>, upto: int)
    ensures
        counted_bytes(filter, entries, upto) <= total_len(entries, upto),
    decreases upto,
{
    if upto > 0 {
        lemma_counted_within_total(filter, entries, upto - 1);
    }
}

/// What there is grows with the number of entries looked at.
pub proof fn lemma_total_len_grows(entries: Seq<WalkEntry>, fewer: int, more: int)
    requires
        fewer <= more,
    ensures
        total_len(entries, fewer) <= total_len(entries, more),
    decreases more - fewer,
{
    if fewer < more {
        lemma_total_len_grows(entries, fewer, more - 1);
    }
}

/// The bytes under a directory whose walk gave `entries`: the lengths of
/// the files that `name_filter` lets count. It fails at the first entry
/// at which the walk fails.
pub fn walk_dir_disk_usage(entries: &Vec<WalkEntry>, name_filter: &Option<NameFilter>) -> (usage:
    Result<u64, WalkError>)
    requires
        total_len(entries@, entries@.len() as int) <= u64::MAX,
    ensures
        match usage {
            Ok(total) => {
                &&& forall|i: int|
                    0 <= i < entries@.len() ==> !fails_at(*name_filter, #[trigger] entries@[i])
                &&& total == counted_bytes(*name_filter, entries@, entries@.len() as int)
            },
            Err(e) => exists|i: int|
                0 <= i < entries@.len() && fails_at(*name_filter, #[trigger] entries@[i]) && e
                    == failure_at(entries@[i], i as usize) && forall|j: int|
                    0 <= j < i ==> !fails_at(*name_filter, #[trigger] entries@[j]),
        },
{
    let mut total: u64 = 0;
    let mut i: usize = 0;
    while i < entries.len()
        invariant
            i <= entries.len(),
            total_len(entries@, entries@.len() as int) <= u64::MAX,
            total == counted_bytes(*name_filter, entries@, i as int),
            forall|j: int| 0 <= j < i ==> !fails_at(*name_filter, #[trigger] entries@[j]),
        decreases entries.len() - i,
    {
        proof {
            lemma_counted_within_total(*name_filter, entries@, i + 1);
            lemma_total_len_grows(entries@, i + 1, entries@.len() as int);
        }
        match &entries[i] {
            WalkEntry::Unreadable => {
                return Err(WalkError::Entry { index: i });
            },
            WalkEntry::NotAFile => {},
            WalkEntry::File { name, len } => {
                let counts = match name_filter {
                    None => true,
                    Some(filter) => match name {
                        Some(name) => filter.is_match(name.as_str()),
                        None => false,
                    },
                };
                if counts {
                    match len {
                        Ok(len) => {
                            total = total + *len;
                        },
                        Err(e) => {
                            if !is_not_found(e) {
                                return Err(WalkError::Metadata { index: i });
                            }
                        },
                    }
                }
            },
        }
        i += 1;
    }
    Ok(total)
}

/// A reading that the mock made up.
#[derive(Clone, Copy, Debug, PartialEq, Eq, Structural)]
pub struct Statvfs {
    pub blocks: u64,
    pub blocks_available: u64,
    pub fragment_size: u64,
    pub block_size: u64,
}

/// The number of blocks of `blocksize` bytes that `bytes` bytes take.
pub open spec fn blocks_for(bytes: u64, blocksize: u64) -> int
    recommends
        blocksize > 0,
{
    (bytes + blocksize - 1) / (blocksize as int)
}

/// Whether the mock can report on a directory that takes `usage` bytes
/// with the behaviour `behavior`: the block size is not zero and the used
/// blocks are not more than the filesystem has.
pub open spec fn reportable(usage: Result<u64, WalkError>, behavior: Behavior) -> bool {
    match (behavior, usage) {
        (Behavior::Success { blocksize, total_blocks, .. }, Ok(used_bytes)) => blocksize > 0
            && blocks_for(used_bytes, blocksize) <= total_blocks,
        _ => true,
    }
}

/// The reading that the mock gives for a directory that takes `usage`
/// bytes: the used space is rounded up to whole blocks, and what is left of
/// the filesystem is available. Where the directory could not be measured
/// the reading fails.
pub open spec fn spec_get(usage: Result<u64, WalkError>, behavior: Behavior) -> Result<
    Statvfs,
    StatvfsError,
> {
    match behavior {
        Behavior::Success { blocksize, total_blocks, .. } => match usage {
            Ok(used_bytes) => Ok(
                Statvfs {
                    blocks: total_blocks,
                    blocks_available: (total_blocks - blocks_for(used_bytes, blocksize)) as u64,
                    fragment_size: blocksize,
                    block_size: blocksize,
                },
            ),
            Err(_) => Err(StatvfsError::InvalidInput),
        },
        Behavior::Failure { mocked_error: MockedError::EIO } => Err(StatvfsError::Io),
    }
}

/// Makes the mock's reading for a directory that takes `usage` bytes.
pub fn get(usage: Result<u64, WalkError>, behavior: &Behavior) -> (reading: Result<
    Statvfs,
    StatvfsError,
>)
    requires
        reportable(usage, *behavior),
    ensures
        reading == spec_get(usage, *behavior),
{
    match behavior {
        Behavior::Success { blocksize, total_blocks, name_filter: _ } => {
            let used_bytes = match usage {
                Ok(used_bytes) => used_bytes,
                Err(_) => {
                    return Err(StatvfsError::InvalidInput);
                },
            };
            let whole = used_bytes / *blocksize;
            let used_blocks = if used_bytes % *blocksize > 0 {
                proof {
                    lemma_blocks_for(used_bytes, *blocksize);
                }
                whole + 1
            } else {
                proof {
                    lemma_blocks_for(used_bytes, *blocksize);
                }
                whole
            };
            let avail_blocks = *total_blocks - used_blocks;
            Ok(
                Statvfs {
                    blocks: *total_blocks,
                    blocks_available: avail_blocks,
                    fragment_size: *blocksize,
                    block_size: *blocksize,
                },
            )
        },
        Behavior::Failure { mocked_error } => match mocked_error {
            MockedError::EIO => Err(StatvfsError::Io),
        },
    }
}

/// Rounding up to whole blocks is the quotient, and one more where there is
/// a remainder.
pub proof fn lemma_blocks_for(bytes: u64, blocksize: u64)
    requires
        blocksize > 0,
    ensures
        blocks_for(bytes, blocksize) == bytes / blocksize + (if bytes % blocksize > 0 {
            1int
        } else {
            0int
        }),
{
    let q = bytes as int / blocksize as int;
    let r = bytes as int % blocksize as int;
    let d = blocksize as int;
    assert(bytes as int == d * q + r) by {
        vstd::arithmetic::div_mod::lemma_fundamental_div_mod(bytes as int, d);
    }
    if r > 0 {
        assert(bytes + d - 1 == d * (q + 1) + (r - 1)) by (nonlinear_arith)
            requires
                bytes as int == d * q + r,
        ;
        vstd::arithmetic::div_mod::lemma_fundamental_div_mod_converse(
            bytes + d - 1,
            d,
            q + 1,
            r - 1,
        );
    } else {
        assert(bytes + d - 1 == d * q + (d - 1));
        vstd::arithmetic::div_mod::lemma_fundamental_div_mod_converse(bytes + d - 1, d, q, d - 1);
    }
}

} // verus!
