//! Statistics on a trace of page reads: which keys and which relations
//! were read how often.

use std::collections::HashMap;
use itertools::Itertools;
use vstd::prelude::*;
use vstd::relations::sorted_by;
use vstd::relations::total_ordering;

verus! {

/// The most events for which room is made before the trace is read.
pub const MAX_PREALLOCATED_EVENTS: usize = 1_000_000;

/// A relation fork: what a page belongs to.
#[derive(Clone, Copy, Debug, PartialEq, Eq, Structural)]
pub struct RelTag {
    pub spcnode: u32,
    pub dbnode: u32,
    pub relnode: u32,
    pub forknum: u8,
}

/// One read of a page: the key of the page in its compact form, and the
/// relation that the key lies in.
#[derive(Clone, Copy, Debug, PartialEq, Eq, Structural)]
pub struct PageRead {
    pub key: i128,
    pub rel: RelTag,
}

/// Why a trace is not read to its end.
#[derive(Clone, Copy, Debug, PartialEq, Eq, Structural)]
pub enum PageTraceError {
    /// The trace holds at least `max_events` events.
    TooManyEvents { max_events: usize, processed_events: usize },
}

/// For how many events room is made before the trace is read.
pub fn preallocation(max_events: usize) -> (events: usize)
    ensures
        events == (if max_events <= MAX_PREALLOCATED_EVENTS {
            max_events
        } else {
            MAX_PREALLOCATED_EVENTS
        }),
{
    if max_events <= MAX_PREALLOCATED_EVENTS {
        max_events
    } else {
        MAX_PREALLOCATED_EVENTS
    }
}

/// Tells whether one more event may be read after `processed_events`: the
/// trace is given up once `max_events` events have been read.
pub fn check_event_limit(processed_events: usize, max_events: usize) -> (checked: Result<
    (),
    PageTraceError,
>)
    ensures
        checked == (if processed_events >= max_events {
            Err(PageTraceError::TooManyEvents { max_events, processed_events })
        } else {
            Ok(())
        }),
{
    if processed_events >= max_events {
        Err(PageTraceError::TooManyEvents { max_events, processed_events })
    } else {
        Ok(())
    }
}

/// How often `key` occurs in `keys`.
pub open spec fn occurrences(keys: Seq<i128>, key: i128) -> nat
    decreases keys.len(),
{
    if keys.len() == 0 {
        0
    } else {
        occurrences(keys.drop_last(), key) + (if keys.last() == key {
            1nat
        } else {
            0nat
        })
    }
}

/// The keys of `keys` without repetitions, each where it occurs first.
pub open spec fn distinct(keys: Seq<i128>) -> Seq<i128>
    decreases keys.len(),
{
    if keys.len() == 0 {
        Seq::empty()
    } else if keys.drop_last().contains(keys.last()) {
        distinct(keys.drop_last())
    } else {
        distinct(keys.drop_last()).push(keys.last())
    }
}

/// A key is in a sequence with `last` behind it exactly when it is in the
/// sequence or is `last`.
pub proof fn lemma_contains_push(keys: Seq<i128>, last: i128, key: i128)
    ensures
        keys.push(last).contains(key) <==> keys.contains(key) || last == key,
{
    let longer = keys.push(last);
    if longer.contains(key) {
        let i = choose|i: int| 0 <= i < longer.len() && longer[i] == key;
        if i < keys.len() {
            assert(keys[i] == key);
        }
    }
    if keys.contains(key) {
        let i = choose|i: int| 0 <= i < keys.len() && keys[i] == key;
        assert(longer[i] == key);
    }
    if last == key {
        assert(longer[keys.len() as int] == key);
    }
}

/// No key occurs more often than there are keys, and a key occurs at all
/// exactly when it is among them.
pub proof fn lemma_occurrences(keys: Seq<i128>, key: i128)
    ensures
        occurrences(keys, key) <= keys.len(),
        occurrences(keys, key) > 0 <==> keys.contains(key),
    decreases keys.len(),
{
    if keys.len() > 0 {
        lemma_occurrences(keys.drop_last(), key);
        assert(keys =~= keys.drop_last().push(keys.last()));
        lemma_contains_push(keys.drop_last(), keys.last(), key);
    }
}

/// A key is among the distinct keys exactly when it is among the keys.
pub proof fn lemma_distinct_contains(keys: Seq<i128>, key: i128)
    ensures
        distinct(keys).contains(key) <==> keys.contains(key),
    decreases keys.len(),
{
    if keys.len() > 0 {
        let front = keys.drop_last();
        lemma_distinct_contains(front, key);
        lemma_distinct_contains(front, keys.last());
        assert(keys =~= front.push(keys.last()));
        lemma_contains_push(front, keys.last(), key);
        lemma_contains_push(distinct(front), keys.last(), key);
    }
}

/// The distinct keys hold no key twice, and no more keys than there are.
pub proof fn lemma_distinct(keys: Seq<i128>)
    ensures
        distinct(keys).no_duplicates(),
        distinct(keys).len() <= keys.len(),
    decreases keys.len(),
{
    if keys.len() > 0 {
        let front = keys.drop_last();
        lemma_distinct(front);
        lemma_distinct_contains(front, keys.last());
    }
}

/// The reads of each key of `keys`: the distinct keys in the order in which
/// they occur first, each with the number of its occurrences.
pub open spec fn read_counts(keys: Seq<i128>) -> Seq<(i128, i64)> {
    distinct(keys).map_values(|key: i128| (key, occurrences(keys, key) as i64))
}

/// Counts how often each key was read.
pub fn count_reads(keys: &Vec<i128>) -> (counts: Vec<(i128, i64)>)
    requires
        keys@.len() <= i64::MAX,
    ensures
        counts@ == read_counts(keys@),
{
    broadcast use vstd::std_specs::hash::group_hash_axioms;

    let mut seen: HashMap<i128, i64> = HashMap::new();
    let mut order: Vec<i128> = Vec::new();
    let mut i: usize = 0;
    assert(keys@.subrange(0, 0) =~= Seq::empty());
    while i < keys.len()
        invariant
            i <= keys.len(),
            keys@.len() <= i64::MAX,
            order@ == distinct(keys@.subrange(0, i as int)),
            forall|key: i128|
                seen@.contains_key(key) <==> keys@.subrange(0, i as int).contains(key),
            forall|key: i128| #[trigger]
                seen@.contains_key(key) ==> seen@[key] == occurrences(
                    keys@.subrange(0, i as int),
                    key,
                ),
        decreases keys.len() - i,
    {
        let key = keys[i];
        let ghost before = keys@.subrange(0, i as int);
        let ghost now = keys@.subrange(0, i + 1);
        proof {
            assert(now.drop_last() =~= before);
            assert(now.last() == key);
            assert(now =~= before.push(key));
            lemma_occurrences(before, key);
            assert forall|other: i128| now.contains(other) <==> (before.contains(other) || other
                == key) by {
                lemma_contains_push(before, key, other);
            }
        }
        let count = match seen.get(&key) {
            Some(count) => *count,
            None => {
                order.push(key);
                0
            },
        };
        seen.insert(key, count + 1);
        i += 1;
    }
    assert(keys@.subrange(0, i as int) =~= keys@);
    let mut counts: Vec<(i128, i64)> = Vec::new();
    let mut j: usize = 0;
    proof {
        lemma_distinct(keys@);
    }
    while j < order.len()
        invariant
            j <= order.len(),
            order@ == distinct(keys@),
            counts@.len() == j,
            forall|key: i128| seen@.contains_key(key) <==> keys@.contains(key),
            forall|key: i128| #[trigger]
                seen@.contains_key(key) ==> seen@[key] == occurrences(keys@, key),
            forall|k: int| 0 <= k < j ==> counts@[k] == read_counts(keys@)[k],
        decreases order.len() - j,
    {
        let key = order[j];
        proof {
            assert(distinct(keys@)[j as int] == key);
            assert(distinct(keys@).contains(key));
            lemma_distinct_contains(keys@, key);
        }
        let count = match seen.get(&key) {
            Some(count) => *count,
            None => 0,
        };
        counts.push((key, count));
        j += 1;
    }
    assert(counts@ =~= read_counts(keys@));
    counts
}

/// The order in which counts are shown: the larger count first, and of two
/// equal counts the one of the smaller key.
pub open spec fn rank_leq(a: (i128, i64), b: (i128, i64)) -> bool {
    a.1 > b.1 || (a.1 == b.1 && a.0 <= b.0)
}

/// [`rank_leq`] as a relation.
pub open spec fn rank_order() -> spec_fn((i128, i64), (i128, i64)) -> bool {
    |a: (i128, i64), b: (i128, i64)| rank_leq(a, b)
}

/// The order of showing is total.
pub proof fn lemma_rank_order_total()
    ensures
        total_ordering(rank_order()),
{
    let order = rank_order();
    assert(vstd::relations::reflexive(order));
    assert(vstd::relations::antisymmetric(order)) by {
        assert forall|a: (i128, i64), b: (i128, i64)| #[trigger]
            order(a, b) && #[trigger] order(b, a) implies a == b by {
            assert(rank_leq(a, b) && rank_leq(b, a));
        }
    }
    assert(vstd::relations::transitive(order));
    assert(vstd::relations::strongly_connected(order));
}

/// The pair by which counts are sorted: the negated count, then the key.
pub open spec fn spec_rank(entry: (i128, i64)) -> (i128, i128) {
    ((-(entry.1 as int)) as i128, entry.0)
}

/// The pair by which counts are sorted. Pairs are ordered by their first
/// parts and, where these are equal, by their second parts, so ascending
/// pairs are counts in the order of [`rank_leq`].
pub fn rank_of(entry: &(i128, i64)) -> (rank: (i128, i128))
    ensures
        rank == spec_rank(*entry),
{
    let count: i128 = entry.1 as i128;
    (0 - count, entry.0)
}

/// Calls `itertools::Itertools::sorted_by_key` with [`rank_of`] as the key:
/// what comes back holds the entries that went in, each as often, with
/// ascending keys.
#[verifier::external_body]
fn sorted_by_rank(entries: Vec<(i128, i64)>) -> (sorted: Vec<(i128, i64)>)
    ensures
        sorted@.to_multiset() == entries@.to_multiset(),
        sorted_by(sorted@, rank_order()),
{
    entries.into_iter().sorted_by_key(|entry| rank_of(entry)).collect()
}

/// The first `n` of `entries`, or all of them where there are fewer.
pub open spec fn first_n<T>(entries: Seq<T>, n: usize) -> Seq<T> {
    if n <= entries.len() {
        entries.take(n as int)
    } else {
        entries
    }
}

/// The counts above `more_than`.
pub open spec fn above(counts: Seq<(i128, i64)>, more_than: i64) -> Seq<(i128, i64)> {
    counts.filter(|entry: (i128, i64)| entry.1 > more_than)
}

/// The counts that are shown: those above `more_than`, the largest first,
/// and no more than `max_print` of them.
pub open spec fn spec_most_read(counts: Seq<(i128, i64)>, more_than: i64, max_print: usize) -> Seq<
    (i128, i64),
> {
    first_n(above(counts, more_than).sort_by(rank_order()), max_print)
}

/// Picks the counts that are shown.
pub fn most_read(counts: &Vec<(i128, i64)>, more_than: i64, max_print: usize) -> (shown: Vec<
    (i128, i64),
>)
    ensures
        shown@ == spec_most_read(counts@, more_than, max_print),
{
    let ghost keep = |entry: (i128, i64)| entry.1 > more_than;
    let mut kept: Vec<(i128, i64)> = Vec::new();
    let mut i: usize = 0;
    assert(counts@.subrange(0, 0).filter(keep) =~= Seq::empty()) by {
        reveal(Seq::filter);
    }
    while i < counts.len()
        invariant
            i <= counts.len(),
            keep == (|entry: (i128, i64)| entry.1 > more_than),
            kept@ == counts@.subrange(0, i as int).filter(keep),
        decreases counts.len() - i,
    {
        proof {
            reveal(Seq::filter);
            let prefix = counts@.subrange(0, i + 1);
            assert(prefix.drop_last() =~= counts@.subrange(0, i as int));
            assert(prefix.last() == counts@[i as int]);
        }
        if counts[i].1 > more_than {
            kept.push(counts[i]);
        }
        i += 1;
    }
    assert(counts@.subrange(0, i as int) =~= counts@);
    let ghost unsorted = kept@;
    let mut shown = sorted_by_rank(kept);
    proof {
        lemma_rank_order_total();
        unsorted.lemma_sort_by_ensures(rank_order());
        vstd::seq_lib::lemma_sorted_unique(shown@, unsorted.sort_by(rank_order()), rank_order());
    }
    shown.truncate(max_print);
    shown
}

/// The number that stands for `rel`. Numbers are ordered as relations are:
/// by tablespace, database, relation and fork.
pub open spec fn spec_rel_code(rel: RelTag) -> i128 {
    (((rel.spcnode as int * 0x1_0000_0000 + rel.dbnode as int) * 0x1_0000_0000
        + rel.relnode as int) * 0x100 + rel.forknum as int) as i128
}

/// The relation that `code` stands for.
pub open spec fn spec_rel_of_code(code: i128) -> RelTag {
    RelTag {
        spcnode: ((code as int / 0x100_0000_0000_0000_0000) % 0x1_0000_0000) as u32,
        dbnode: ((code as int / 0x100_0000_0000) % 0x1_0000_0000) as u32,
        relnode: ((code as int / 0x100) % 0x1_0000_0000) as u32,
        forknum: (code as int % 0x100) as u8,
    }
}

/// The order of relations: by tablespace, database, relation and fork.
pub open spec fn rel_leq(a: RelTag, b: RelTag) -> bool {
    a.spcnode < b.spcnode || (a.spcnode == b.spcnode && (a.dbnode < b.dbnode || (a.dbnode
        == b.dbnode && (a.relnode < b.relnode || (a.relnode == b.relnode && a.forknum
        <= b.forknum)))))
}

/// A relation is told from its number, and numbers are ordered as
/// relations are.
pub proof fn lemma_rel_code(a: RelTag, b: RelTag)
    ensures
        spec_rel_of_code(spec_rel_code(a)) == a,
        0 <= spec_rel_code(a) < 0x100_0000_0000_0000_0000_0000_0000,
        rel_leq(a, b) <==> spec_rel_code(a) <= spec_rel_code(b),
{
    lemma_rel_code_parts(a);
    lemma_rel_code_parts(b);
}

/// The parts of a relation as they stand in its number.
proof fn lemma_rel_code_parts(rel: RelTag)
    ensures
        spec_rel_code(rel) == rel.spcnode as int * 0x100_0000_0000_0000_0000 + rel.dbnode as int
            * 0x100_0000_0000 + rel.relnode as int * 0x100 + rel.forknum as int,
        spec_rel_of_code(spec_rel_code(rel)) == rel,
{
    let code = rel.spcnode as int * 0x100_0000_0000_0000_0000 + rel.dbnode as int
        * 0x100_0000_0000 + rel.relnode as int * 0x100 + rel.forknum as int;
    assert(spec_rel_code(rel) == code);
    assert(code % 0x100 == rel.forknum as int);
    assert(code / 0x100 == rel.spcnode as int * 0x1_0000_0000_0000_0000 + rel.dbnode as int
        * 0x1_0000_0000 + rel.relnode as int);
    assert((code / 0x100) % 0x1_0000_0000 == rel.relnode as int);
    assert(code / 0x100_0000_0000 == rel.spcnode as int * 0x1_0000_0000 + rel.dbnode as int);
    assert((code / 0x100_0000_0000) % 0x1_0000_0000 == rel.dbnode as int);
    assert(code / 0x100_0000_0000_0000_0000 == rel.spcnode as int);
    assert((code / 0x100_0000_0000_0000_0000) % 0x1_0000_0000 == rel.spcnode as int);
}

/// The number that stands for `rel`.
pub fn rel_code(rel: &RelTag) -> (code: i128)
    ensures
        code == spec_rel_code(*rel),
{
    let spcnode: i128 = rel.spcnode as i128;
    let dbnode: i128 = rel.dbnode as i128;
    let relnode: i128 = rel.relnode as i128;
    let forknum: i128 = rel.forknum as i128;
    ((spcnode * 0x1_0000_0000 + dbnode) * 0x1_0000_0000 + relnode) * 0x100 + forknum
}

/// The relation that `code` stands for.
pub fn rel_of_code(code: i128) -> (rel: RelTag)
    requires
        0 <= code < 0x100_0000_0000_0000_0000_0000_0000,
    ensures
        rel == spec_rel_of_code(code),
{
    RelTag {
        spcnode: ((code / 0x100_0000_0000_0000_0000) % 0x1_0000_0000) as u32,
        dbnode: ((code / 0x100_0000_0000) % 0x1_0000_0000) as u32,
        relnode: ((code / 0x100) % 0x1_0000_0000) as u32,
        forknum: (code % 0x100) as u8,
    }
}

/// Every count that is shown for `keys` is the count of one of the keys.
pub proof fn lemma_shown_keys(keys: Seq<i128>, more_than: i64, max_print: usize, i: int)
    requires
        0 <= i < spec_most_read(read_counts(keys), more_than, max_print).len(),
    ensures
        keys.contains(spec_most_read(read_counts(keys), more_than, max_print)[i].0),
        spec_most_read(read_counts(keys), more_than, max_print)[i].1 == occurrences(
            keys,
            spec_most_read(read_counts(keys), more_than, max_print)[i].0,
        ) as i64,
{
    let counts = read_counts(keys);
    let kept = above(counts, more_than);
    let sorted = kept.sort_by(rank_order());
    let shown = spec_most_read(counts, more_than, max_print);
    let entry = shown[i];
    lemma_rank_order_total();
    kept.lemma_sort_by_ensures(rank_order());
    assert(sorted[i] == entry);
    assert(sorted.contains(entry));
    assert(kept.contains(entry));
    counts.lemma_filter_contains_rev(|entry: (i128, i64)| entry.1 > more_than, entry);
    let at = choose|at: int| 0 <= at < counts.len() && counts[at] == entry;
    assert(distinct(keys)[at] == entry.0);
    assert(distinct(keys).contains(entry.0));
    lemma_distinct_contains(keys, entry.0);
}

/// The keys of `events`, in order.
pub open spec fn keys_of(events: Seq<PageRead>) -> Seq<i128> {
    events.map_values(|event: PageRead| event.key)
}

/// The numbers of the relations of `events`, in order.
pub open spec fn codes_of(events: Seq<PageRead>) -> Seq<i128> {
    events.map_values(|event: PageRead| spec_rel_code(event.rel))
}

/// What a trace shows.
#[derive(Debug)]
pub struct PageTraceReport {
    /// The keys that were read more than once, with the number of their
    /// reads, the most read first.
    pub multi_read_keys: Vec<(i128, i64)>,
    /// The relations with the number of reads in each, the most read first.
    pub reads_by_relation: Vec<(RelTag, i64)>,
}

/// The relations and counts that stand behind numbers and counts.
pub open spec fn with_relations(counts: Seq<(i128, i64)>) -> Seq<(RelTag, i64)> {
    counts.map_values(|entry: (i128, i64)| (spec_rel_of_code(entry.0), entry.1))
}

/// Counts the reads of `events` by key and by relation, and picks what is
/// shown: up to `max_print_keys` of the keys read more than once, and up to
/// `max_print_relations` relations, the most read first and, of those read
/// as often, the smaller key or relation first.
pub fn analyze(events: &Vec<PageRead>, max_print_keys: usize, max_print_relations: usize) -> (report:
    PageTraceReport)
    requires
        events@.len() <= i64::MAX,
    ensures
        report.multi_read_keys@ == spec_most_read(
            read_counts(keys_of(events@)),
            1,
            max_print_keys,
        ),
        report.reads_by_relation@ == with_relations(
            spec_most_read(read_counts(codes_of(events@)), 0, max_print_relations),
        ),
{
    let mut keys: Vec<i128> = Vec::new();
    let mut codes: Vec<i128> = Vec::new();
    let mut i: usize = 0;
    while i < events.len()
        invariant
            i <= events.len(),
            keys@ == keys_of(events@.subrange(0, i as int)),
            codes@ == codes_of(events@.subrange(0, i as int)),
        decreases events.len() - i,
    {
        keys.push(events[i].key);
        codes.push(rel_code(&events[i].rel));
        assert(keys@ =~= keys_of(events@.subrange(0, i + 1)));
        assert(codes@ =~= codes_of(events@.subrange(0, i + 1)));
        i += 1;
    }
    assert(events@.subrange(0, i as int) =~= events@);
    let multi_read_keys = most_read(&count_reads(&keys), 1, max_print_keys);
    let by_code = most_read(&count_reads(&codes), 0, max_print_relations);
    let mut reads_by_relation: Vec<(RelTag, i64)> = Vec::new();
    let mut j: usize = 0;
    while j < by_code.len()
        invariant
            j <= by_code.len(),
            codes@ == codes_of(events@),
            by_code@ == spec_most_read(read_counts(codes@), 0, max_print_relations),
            reads_by_relation@.len() == j,
            forall|k: int| 0 <= k < j ==> reads_by_relation@[k] == with_relations(by_code@)[k],
        decreases by_code.len() - j,
    {
        let entry = by_code[j];
        proof {
            lemma_shown_keys(codes@, 0, max_print_relations, j as int);
            let at = choose|at: int| 0 <= at < codes@.len() && codes@[at] == entry.0;
            lemma_rel_code(events@[at].rel, events@[at].rel);
        }
        reads_by_relation.push((rel_of_code(entry.0), entry.1));
        j += 1;
    }
    assert(reads_by_relation@ =~= with_relations(by_code@));
    PageTraceReport { multi_read_keys, reads_by_relation }
}

} // verus!
