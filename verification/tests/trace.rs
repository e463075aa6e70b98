use upload_queue::page_trace::analyze;
use upload_queue::page_trace::check_event_limit;
use upload_queue::page_trace::count_reads;
use upload_queue::page_trace::most_read;
use upload_queue::page_trace::preallocation;
use upload_queue::page_trace::rank_of;
use upload_queue::page_trace::rel_code;
use upload_queue::page_trace::rel_of_code;
use upload_queue::page_trace::PageRead;
use upload_queue::page_trace::PageTraceError;
use upload_queue::page_trace::RelTag;

fn rel(spcnode: u32, dbnode: u32, relnode: u32, forknum: u8) -> RelTag {
    RelTag { spcnode, dbnode, relnode, forknum }
}

#[test]
fn reads_are_counted_by_key() {
    assert_eq!(count_reads(&vec![5, 3, 5, -1, 3, 5]), vec![(5, 3), (3, 2), (-1, 1)]);
    assert_eq!(count_reads(&Vec::new()), Vec::new());
}

#[test]
fn most_read_come_first() {
    let counts = vec![(9, 2), (4, 5), (7, 1), (1, 2), (-3, 5), (8, 3)];
    assert_eq!(most_read(&counts, 1, 10), vec![(-3, 5), (4, 5), (8, 3), (1, 2), (9, 2)]);
    assert_eq!(most_read(&counts, 1, 2), vec![(-3, 5), (4, 5)]);
    assert_eq!(most_read(&counts, 0, 6), vec![(-3, 5), (4, 5), (8, 3), (1, 2), (9, 2), (7, 1)]);
    assert_eq!(most_read(&counts, 5, 10), Vec::new());
    assert_eq!(most_read(&counts, 1, 0), Vec::new());
}

#[test]
fn rank_negates_the_count() {
    assert_eq!(rank_of(&(17, 4)), (-4, 17));
    assert_eq!(rank_of(&(-2, i64::MIN)), (1i128 << 63, -2));
    assert!(rank_of(&(0, 5)) < rank_of(&(0, 4)));
    assert!(rank_of(&(1, 5)) < rank_of(&(2, 5)));
}

#[test]
fn relations_are_told_from_their_numbers() {
    let tags = [
        rel(0, 0, 0, 0),
        rel(0, 0, 0, 1),
        rel(0, 0, 1, 0),
        rel(0, 1, 0, 0),
        rel(1, 0, 0, 0),
        rel(1664, 0, 1262, 0),
        rel(u32::MAX, u32::MAX, u32::MAX, u8::MAX),
    ];
    for pair in tags.windows(2) {
        assert!(rel_code(&pair[0]) < rel_code(&pair[1]));
    }
    for tag in tags {
        assert_eq!(rel_of_code(rel_code(&tag)), tag);
    }
    assert_eq!(rel_code(&rel(0, 0, 1, 2)), 258);
}

#[test]
fn trace_is_summed_up_by_key_and_relation() {
    let pg_authid = rel(1664, 0, 1262, 0);
    let table = rel(1663, 5, 16384, 0);
    let map = rel(1663, 5, 16384, 2);
    let events = vec![
        PageRead { key: 100, rel: table },
        PageRead { key: 7, rel: pg_authid },
        PageRead { key: 101, rel: table },
        PageRead { key: 100, rel: table },
        PageRead { key: 300, rel: map },
        PageRead { key: 7, rel: pg_authid },
        PageRead { key: 100, rel: table },
        PageRead { key: 301, rel: map },
    ];
    let report = analyze(&events, 1000, 1000);
    assert_eq!(report.multi_read_keys, vec![(100, 3), (7, 2)]);
    assert_eq!(report.reads_by_relation, vec![(table, 4), (map, 2), (pg_authid, 2)]);
    let short = analyze(&events, 1, 2);
    assert_eq!(short.multi_read_keys, vec![(100, 3)]);
    assert_eq!(short.reads_by_relation, vec![(table, 4), (map, 2)]);
    let nothing = analyze(&Vec::new(), 5, 5);
    assert!(nothing.multi_read_keys.is_empty());
    assert!(nothing.reads_by_relation.is_empty());
}

#[test]
fn event_limit_is_checked_before_each_read() {
    assert_eq!(check_event_limit(0, 1), Ok(()));
    assert_eq!(
        check_event_limit(1, 1),
        Err(PageTraceError::TooManyEvents { max_events: 1, processed_events: 1 })
    );
    assert_eq!(
        check_event_limit(0, 0),
        Err(PageTraceError::TooManyEvents { max_events: 0, processed_events: 0 })
    );
    assert_eq!(preallocation(10), 10);
    assert_eq!(preallocation(10_000_000), 1_000_000);
}
