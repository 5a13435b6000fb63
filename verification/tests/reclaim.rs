use kreatilas::net::reclaim::{
    date_tags, plan_reclaim, queue_of, space_needed, take_oldest, time_of_tag, Blob, Candidate,
    Dated, Tag, Time,
};
use kreatilas::proto::BlobHash;

fn hash(n: u128) -> BlobHash {
    BlobHash { hi: n, lo: n }
}

fn blob(n: u128, size: u64) -> Blob {
    Blob {
        hash: hash(n),
        size,
    }
}

fn tag(name: &str, n: u128) -> Tag {
    Tag {
        name: name.as_bytes().to_vec(),
        hash: hash(n),
    }
}

fn at(secs: i64, nanos: u32) -> Option<Time> {
    Some(Time { secs, nanos })
}

fn dated(time: Option<Time>, n: u128) -> Dated {
    Dated {
        time,
        hash: hash(n),
    }
}

fn order(queue: &[Candidate]) -> Vec<(u128, u64)> {
    queue.iter().map(|c| (c.blob.hash.hi, c.blob.size)).collect()
}

#[test]
fn space_is_needed_above_the_maximum() {
    let blobs = vec![blob(1, 30), blob(2, 40)];
    assert_eq!(space_needed(&blobs, 30, 100), 0);
    assert_eq!(space_needed(&blobs, 31, 100), 1);
    assert_eq!(space_needed(&blobs, 80, 100), 50);
    assert_eq!(space_needed(&vec![], 5, 0), 5);
    assert_eq!(space_needed(&vec![blob(1, u64::MAX - 1)], 1, 0), u64::MAX);
}

#[test]
fn tags_are_named_after_times() {
    let time = |name: &str| time_of_tag(&name.as_bytes().to_vec());
    assert_eq!(time("auto-1970-01-01T00:00:00Z"), at(0, 0));
    assert_eq!(time("1970-01-01T00:00:01.5Z"), at(1, 500_000_000));
    assert_eq!(time("auto-auto-1970-01-02T00:00:00Z"), at(86400, 0));
    // An hour east of Greenwich it is an hour later.
    assert_eq!(time("auto-1970-01-01T01:00:00+01:00"), at(0, 0));
    assert_eq!(time("auto-1969-12-31T23:59:59Z"), at(-1, 0));
    assert_eq!(time("auto-"), None);
    assert_eq!(time("auto"), None);
    assert_eq!(time(""), None);
    assert_eq!(time("AUTO-1970-01-01T00:00:00Z"), None);
    assert_eq!(time("kept"), None);
    assert_eq!(time_of_tag(&vec![0xff, 0xfe]), None);
}

#[test]
fn dates_go_with_hashes() {
    let tags = vec![tag("auto-1970-01-01T00:00:07Z", 1), tag("name", 2)];
    let r = date_tags(&tags);
    assert_eq!(r.len(), 2);
    assert_eq!((r[0].time, r[0].hash), (at(7, 0), hash(1)));
    assert_eq!((r[1].time, r[1].hash), (None, hash(2)));
}

#[test]
fn oldest_come_first() {
    let blobs = vec![blob(1, 10), blob(2, 20), blob(3, 30), blob(4, 40)];
    let tags = vec![
        dated(at(5, 0), 1),
        dated(at(-5, 9), 2),
        dated(None, 3),
        dated(at(5, 1), 4),
        dated(at(0, 0), 99),
    ];
    assert_eq!(order(&queue_of(&tags, &blobs)), vec![(2, 20), (1, 10), (4, 40)]);
}

#[test]
fn later_tag_of_the_same_time_counts() {
    let blobs = vec![blob(1, 10), blob(2, 20), blob(1, 11)];
    let tags = vec![dated(at(5, 0), 2), dated(at(5, 0), 1)];
    // And of a blob that is listed twice the later size.
    assert_eq!(order(&queue_of(&tags, &blobs)), vec![(1, 11)]);
}

#[test]
fn only_as_much_as_needed_is_deleted() {
    let queue: Vec<Candidate> = [(1, 10), (2, 20), (3, 30)]
        .iter()
        .map(|(n, size)| Candidate {
            time: Time {
                secs: *n as i64,
                nanos: 0,
            },
            blob: blob(*n, *size),
        })
        .collect();
    let plan = |needed| {
        let plan = take_oldest(&queue, needed);
        (plan.delete.iter().map(|h| h.hi).collect::<Vec<_>>(), plan.enough)
    };
    assert_eq!(plan(0), (vec![], true));
    assert_eq!(plan(1), (vec![1], true));
    assert_eq!(plan(10), (vec![1], true));
    assert_eq!(plan(11), (vec![1, 2], true));
    assert_eq!(plan(60), (vec![1, 2, 3], true));
    assert_eq!(plan(61), (vec![1, 2, 3], false));
}

#[test]
fn plan_makes_room_for_a_blob() {
    let blobs = vec![blob(1, 40), blob(2, 30), blob(3, 20)];
    let tags = vec![
        tag("auto-2024-05-01T10:00:00Z", 1),
        tag("auto-2024-04-01T10:00:00Z", 2),
        tag("pinned", 3),
    ];
    let plan = |size, max| {
        let plan = plan_reclaim(&blobs, &tags, size, max);
        (plan.delete.iter().map(|h| h.hi).collect::<Vec<_>>(), plan.enough)
    };
    assert_eq!(plan(10, 100), (vec![], true));
    assert_eq!(plan(11, 100), (vec![2], true));
    assert_eq!(plan(41, 100), (vec![2, 1], true));
    assert_eq!(plan(81, 100), (vec![2, 1], false));
}

#[test]
fn blob_with_two_tags_counts_once() {
    let blobs = vec![blob(1, 5), blob(2, 5)];
    let tags = vec![dated(at(1, 0), 1), dated(at(2, 0), 1), dated(at(3, 0), 2)];
    let queue = queue_of(&tags, &blobs);
    assert_eq!(order(&queue), vec![(1, 5), (1, 5), (2, 5)]);
    assert_eq!(space_needed(&blobs, 8, 10), 8);
    let plan = take_oldest(&queue, 8);
    assert_eq!(plan.delete, vec![hash(1), hash(2)]);
    assert!(plan.enough);
    let plan = take_oldest(&queue, 11);
    assert_eq!(plan.delete, vec![hash(1), hash(2)]);
    assert!(!plan.enough);
}

#[test]
fn what_is_kept_stays_within_the_limit() {
    // Two tags on the first blob, and the second one is listed twice.
    let blobs = vec![blob(1, 5), blob(2, 4), blob(3, 6), blob(2, 4)];
    let tags = vec![
        tag("auto-2024-01-03T00:00:00Z", 2),
        tag("auto-2024-01-01T00:00:00Z", 1),
        tag("auto-2024-01-04T00:00:00Z", 3),
        tag("auto-2024-01-02T00:00:00Z", 1),
    ];
    for size in 0..30 {
        for max in 0..30 {
            let plan = plan_reclaim(&blobs, &tags, size, max);
            let mut once = plan.delete.clone();
            once.dedup();
            assert_eq!(once, plan.delete);
            let left: u64 = blobs
                .iter()
                .filter(|b| !plan.delete.contains(&b.hash))
                .map(|b| b.size)
                .sum();
            if plan.enough {
                assert!(left + size <= max);
            }
        }
    }
    let plan = plan_reclaim(&blobs, &tags, 8, 20);
    assert_eq!(plan.delete, vec![hash(1), hash(2)]);
    assert!(plan.enough);
}
