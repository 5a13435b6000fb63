//! How a node makes room for a blob that it is about to download: it deletes the blobs that
//! were stored first.

use chrono::DateTime;

use vstd::prelude::*;
use vstd::utf8::{decode_utf8, valid_utf8};

use crate::net::table::{Name, Table};
use crate::proto::keys::BlobHash;

verus! {

/// A blob of the local store.
#[derive(Debug, Clone, Copy)]
pub struct Blob {
    /// The hash that addresses it.
    pub hash: BlobHash,
    /// Its size in bytes.
    pub size: u64,
}

/// A tag of the local store, which keeps a blob from being collected.
#[derive(Debug, Clone)]
pub struct Tag {
    /// Its name. The store names a tag of its own after the time when it was made.
    pub name: Vec<u8>,
    /// The blob that it keeps.
    pub hash: BlobHash,
}

/// What a [`Tag`] holds.
#[verifier::ext_equal]
pub struct TagView {
    pub name: Seq<u8>,
    pub hash: BlobHash,
}

impl View for Tag {
    type V = TagView;

    open spec fn view(&self) -> TagView {
        TagView { name: self.name@, hash: self.hash }
    }
}

/// What a list of tags holds.
pub open spec fn tags_of(tags: Seq<Tag>) -> Seq<TagView> {
    tags.map_values(|t: Tag| t@)
}

/// A point in time: seconds since the beginning of 1970, and nanoseconds after that, which run
/// on past a full second in a leap second.
#[derive(Debug, Clone, Copy, PartialEq, Eq, Structural)]
pub struct Time {
    pub secs: i64,
    pub nanos: u32,
}

impl Name for Time {
    fn same(&self, other: &Self) -> (r: bool) {
        self.secs == other.secs && self.nanos == other.nanos
    }
}

/// Whether `a` comes before `b`.
pub open spec fn earlier(a: Time, b: Time) -> bool {
    a.secs < b.secs || (a.secs == b.secs && a.nanos < b.nanos)
}

/// The blob that a tag keeps, and the time that the tag is named after, if it is named after one.
#[derive(Debug, Clone, Copy)]
pub struct Dated {
    pub time: Option<Time>,
    pub hash: BlobHash,
}

/// A blob that may be deleted, and the time when it was stored.
#[derive(Debug, Clone, Copy)]
pub struct Candidate {
    pub time: Time,
    pub blob: Blob,
}

/// What is to be deleted to make room.
#[derive(Debug)]
pub struct Plan {
    /// The blobs to delete, in order.
    pub delete: Vec<BlobHash>,
    /// Whether there is room once they have been deleted.
    pub enough: bool,
}

// ---------------------------------------------------------------------------------------
// Outside functions
// ---------------------------------------------------------------------------------------

/// The text that UTF-8 bytes encode, by `std::str::from_utf8`: bytes that are no UTF-8 give
/// nothing.
#[verifier::external_body]
fn text_from_utf8(bytes: &[u8]) -> (text: Option<&str>)
    ensures
        match text {
            Some(t) => valid_utf8(bytes@) && t@ == decode_utf8(bytes@),
            None => !valid_utf8(bytes@),
        },
{
    std::str::from_utf8(bytes).ok()
}

/// The time that `chrono` reads from a text in the format of RFC 3339, as the seconds and the
/// nanoseconds of a [`Time`], if the text has this format.
pub uninterp spec fn rfc3339_time(text: Seq<char>) -> Option<(i64, u32)>;

/// `DateTime::parse_from_rfc3339` reads a time, which `timestamp` and `timestamp_subsec_nanos`
/// hand out as two numbers.
#[verifier::external_body]
fn parse_rfc3339(text: &str) -> (time: Option<(i64, u32)>)
    ensures
        time == rfc3339_time(text@),
{
    match DateTime::parse_from_rfc3339(text) {
        Ok(time) => Some((time.timestamp(), time.timestamp_subsec_nanos())),
        Err(_) => None,
    }
}

// ---------------------------------------------------------------------------------------
// The rules
// ---------------------------------------------------------------------------------------

/// How many bytes some blobs take up.
pub open spec fn storage_use(blobs: Seq<Blob>) -> nat
    decreases blobs.len(),
{
    if blobs.len() == 0 {
        0
    } else {
        storage_use(blobs.drop_last()) + blobs.last().size as nat
    }
}

/// How many bytes have to be deleted before a blob of `size` bytes can be stored.
pub open spec fn to_reclaim(blobs: Seq<Blob>, size: u64, max_storage_use: u64) -> nat {
    if storage_use(blobs) + size > max_storage_use {
        (storage_use(blobs) + size - max_storage_use) as nat
    } else {
        0
    }
}

/// The size of a blob, if it is listed.
pub open spec fn size_of(blobs: Seq<Blob>, hash: BlobHash) -> Option<u64>
    decreases blobs.len(),
{
    if blobs.len() == 0 {
        None
    } else if blobs.last().hash == hash {
        Some(blobs.last().size)
    } else {
        size_of(blobs.drop_last(), hash)
    }
}

/// The prefix of the names that the store gives to tags of its own.
pub open spec fn auto_prefix() -> Seq<char> {
    seq!['a', 'u', 't', 'o', '-']
}

/// A name without the prefix, however often it is there.
pub open spec fn without_prefix(name: Seq<char>) -> Seq<char>
    decreases name.len(),
{
    if auto_prefix().is_prefix_of(name) {
        without_prefix(name.skip(5))
    } else {
        name
    }
}

/// The time that a tag is named after.
pub open spec fn tag_time(name: Seq<u8>) -> Option<Time> {
    if valid_utf8(name) {
        match rfc3339_time(without_prefix(decode_utf8(name))) {
            Some((secs, nanos)) => Some(Time { secs, nanos }),
            None => None,
        }
    } else {
        None
    }
}

/// What some tags keep, and since when.
pub open spec fn dated(tags: Seq<TagView>) -> Seq<Dated> {
    tags.map_values(|t: TagView| Dated { time: tag_time(t.name), hash: t.hash })
}

/// The blobs that may be deleted, by the time when they were stored: those that are listed and
/// have a tag that is named after a time. Of two tags with the same time the later one counts.
pub open spec fn candidates(tags: Seq<Dated>, blobs: Seq<Blob>) -> Map<Time, Blob>
    decreases tags.len(),
{
    if tags.len() == 0 {
        Map::empty()
    } else {
        let before = candidates(tags.drop_last(), blobs);
        let hash = tags.last().hash;
        match (tags.last().time, size_of(blobs, hash)) {
            (Some(time), Some(size)) => before.insert(time, Blob { hash, size }),
            _ => before,
        }
    }
}

/// Whether times come one after another.
pub open spec fn in_order(times: Seq<Time>) -> bool {
    forall|i: int, j: int| 0 <= i < j < times.len() ==> earlier(times[i], times[j])
}

/// Whether `queue` is all of `blobs`, the one that was stored first in front.
pub open spec fn by_age(queue: Seq<Candidate>, blobs: Map<Time, Blob>) -> bool {
    &&& in_order(queue.map_values(|c: Candidate| c.time))
    &&& forall|i: int|
        0 <= i < queue.len() ==> blobs.contains_key((#[trigger] queue[i]).time)
            && blobs[queue[i].time] == queue[i].blob
    &&& forall|t: Time| #[trigger]
        blobs.contains_key(t) ==> exists|i: int| 0 <= i < queue.len() && queue[i].time == t
}

/// The hashes of some candidates.
pub open spec fn hashes(queue: Seq<Candidate>) -> Seq<BlobHash> {
    queue.map_values(|c: Candidate| c.blob.hash)
}

/// The candidates of `queue` without those whose blob stands further in front: a blob that has
/// several tags is as old as the oldest of them.
pub open spec fn firsts(queue: Seq<Candidate>) -> Seq<Candidate>
    decreases queue.len(),
{
    if queue.len() == 0 {
        seq![]
    } else {
        let before = firsts(queue.drop_last());
        if hashes(before).contains(queue.last().blob.hash) {
            before
        } else {
            before.push(queue.last())
        }
    }
}

/// The blobs to delete from the front of `queue` until `needed` bytes are free, and whether they
/// are then.
pub open spec fn until_free(queue: Seq<Candidate>, needed: nat) -> (Seq<BlobHash>, bool)
    decreases queue.len(),
{
    if needed == 0 {
        (seq![], true)
    } else if queue.len() == 0 {
        (seq![], false)
    } else {
        let first = queue[0].blob;
        let left = if first.size < needed {
            (needed - first.size) as nat
        } else {
            0
        };
        let (more, enough) = until_free(queue.skip(1), left);
        (seq![first.hash] + more, enough)
    }
}

/// The blobs to delete, each once, until `needed` bytes are free, and whether they are then.
pub open spec fn oldest(queue: Seq<Candidate>, needed: nat) -> (Seq<BlobHash>, bool) {
    until_free(firsts(queue), needed)
}

/// Whether a blob is not among those that are deleted.
pub open spec fn stays(delete: Seq<BlobHash>) -> spec_fn(Blob) -> bool {
    |b: Blob| !delete.contains(b.hash)
}

/// The blobs that are still stored when those of `delete` are gone.
pub open spec fn kept(blobs: Seq<Blob>, delete: Seq<BlobHash>) -> Seq<Blob> {
    blobs.filter(stays(delete))
}

// ---------------------------------------------------------------------------------------
// The plan
// ---------------------------------------------------------------------------------------

proof fn lemma_storage_use_grows(blobs: Seq<Blob>, i: int)
    requires
        0 <= i <= blobs.len(),
    ensures
        storage_use(blobs.take(i)) <= storage_use(blobs),
    decreases blobs.len() - i,
{
    if i < blobs.len() {
        lemma_storage_use_grows(blobs, i + 1);
        assert(blobs.take(i + 1).drop_last() =~= blobs.take(i));
    } else {
        assert(blobs.take(i) =~= blobs);
    }
}

/// How many bytes have to be deleted before a blob of `size` bytes can be stored.
pub fn space_needed(blobs: &Vec<Blob>, size: u64, max_storage_use: u64) -> (needed: u64)
    requires
        storage_use(blobs@) + size <= u64::MAX,
    ensures
        needed == to_reclaim(blobs@, size, max_storage_use),
{
    let mut used: u64 = 0;
    let mut i: usize = 0;
    while i < blobs.len()
        invariant
            i <= blobs@.len(),
            used == storage_use(blobs@.take(i as int)),
            storage_use(blobs@) + size <= u64::MAX,
        decreases blobs@.len() - i,
    {
        proof {
            lemma_storage_use_grows(blobs@, i + 1);
            assert(blobs@.take(i + 1).drop_last() =~= blobs@.take(i as int));
        }
        used = used + blobs[i].size;
        i = i + 1;
    }
    assert(blobs@.take(i as int) =~= blobs@);
    if used + size > max_storage_use {
        used + size - max_storage_use
    } else {
        0
    }
}

/// The size of a blob, if it is listed.
fn listed_size(blobs: &Vec<Blob>, hash: BlobHash) -> (size: Option<u64>)
    ensures
        size == size_of(blobs@, hash),
{
    let mut i: usize = blobs.len();
    assert(blobs@.take(i as int) =~= blobs@);
    while i > 0
        invariant
            i <= blobs@.len(),
            size_of(blobs@, hash) == size_of(blobs@.take(i as int), hash),
        decreases i,
    {
        i = i - 1;
        assert(blobs@.take(i + 1).drop_last() =~= blobs@.take(i as int));
        if blobs[i].hash.same(&hash) {
            return Some(blobs[i].size);
        }
    }
    None
}

/// A name without the prefix of the store's own tags.
fn trim_prefix<'a>(name: &'a str) -> (rest: &'a str)
    ensures
        rest@ == without_prefix(name@),
{
    let len: usize = name.unicode_len();
    let mut at: usize = 0;
    assert(name@.skip(0) =~= name@);
    while len - at >= 5 && name.get_char(at) == 'a' && name.get_char(at + 1) == 'u'
        && name.get_char(at + 2) == 't' && name.get_char(at + 3) == 'o' && name.get_char(at + 4)
        == '-'
        invariant
            len == name@.len(),
            at <= len,
            without_prefix(name@.skip(at as int)) == without_prefix(name@),
        decreases len - at,
    {
        proof {
            let rest = name@.skip(at as int);
            assert(auto_prefix() =~= rest.take(5));
            assert(rest.skip(5) =~= name@.skip(at + 5));
        }
        at = at + 5;
    }
    proof {
        let rest = name@.skip(at as int);
        if auto_prefix().is_prefix_of(rest) {
            assert(rest[0] == auto_prefix()[0] && rest[1] == auto_prefix()[1] && rest[2]
                == auto_prefix()[2] && rest[3] == auto_prefix()[3] && rest[4] == auto_prefix()[4]);
        }
        assert(name@.skip(at as int) =~= name@.subrange(at as int, len as int));
    }
    name.substring_char(at, len)
}

/// The time that a tag is named after.
pub fn time_of_tag(name: &Vec<u8>) -> (time: Option<Time>)
    ensures
        time == tag_time(name@),
{
    match text_from_utf8(name.as_slice()) {
        Some(text) => match parse_rfc3339(trim_prefix(text)) {
            Some((secs, nanos)) => Some(Time { secs, nanos }),
            None => None,
        },
        None => None,
    }
}

/// Where to put `time` among times that come one after another.
fn place(times: &Vec<Time>, time: Time) -> (at: usize)
    requires
        in_order(times@),
        !times@.contains(time),
    ensures
        at <= times@.len(),
        forall|j: int| 0 <= j < at ==> earlier(times@[j], time),
        forall|j: int| at <= j < times@.len() ==> earlier(time, times@[j]),
{
    let mut at: usize = 0;
    while at < times.len() && (times[at].secs < time.secs || (times[at].secs == time.secs
        && times[at].nanos < time.nanos))
        invariant
            at <= times@.len(),
            forall|j: int| 0 <= j < at ==> earlier(times@[j], time),
        decreases times@.len() - at,
    {
        at = at + 1;
    }
    proof {
        if at < times@.len() {
            let found = times@[at as int];
            assert(times@.contains(found));
            assert(earlier(time, found));
            assert forall|j: int| at <= j < times@.len() implies earlier(time, times@[j]) by {
                assert(j == at || earlier(found, times@[j]));
            }
        }
    }
    at
}

/// Brings times into order.
fn sorted(times: &Vec<Time>) -> (order: Vec<Time>)
    requires
        times@.no_duplicates(),
    ensures
        in_order(order@),
        forall|t: Time| order@.contains(t) <==> times@.contains(t),
{
    let mut order: Vec<Time> = Vec::new();
    let mut i: usize = 0;
    while i < times.len()
        invariant
            i <= times@.len(),
            times@.no_duplicates(),
            in_order(order@),
            forall|t: Time| order@.contains(t) <==> times@.take(i as int).contains(t),
        decreases times@.len() - i,
    {
        let time = times[i];
        let ghost before = order@;
        proof {
            if times@.take(i as int).contains(time) {
                let j = times@.take(i as int).index_of(time);
                assert(times@[j] == times@[i as int]);
            }
        }
        let at = place(&order, time);
        order.insert(at, time);
        proof {
            let next = times@.take(i + 1);
            assert(next =~= times@.take(i as int).push(time));
            assert forall|t: Time| order@.contains(t) <==> next.contains(t) by {
                if order@.contains(t) {
                    let j = order@.index_of(t);
                    if j < at {
                        assert(before[j] == t);
                        assert(before.contains(t));
                    } else if j > at {
                        assert(before[j - 1] == t);
                        assert(before.contains(t));
                    } else {
                        assert(next[i as int] == t);
                    }
                    if before.contains(t) {
                        let k = times@.take(i as int).index_of(t);
                        assert(next[k] == t);
                    }
                }
                if next.contains(t) {
                    let k = next.index_of(t);
                    if k < i {
                        assert(times@.take(i as int)[k] == t);
                        assert(before.contains(t));
                        let j = before.index_of(t);
                        if j < at {
                            assert(order@[j] == t);
                        } else {
                            assert(order@[j + 1] == t);
                        }
                    } else {
                        assert(order@[at as int] == t);
                    }
                }
            }
        }
        i = i + 1;
    }
    assert(times@.take(i as int) =~= times@);
    order
}

/// What some tags keep, and since when.
pub fn date_tags(tags: &Vec<Tag>) -> (r: Vec<Dated>)
    ensures
        r@ == dated(tags_of(tags@)),
{
    let mut r: Vec<Dated> = Vec::new();
    let mut i: usize = 0;
    while i < tags.len()
        invariant
            i <= tags@.len(),
            r@.len() == i,
            forall|j: int| 0 <= j < i ==> #[trigger] r@[j] == dated(tags_of(tags@))[j],
        decreases tags@.len() - i,
    {
        r.push(Dated { time: time_of_tag(&tags[i].name), hash: tags[i].hash });
        i = i + 1;
    }
    assert(r@ =~= dated(tags_of(tags@)));
    r
}

/// The blobs that may be deleted, by the time when they were stored.
fn collect(tags: &Vec<Dated>, blobs: &Vec<Blob>) -> (table: Table<Time, Blob>)
    ensures
        table.wf(),
        table@ == candidates(tags@, blobs@),
{
    let mut table: Table<Time, Blob> = Table::new();
    let mut i: usize = 0;
    assert(tags@.take(0).len() == 0);
    while i < tags.len()
        invariant
            i <= tags@.len(),
            table.wf(),
            table@ == candidates(tags@.take(i as int), blobs@),
        decreases tags@.len() - i,
    {
        assert(tags@.take(i + 1).drop_last() =~= tags@.take(i as int));
        let hash = tags[i].hash;
        if let Some(time) = tags[i].time {
            if let Some(size) = listed_size(blobs, hash) {
                table.insert(time, Blob { hash, size });
            }
        }
        i = i + 1;
    }
    assert(tags@.take(i as int) =~= tags@);
    table
}

/// The blobs that may be deleted, the one that was stored first in front.
pub fn queue_of(tags: &Vec<Dated>, blobs: &Vec<Blob>) -> (queue: Vec<Candidate>)
    ensures
        by_age(queue@, candidates(tags@, blobs@)),
{
    let table = collect(tags, blobs);
    let times = sorted(&table.keys());
    let mut queue: Vec<Candidate> = Vec::new();
    let mut i: usize = 0;
    while i < times.len()
        invariant
            i <= times@.len(),
            table.wf(),
            forall|t: Time| times@.contains(t) <==> table@.contains_key(t),
            queue@.len() == i,
            forall|j: int|
                0 <= j < i ==> (#[trigger] queue@[j]).time == times@[j] && queue@[j].blob
                    == table@[times@[j]],
        decreases times@.len() - i,
    {
        let time = times[i];
        assert(times@.contains(time));
        match table.get(&time) {
            Some(blob) => {
                queue.push(Candidate { time, blob: *blob });
            },
            None => {
                assert(false);
                return queue;
            },
        }
        i = i + 1;
    }
    proof {
        assert(queue@.map_values(|c: Candidate| c.time) =~= times@);
        assert forall|j: int| 0 <= j < queue@.len() implies table@.contains_key(
            (#[trigger] queue@[j]).time,
        ) by {
            assert(times@.contains(times@[j]));
        }
        assert forall|t: Time| #[trigger] table@.contains_key(t) implies exists|j: int|
            0 <= j < queue@.len() && queue@[j].time == t by {
            assert(times@.contains(t));
            let j = times@.index_of(t);
            assert(times@[j] == t);
            assert(queue@[j].time == t);
        }
    }
    queue
}

/// Whether the blob of one of the candidates is `hash`.
fn is_listed(queue: &Vec<Candidate>, hash: BlobHash) -> (r: bool)
    ensures
        r == hashes(queue@).contains(hash),
{
    let mut i: usize = 0;
    while i < queue.len()
        invariant
            i <= queue@.len(),
            forall|j: int| 0 <= j < i ==> hashes(queue@)[j] != hash,
        decreases queue@.len() - i,
    {
        assert(hashes(queue@)[i as int] == queue@[i as int].blob.hash);
        if queue[i].blob.hash.same(&hash) {
            return true;
        }
        i = i + 1;
    }
    false
}

/// The candidates without those whose blob stands further in front.
fn without_repeats(queue: &Vec<Candidate>) -> (first: Vec<Candidate>)
    ensures
        first@ == firsts(queue@),
{
    let mut first: Vec<Candidate> = Vec::new();
    let mut i: usize = 0;
    assert(queue@.take(0).len() == 0);
    while i < queue.len()
        invariant
            i <= queue@.len(),
            first@ == firsts(queue@.take(i as int)),
        decreases queue@.len() - i,
    {
        assert(queue@.take(i + 1).drop_last() =~= queue@.take(i as int));
        if !is_listed(&first, queue[i].blob.hash) {
            first.push(queue[i]);
        }
        i = i + 1;
    }
    assert(queue@.take(i as int) =~= queue@);
    first
}

/// Takes blobs from the front of `queue`, each once, until `needed` bytes are free.
pub fn take_oldest(queue: &Vec<Candidate>, needed: u64) -> (plan: Plan)
    ensures
        (plan.delete@, plan.enough) == oldest(queue@, needed as nat),
{
    let queue = without_repeats(queue);
    let ghost goal = until_free(queue@, needed as nat);
    let mut delete: Vec<BlobHash> = Vec::new();
    let mut left: u64 = needed;
    let mut i: usize = 0;
    assert(queue@.skip(0) =~= queue@);
    assert(seq![] + goal.0 =~= goal.0);
    while left > 0 && i < queue.len()
        invariant
            i <= queue@.len(),
            ({
                let (more, enough) = until_free(queue@.skip(i as int), left as nat);
                (delete@ + more, enough) == goal
            }),
        decreases queue@.len() - i,
    {
        let blob = queue[i].blob;
        let ghost rest = queue@.skip(i as int);
        let ghost before = delete@;
        proof {
            assert(rest.skip(1) =~= queue@.skip(i + 1));
        }
        delete.push(blob.hash);
        left = if blob.size < left {
            left - blob.size
        } else {
            0
        };
        i = i + 1;
        proof {
            let more = until_free(queue@.skip(i as int), left as nat).0;
            assert(delete@ + more =~= before + (seq![blob.hash] + more));
        }
    }
    assert(delete@ + Seq::<BlobHash>::empty() =~= delete@);
    Plan { delete, enough: left == 0 }
}

/// What to delete, so that a blob of `size` bytes can be stored without using more than
/// `max_storage_use` bytes: the blobs that were stored first, as many as it takes.
pub fn plan_reclaim(
    blobs: &Vec<Blob>,
    tags: &Vec<Tag>,
    size: u64,
    max_storage_use: u64,
) -> (plan: Plan)
    requires
        storage_use(blobs@) + size <= u64::MAX,
    ensures
        exists|queue: Seq<Candidate>| #[trigger]
            by_age(queue, candidates(dated(tags_of(tags@)), blobs@)) && (plan.delete@, plan.enough)
                == oldest(queue, to_reclaim(blobs@, size, max_storage_use)),
        plan.delete@.no_duplicates(),
        plan.enough ==> storage_use(kept(blobs@, plan.delete@)) + size <= max_storage_use,
{
    let needed = space_needed(blobs, size, max_storage_use);
    let dates = date_tags(tags);
    let queue = queue_of(&dates, blobs);
    proof {
        law_oldest_are_deleted(queue@, needed as nat);
        law_plan_makes_room(dates@, blobs@, queue@, size, max_storage_use);
    }
    take_oldest(&queue, needed)
}

// ---------------------------------------------------------------------------------------
// Laws
// ---------------------------------------------------------------------------------------

/// How many bytes some candidates take up.
pub open spec fn freed(queue: Seq<Candidate>) -> nat
    decreases queue.len(),
{
    if queue.len() == 0 {
        0
    } else {
        queue[0].blob.size as nat + freed(queue.skip(1))
    }
}

proof fn lemma_until_free(queue: Seq<Candidate>, needed: nat)
    ensures
        ({
            let (delete, enough) = until_free(queue, needed);
            let n = delete.len() as int;
            &&& n <= queue.len()
            &&& delete == hashes(queue.take(n))
            &&& enough <==> freed(queue.take(n)) >= needed
            &&& !enough ==> n == queue.len()
            &&& n > 0 ==> freed(queue.take(n - 1)) < needed
        }),
    decreases queue.len(),
{
    let (delete, enough) = until_free(queue, needed);
    let n = delete.len() as int;
    if needed == 0 || queue.len() == 0 {
        assert(delete =~= hashes(queue.take(0)));
    } else {
        let size = queue[0].blob.size as nat;
        let left = if size < needed {
            (needed - size) as nat
        } else {
            0
        };
        lemma_until_free(queue.skip(1), left);
        let more = until_free(queue.skip(1), left).0;
        assert(delete =~= seq![queue[0].blob.hash] + more);
        assert(queue.take(n).skip(1) =~= queue.skip(1).take(n - 1));
        assert(delete =~= hashes(queue.take(n)));
        if n > 1 {
            assert(queue.take(n - 1).skip(1) =~= queue.skip(1).take(n - 2));
        }
    }
}

/// No blob stands twice among the firsts, and each of them is a candidate.
proof fn lemma_firsts(queue: Seq<Candidate>)
    ensures
        hashes(firsts(queue)).no_duplicates(),
        forall|i: int|
            0 <= i < firsts(queue).len() ==> queue.contains(#[trigger] firsts(queue)[i]),
    decreases queue.len(),
{
    if queue.len() > 0 {
        let init = queue.drop_last();
        let before = firsts(init);
        lemma_firsts(init);
        assert forall|i: int| 0 <= i < firsts(queue).len() implies queue.contains(
            #[trigger] firsts(queue)[i],
        ) by {
            if i < before.len() {
                let j = init.index_of(before[i]);
                assert(init.contains(before[i]));
                assert(queue[j] == before[i]);
            } else {
                assert(queue[queue.len() - 1] == firsts(queue)[i]);
            }
        }
        if !hashes(before).contains(queue.last().blob.hash) {
            let more = hashes(firsts(queue));
            assert forall|i: int, j: int| 0 <= i < j < more.len() implies more[i] != more[j] by {
                assert(hashes(before)[i] == more[i]);
                assert(hashes(before).contains(more[i]));
                if j < before.len() {
                    assert(hashes(before)[j] == more[j]);
                }
            }
        }
    }
}

/// Only the blobs that were stored first are deleted, each once, and as few of them as it takes:
/// those that are deleted take up what is needed, and would not if the last one were left; and if
/// there is not enough, all of them are deleted.
pub proof fn law_oldest_are_deleted(queue: Seq<Candidate>, needed: nat)
    ensures
        ({
            let (delete, enough) = oldest(queue, needed);
            let blobs = firsts(queue);
            let n = delete.len() as int;
            &&& n <= blobs.len()
            &&& delete == hashes(blobs.take(n))
            &&& delete.no_duplicates()
            &&& enough <==> freed(blobs.take(n)) >= needed
            &&& !enough ==> n == blobs.len()
            &&& n > 0 ==> freed(blobs.take(n - 1)) < needed
        }),
{
    let blobs = firsts(queue);
    lemma_until_free(blobs, needed);
    lemma_firsts(queue);
    let n = oldest(queue, needed).0.len() as int;
    assert(hashes(blobs.take(n)) =~= hashes(blobs).take(n));
}

/// A candidate has the size that is listed.
proof fn lemma_candidates_are_listed(tags: Seq<Dated>, blobs: Seq<Blob>)
    ensures
        forall|t: Time| #[trigger]
            candidates(tags, blobs).contains_key(t) ==> ({
                let blob = candidates(tags, blobs)[t];
                size_of(blobs, blob.hash) == Some(blob.size)
            }),
    decreases tags.len(),
{
    if tags.len() > 0 {
        lemma_candidates_are_listed(tags.drop_last(), blobs);
        let before = candidates(tags.drop_last(), blobs);
        assert forall|t: Time| #[trigger] candidates(tags, blobs).contains_key(t) implies ({
            let blob = candidates(tags, blobs)[t];
            size_of(blobs, blob.hash) == Some(blob.size)
        }) by {
            if before.contains_key(t) {
                assert(size_of(blobs, before[t].hash) == Some(before[t].size));
            }
        }
    }
}

/// Deleting one more blob frees at least the size that is listed for it.
proof fn lemma_delete_one(
    blobs: Seq<Blob>,
    delete: Seq<BlobHash>,
    more: Seq<BlobHash>,
    hash: BlobHash,
)
    requires
        !delete.contains(hash),
        forall|h: BlobHash| #[trigger] more.contains(h) <==> delete.contains(h) || h == hash,
    ensures
        storage_use(kept(blobs, more)) <= storage_use(kept(blobs, delete)),
        size_of(blobs, hash) matches Some(size) ==> storage_use(kept(blobs, more)) + size
            <= storage_use(kept(blobs, delete)),
    decreases blobs.len(),
{
    reveal(Seq::filter);
    if blobs.len() > 0 {
        let init = blobs.drop_last();
        let last = blobs.last();
        lemma_delete_one(init, delete, more, hash);
        assert(kept(init, delete).push(last).drop_last() =~= kept(init, delete));
        assert(kept(init, more).push(last).drop_last() =~= kept(init, more));
        assert(more.contains(last.hash) <==> delete.contains(last.hash) || last.hash == hash);
    }
}

/// Deleting blobs, each once, frees at least the sizes that are listed for them.
proof fn lemma_delete_all(blobs: Seq<Blob>, queue: Seq<Candidate>)
    requires
        hashes(queue).no_duplicates(),
        forall|i: int|
            0 <= i < queue.len() ==> size_of(blobs, (#[trigger] queue[i]).blob.hash) == Some(
                queue[i].blob.size,
            ),
    ensures
        storage_use(kept(blobs, hashes(queue))) + freed(queue) <= storage_use(blobs),
    decreases queue.len(),
{
    if queue.len() == 0 {
        lemma_delete_none(blobs, hashes(queue));
    } else {
        let rest = queue.skip(1);
        let hash = queue[0].blob.hash;
        assert(hashes(rest) =~= hashes(queue).skip(1));
        assert forall|i: int| 0 <= i < rest.len() implies size_of(
            blobs,
            (#[trigger] rest[i]).blob.hash,
        ) == Some(rest[i].blob.size) by {
            assert(rest[i] == queue[i + 1]);
        }
        lemma_delete_all(blobs, rest);
        assert(!hashes(rest).contains(hash)) by {
            if hashes(rest).contains(hash) {
                let i = hashes(rest).index_of(hash);
                assert(hashes(queue)[i + 1] == hashes(queue)[0]);
            }
        }
        assert forall|h: BlobHash| #[trigger] hashes(queue).contains(h) <==> hashes(
            rest,
        ).contains(h) || h == hash by {
            if hashes(queue).contains(h) {
                let i = hashes(queue).index_of(h);
                if i > 0 {
                    assert(hashes(rest)[i - 1] == h);
                }
            }
            if hashes(rest).contains(h) {
                let i = hashes(rest).index_of(h);
                assert(hashes(queue)[i + 1] == h);
            }
            if h == hash {
                assert(hashes(queue)[0] == h);
            }
        }
        assert(size_of(blobs, queue[0].blob.hash) == Some(queue[0].blob.size));
        lemma_delete_one(blobs, hashes(rest), hashes(queue), hash);
    }
}

proof fn lemma_delete_none(blobs: Seq<Blob>, none: Seq<BlobHash>)
    requires
        none.len() == 0,
    ensures
        kept(blobs, none) == blobs,
    decreases blobs.len(),
{
    reveal(Seq::filter);
    if blobs.len() > 0 {
        lemma_delete_none(blobs.drop_last(), none);
        assert(blobs.drop_last().push(blobs.last()) =~= blobs);
    } else {
        assert(kept(blobs, none) =~= blobs);
    }
}

/// The plan makes room: if it says that there is enough, the blob and what is left of the store
/// do not exceed the maximum, however many tags a blob has and however often it is listed.
pub proof fn law_plan_makes_room(
    tags: Seq<Dated>,
    blobs: Seq<Blob>,
    queue: Seq<Candidate>,
    size: u64,
    max_storage_use: u64,
)
    requires
        by_age(queue, candidates(tags, blobs)),
    ensures
        ({
            let (delete, enough) = oldest(queue, to_reclaim(blobs, size, max_storage_use));
            enough ==> storage_use(kept(blobs, delete)) + size <= max_storage_use
        }),
{
    let needed = to_reclaim(blobs, size, max_storage_use);
    let n = oldest(queue, needed).0.len() as int;
    let gone = firsts(queue).take(n);
    law_oldest_are_deleted(queue, needed);
    lemma_firsts(queue);
    lemma_candidates_are_listed(tags, blobs);
    assert forall|i: int| 0 <= i < gone.len() implies size_of(
        blobs,
        (#[trigger] gone[i]).blob.hash,
    ) == Some(gone[i].blob.size) by {
        assert(queue.contains(firsts(queue)[i]));
        let j = queue.index_of(firsts(queue)[i]);
        assert(candidates(tags, blobs).contains_key(queue[j].time));
    }
    lemma_delete_all(blobs, gone);
}

/// Nothing is deleted as long as there is room.
pub proof fn law_nothing_is_deleted_without_need(
    blobs: Seq<Blob>,
    queue: Seq<Candidate>,
    size: u64,
    max_storage_use: u64,
)
    requires
        storage_use(blobs) + size <= max_storage_use,
    ensures
        oldest(queue, to_reclaim(blobs, size, max_storage_use)) == (Seq::<BlobHash>::empty(), true),
{
}

/// There is one order by age.
pub proof fn law_age_decides(a: Seq<Candidate>, b: Seq<Candidate>, blobs: Map<Time, Blob>)
    requires
        by_age(a, blobs),
        by_age(b, blobs),
    ensures
        a == b,
    decreases a.len(),
{
    if a.len() == 0 {
        if b.len() > 0 {
            assert(blobs.contains_key(b[0].time));
        }
        assert(a =~= b);
    } else {
        assert(blobs.contains_key(a[0].time));
        let i = choose|i: int| 0 <= i < b.len() && b[i].time == a[0].time;
        assert(blobs.contains_key(b[0].time));
        let j = choose|j: int| 0 <= j < a.len() && a[j].time == b[0].time;
        let ta = a.map_values(|c: Candidate| c.time);
        let tb = b.map_values(|c: Candidate| c.time);
        assert(ta[0] == tb[i] && ta[j] == tb[0]);
        assert(i == 0) by {
            if i > 0 {
                assert(earlier(tb[0], tb[i]));
                if j > 0 {
                    assert(earlier(ta[0], ta[j]));
                }
            }
        }
        assert(a[0] == b[0]);
        let rest = blobs.remove(a[0].time);
        lemma_by_age_tail(a, blobs);
        lemma_by_age_tail(b, blobs);
        law_age_decides(a.skip(1), b.skip(1), rest);
        assert(a =~= seq![a[0]] + a.skip(1));
        assert(b =~= seq![b[0]] + b.skip(1));
    }
}

proof fn lemma_by_age_tail(queue: Seq<Candidate>, blobs: Map<Time, Blob>)
    requires
        by_age(queue, blobs),
        queue.len() > 0,
    ensures
        by_age(queue.skip(1), blobs.remove(queue[0].time)),
{
    let tail = queue.skip(1);
    let rest = blobs.remove(queue[0].time);
    let times = queue.map_values(|c: Candidate| c.time);
    let later = tail.map_values(|c: Candidate| c.time);
    assert forall|i: int, j: int| 0 <= i < j < later.len() implies earlier(later[i], later[j]) by {
        assert(later[i] == times[i + 1] && later[j] == times[j + 1]);
    }
    assert forall|i: int| 0 <= i < tail.len() implies rest.contains_key((#[trigger] tail[i]).time)
        && rest[tail[i].time] == tail[i].blob by {
        assert(tail[i] == queue[i + 1]);
        assert(earlier(times[0], times[i + 1]));
    }
    assert forall|t: Time| #[trigger] rest.contains_key(t) implies exists|i: int|
        0 <= i < tail.len() && tail[i].time == t by {
        assert(blobs.contains_key(t));
        let i = choose|i: int| 0 <= i < queue.len() && queue[i].time == t;
        assert(tail[i - 1].time == t);
    }
}

} // verus!
