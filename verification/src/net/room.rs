//! The rules by which a node makes room, each said of the blobs, the tags and their times.

use vstd::prelude::*;
use vstd::utf8::{decode_utf8, valid_utf8};

use crate::net::reclaim::{
    auto_prefix, by_age, candidates, dated, earlier, firsts, freed, hashes, kept,
    law_oldest_are_deleted, oldest, rfc3339_time, size_of, stays, storage_use, tag_time, tags_of,
    to_reclaim, without_prefix, Blob, Candidate, Dated, Tag, Time,
};
use crate::proto::keys::BlobHash;

verus! {

/// Blobs take up what they take up together: nothing takes up nothing, one its size, and two
/// lists the sum of what they take up.
pub proof fn law_sizes_add_up(a: Seq<Blob>, b: Seq<Blob>, blob: Blob)
    ensures
        storage_use(Seq::empty()) == 0,
        storage_use(seq![blob]) == blob.size,
        storage_use(a + b) == storage_use(a) + storage_use(b),
    decreases b.len(),
{
    assert(seq![blob].drop_last() =~= Seq::empty());
    if b.len() == 0 {
        assert(a + b =~= a);
    } else {
        law_sizes_add_up(a, b.drop_last(), blob);
        assert((a + b).drop_last() =~= a + b.drop_last());
    }
}

/// What is needed is what the blob and the store take up beyond the maximum, and nothing if they
/// stay within it.
pub proof fn law_need(blobs: Seq<Blob>, size: u64, max_storage_use: u64)
    ensures
        ({
            let needed = to_reclaim(blobs, size, max_storage_use);
            &&& needed == 0 <==> storage_use(blobs) + size <= max_storage_use
            &&& needed > 0 ==> storage_use(blobs) + size == max_storage_use + needed
        }),
{
}

/// The size of a blob is the one that is listed last for it, whatever it is; there is none only
/// if the blob is not listed.
pub proof fn law_listed_sizes(blobs: Seq<Blob>, hash: BlobHash)
    ensures
        match size_of(blobs, hash) {
            Some(size) => exists|i: int|
                0 <= i < blobs.len() && (#[trigger] blobs[i]).hash == hash && blobs[i].size == size
                    && forall|j: int| i < j < blobs.len() ==> (#[trigger] blobs[j]).hash != hash,
            None => forall|i: int| 0 <= i < blobs.len() ==> (#[trigger] blobs[i]).hash != hash,
        },
    decreases blobs.len(),
{
    if blobs.len() > 0 {
        let init = blobs.drop_last();
        let n = blobs.len() - 1;
        if blobs.last().hash == hash {
            assert(blobs[n].hash == hash && blobs[n].size == blobs.last().size);
        } else {
            law_listed_sizes(init, hash);
            match size_of(init, hash) {
                Some(size) => {
                    let i = choose|i: int|
                        0 <= i < init.len() && (#[trigger] init[i]).hash == hash && init[i].size
                            == size && forall|j: int|
                            i < j < init.len() ==> (#[trigger] init[j]).hash != hash;
                    assert(blobs[i] == init[i]);
                    assert forall|j: int| i < j < blobs.len() implies (#[trigger] blobs[j]).hash
                        != hash by {
                        if j < n {
                            assert(blobs[j] == init[j]);
                        }
                    }
                },
                None => {
                    assert forall|i: int| 0 <= i < blobs.len() implies (#[trigger] blobs[i]).hash
                        != hash by {
                        if i < n {
                            assert(blobs[i] == init[i]);
                        }
                    }
                },
            }
        }
    }
}

/// Whether a text begins with the prefix of the store's own tags.
pub open spec fn is_auto(text: Seq<char>) -> bool {
    text.len() >= 5 && text[0] == 'a' && text[1] == 'u' && text[2] == 't' && text[3] == 'o'
        && text[4] == '-'
}

/// From the front of a name the prefix `auto-` is taken as often as it is there, and nothing
/// else.
pub proof fn law_prefix_is_taken(name: Seq<char>)
    ensures
        !is_auto(without_prefix(name)),
        exists|n: int|
            0 <= n <= name.len() && #[trigger] name.skip(n) == without_prefix(name) && n % 5 == 0
                && forall|i: int|
                0 <= i < n && i % 5 == 0 ==> is_auto(#[trigger] name.skip(i)),
    decreases name.len(),
{
    if auto_prefix().is_prefix_of(name) {
        assert(name.take(5) =~= auto_prefix());
        assert(name[0] == name.take(5)[0] && name[1] == name.take(5)[1] && name[2] == name.take(
            5,
        )[2] && name[3] == name.take(5)[3] && name[4] == name.take(5)[4]);
        let rest = name.skip(5);
        law_prefix_is_taken(rest);
        let m = choose|m: int|
            0 <= m <= rest.len() && #[trigger] rest.skip(m) == without_prefix(rest) && m % 5 == 0
                && forall|i: int|
                0 <= i < m && i % 5 == 0 ==> is_auto(#[trigger] rest.skip(i));
        assert(rest.skip(m) =~= name.skip(m + 5));
        assert forall|i: int| 0 <= i < m + 5 && i % 5 == 0 implies is_auto(
            #[trigger] name.skip(i),
        ) by {
            if i == 0 {
                assert(name.skip(0) =~= name);
            } else {
                assert(i >= 5);
                assert(rest.skip(i - 5) =~= name.skip(i));
                assert(is_auto(rest.skip(i - 5)));
            }
        }
    } else {
        assert(name.skip(0) =~= name);
        if is_auto(name) {
            assert(name.take(5) =~= auto_prefix());
        }
    }
}

/// A tag is named after a time if its name is UTF-8 and what is behind the prefix reads as one;
/// then that is its time.
pub proof fn law_times_of_tags(name: Seq<u8>)
    ensures
        tag_time(name) is Some ==> valid_utf8(name),
        valid_utf8(name) ==> match rfc3339_time(without_prefix(decode_utf8(name))) {
            Some((secs, nanos)) => tag_time(name) == Some(Time { secs, nanos }),
            None => tag_time(name) is None,
        },
{
}

/// Every tag is dated, by its own name, and for the blob that it keeps.
pub proof fn law_every_tag_is_dated(tags: Seq<Tag>)
    ensures
        dated(tags_of(tags)).len() == tags.len(),
        forall|i: int|
            0 <= i < tags.len() ==> (#[trigger] dated(tags_of(tags))[i]).time == tag_time(
                tags[i].name@,
            ) && dated(tags_of(tags))[i].hash == tags[i].hash,
{
}

/// Whether tag `i` has this time and keeps a blob that is listed.
pub open spec fn offers(tags: Seq<Dated>, blobs: Seq<Blob>, time: Time, i: int) -> bool {
    0 <= i < tags.len() && tags[i].time == Some(time) && size_of(blobs, tags[i].hash) is Some
}

/// Every blob that is listed and has a tag that is named after a time may be deleted, whatever
/// its size, and no other: there is a candidate for just the times of such tags, and it is the
/// blob of the last tag with that time, with its listed size.
pub proof fn law_candidates(tags: Seq<Dated>, blobs: Seq<Blob>, time: Time, i: int)
    ensures
        candidates(tags, blobs).contains_key(time) <==> exists|j: int| #[trigger]
            offers(tags, blobs, time, j),
        offers(tags, blobs, time, i) && (forall|j: int|
            j > i ==> !(#[trigger] offers(tags, blobs, time, j))) ==> ({
            let blob = candidates(tags, blobs)[time];
            blob.hash == tags[i].hash && Some(blob.size) == size_of(blobs, tags[i].hash)
        }),
    decreases tags.len(),
{
    if tags.len() > 0 {
        let init = tags.drop_last();
        let n = tags.len() - 1;
        let last = offers(tags, blobs, time, n);
        law_candidates(init, blobs, time, i);
        assert forall|j: int| j != n implies #[trigger] offers(tags, blobs, time, j) == offers(
            init,
            blobs,
            time,
            j,
        ) by {}
        assert(candidates(tags, blobs).contains_key(time) <==> last || candidates(
            init,
            blobs,
        ).contains_key(time));
        if exists|j: int| #[trigger] offers(init, blobs, time, j) {
            let j = choose|j: int| #[trigger] offers(init, blobs, time, j);
            assert(offers(tags, blobs, time, j));
        }
        if exists|j: int| #[trigger] offers(tags, blobs, time, j) {
            let j = choose|j: int| #[trigger] offers(tags, blobs, time, j);
            if j != n {
                assert(offers(init, blobs, time, j));
            }
        }
        if offers(tags, blobs, time, i) && (forall|j: int|
            j > i ==> !(#[trigger] offers(tags, blobs, time, j))) && i != n {
            assert(!offers(tags, blobs, time, n));
            assert forall|j: int| j > i implies !(#[trigger] offers(init, blobs, time, j)) by {
                if j != n {
                    assert(!offers(tags, blobs, time, j));
                }
            }
            assert(tags[i] == init[i]);
        }
    } else {
        assert forall|j: int| !(#[trigger] offers(tags, blobs, time, j)) by {}
    }
}

/// The queue holds every candidate, each once, and the earlier always before the later; seconds
/// decide, and nanoseconds between equal ones.
pub proof fn law_queue(queue: Seq<Candidate>, blobs: Map<Time, Blob>)
    requires
        by_age(queue, blobs),
    ensures
        forall|i: int, j: int|
            0 <= i < j < queue.len() ==> ({
                let a = (#[trigger] queue[i]).time;
                let b = (#[trigger] queue[j]).time;
                a.secs < b.secs || (a.secs == b.secs && a.nanos < b.nanos)
            }),
        forall|i: int|
            0 <= i < queue.len() ==> blobs.contains_key((#[trigger] queue[i]).time) && queue[i].blob
                == blobs[queue[i].time],
        forall|t: Time| #[trigger]
            blobs.contains_key(t) ==> exists|i: int|
                0 <= i < queue.len() && (#[trigger] queue[i]).time == t,
{
    let times = queue.map_values(|c: Candidate| c.time);
    assert forall|i: int, j: int| 0 <= i < j < queue.len() implies ({
        let a = (#[trigger] queue[i]).time;
        let b = (#[trigger] queue[j]).time;
        a.secs < b.secs || (a.secs == b.secs && a.nanos < b.nanos)
    }) by {
        assert(times[i] == queue[i].time && times[j] == queue[j].time);
        assert(earlier(times[i], times[j]));
    }
}

/// Whether candidate `i` is the first of the queue for its blob.
pub open spec fn is_first(queue: Seq<Candidate>, i: int) -> bool {
    &&& 0 <= i < queue.len()
    &&& forall|j: int| 0 <= j < i ==> (#[trigger] queue[j]).blob.hash != queue[i].blob.hash
}

/// Of each blob of the queue just the first candidate counts: putting a candidate at the end adds
/// it if its blob is new, and changes nothing if it is not. And the blobs that count are those of
/// the queue.
pub proof fn law_first_candidates(queue: Seq<Candidate>, next: Candidate)
    ensures
        firsts(Seq::empty()) == Seq::<Candidate>::empty(),
        is_first(queue.push(next), queue.len() as int) ==> firsts(queue.push(next)) == firsts(
            queue,
        ).push(next),
        !is_first(queue.push(next), queue.len() as int) ==> firsts(queue.push(next)) == firsts(
            queue,
        ),
        forall|h: BlobHash| #[trigger]
            hashes(firsts(queue)).contains(h) <==> exists|i: int|
                0 <= i < queue.len() && (#[trigger] queue[i]).blob.hash == h,
        hashes(queue).len() == queue.len(),
        forall|i: int|
            0 <= i < queue.len() ==> #[trigger] hashes(queue)[i] == queue[i].blob.hash,
    decreases queue.len(),
{
    let more = queue.push(next);
    assert(more.drop_last() =~= queue);
    assert(more.last() == next);
    if queue.len() > 0 {
        let init = queue.drop_last();
        let last = queue.last();
        let n = queue.len() - 1;
        law_first_candidates(init, last);
        assert(init.push(last) =~= queue);
        let before = firsts(init);
        assert forall|h: BlobHash| #[trigger]
            hashes(firsts(queue)).contains(h) <==> exists|i: int|
                0 <= i < queue.len() && (#[trigger] queue[i]).blob.hash == h by {
            if hashes(before).contains(h) {
                let i = choose|i: int|
                    0 <= i < init.len() && (#[trigger] init[i]).blob.hash == h;
                assert(queue[i].blob.hash == h);
                let k = hashes(before).index_of(h);
                assert(hashes(firsts(queue))[k] == h);
            }
            if last.blob.hash == h {
                assert(queue[n].blob.hash == h);
                if !hashes(before).contains(h) {
                    assert(hashes(firsts(queue))[before.len() as int] == h);
                }
            }
            if hashes(firsts(queue)).contains(h) && !hashes(before).contains(h) {
                let k = hashes(firsts(queue)).index_of(h);
                if k < before.len() {
                    assert(hashes(before)[k] == h);
                }
            }
            if exists|i: int| 0 <= i < queue.len() && (#[trigger] queue[i]).blob.hash == h {
                let i = choose|i: int|
                    0 <= i < queue.len() && (#[trigger] queue[i]).blob.hash == h;
                if i < n {
                    assert(init[i].blob.hash == h);
                    assert(hashes(before).contains(h));
                }
            }
        }
    }
    let h = next.blob.hash;
    assert(hashes(firsts(queue)).contains(h) <==> exists|i: int|
        0 <= i < queue.len() && (#[trigger] queue[i]).blob.hash == h);
    if is_first(more, queue.len() as int) {
        if hashes(firsts(queue)).contains(h) {
            let i = choose|i: int| 0 <= i < queue.len() && (#[trigger] queue[i]).blob.hash == h;
            assert(more[i].blob.hash == h);
        }
    } else {
        let j = choose|j: int|
            0 <= j < queue.len() && (#[trigger] more[j]).blob.hash == h;
        assert(queue[j].blob.hash == h);
    }
}

/// Candidates free what they free together.
pub proof fn law_freed_adds_up(a: Seq<Candidate>, b: Seq<Candidate>, one: Candidate)
    ensures
        freed(Seq::empty()) == 0,
        freed(seq![one]) == one.blob.size,
        freed(a + b) == freed(a) + freed(b),
    decreases a.len(),
{
    assert(seq![one].skip(1) =~= Seq::empty());
    if a.len() == 0 {
        assert(a + b =~= b);
    } else {
        law_freed_adds_up(a.skip(1), b, one);
        assert((a + b).skip(1) =~= a.skip(1) + b);
    }
}

/// What is kept is every blob whose hash is not deleted, and no other, in order.
pub proof fn law_kept(a: Seq<Blob>, b: Seq<Blob>, blob: Blob, delete: Seq<BlobHash>)
    ensures
        kept(Seq::empty(), delete) == Seq::<Blob>::empty(),
        kept(seq![blob], delete) == if delete.contains(blob.hash) {
            Seq::<Blob>::empty()
        } else {
            seq![blob]
        },
        kept(a + b, delete) == kept(a, delete) + kept(b, delete),
    decreases b.len(),
{
    reveal_with_fuel(Seq::filter, 3);
    let one = seq![blob];
    assert(one.drop_last() =~= Seq::empty());
    assert(one.last() == blob);
    assert(stays(delete)(blob) == !delete.contains(blob.hash));
    if delete.contains(blob.hash) {
        assert(kept(one, delete) =~= Seq::<Blob>::empty());
    } else {
        assert(kept(one, delete) =~= one);
    }
    if b.len() == 0 {
        assert(a + b =~= a);
        assert(kept(a, delete) + kept(b, delete) =~= kept(a, delete));
    } else {
        law_kept(a, b.drop_last(), blob, delete);
        assert((a + b).drop_last() =~= a + b.drop_last());
        assert(kept(a + b, delete) =~= kept(a, delete) + kept(b, delete));
    }
}

/// A download is given up for want of storage only if everything that may be deleted is to be
/// deleted, and all of it together, each blob counted once, is less than what is needed.
pub proof fn law_given_up_only_for_want(
    tags: Seq<Dated>,
    blobs: Seq<Blob>,
    queue: Seq<Candidate>,
    needed: nat,
)
    requires
        by_age(queue, candidates(tags, blobs)),
    ensures
        ({
            let (delete, enough) = oldest(queue, needed);
            &&& enough <==> freed(firsts(queue)) >= needed
            &&& !enough ==> forall|t: Time| #[trigger]
                candidates(tags, blobs).contains_key(t) ==> delete.contains(
                    candidates(tags, blobs)[t].hash,
                )
        }),
{
    let (delete, enough) = oldest(queue, needed);
    let n = delete.len() as int;
    let all = firsts(queue);
    law_oldest_are_deleted(queue, needed);
    assert(all =~= all.take(n) + all.skip(n));
    if queue.len() > 0 {
        law_freed_adds_up(all.take(n), all.skip(n), queue[0]);
        law_first_candidates(queue, queue[0]);
    } else {
        assert(all.skip(n) =~= Seq::empty());
        assert(all.take(n) =~= all);
    }
    if !enough {
        assert(all.take(n) =~= all);
        assert forall|t: Time| #[trigger] candidates(tags, blobs).contains_key(t) implies
            delete.contains(candidates(tags, blobs)[t].hash) by {
            let i = choose|i: int| 0 <= i < queue.len() && queue[i].time == t;
            assert(queue[i].blob == candidates(tags, blobs)[t]);
            assert(hashes(all).contains(queue[i].blob.hash));
        }
    }
}

} // verus!
