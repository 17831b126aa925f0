//! Orchestration helpers: the worker-pool budget, one-up sequence numbers,
//! and the numbering of delivered songs.

use vstd::prelude::*;

use crate::structs::Song;
use crate::structs::SongWithLen;

verus! {

/// The worker-pool size for a thread hint: a non-positive hint means all
/// cores, and a hint above the core count is clamped down to it.
pub open spec fn clamped_threads(threads: int, cpus: int) -> int {
    if threads <= 0 {
        cpus
    } else if threads > cpus {
        cpus
    } else {
        threads
    }
}

/// Exec clamp of the thread hint, exact against [`clamped_threads`].
pub fn thread_count(threads: i32, cpus: usize) -> (r: usize)
    requires
        cpus >= 1,
    ensures
        r == clamped_threads(threads as int, cpus as int),
        1 <= r <= cpus,
{
    if threads <= 0 {
        cpus
    } else if threads as usize > cpus {
        cpus
    } else {
        threads as usize
    }
}

/// One-up sequence numbers: each call returns the counter's value and
/// advances it by one.
pub fn get_id(counter: &mut u32) -> (r: u32)
    requires
        *old(counter) < u32::MAX,
    ensures
        r == *old(counter),
        *final(counter) == *old(counter) + 1,
{
    let v = *counter;
    *counter = *counter + 1;
    v
}

/// Wrap one scanned song for delivery: `current` is drawn from the counter,
/// which advances by one, and `size` is the scan's total.
pub fn number_song(song: Song, total: u32, counter: &mut u32) -> (s: SongWithLen)
    requires
        *old(counter) < u32::MAX,
    ensures
        s.song == song,
        s.size == total,
        s.current == *old(counter),
        *final(counter) == *old(counter) + 1,
{
    SongWithLen { song, size: total, current: get_id(counter) }
}

/// The `current` values a scan of `n` songs delivers, in delivery order: the
/// counter starts at one and advances once per song.
pub open spec fn delivery_currents(n: int) -> Seq<int> {
    Seq::new(n as nat, |i: int| i + 1)
}

/// The numbering scheme delivers `1, 2, ..., n` exactly once each: the
/// currents repeat no value, and the values delivered are exactly those
/// between 1 and the total.
pub proof fn lemma_numbering_covers(n: int)
    requires
        0 <= n,
    ensures
        delivery_currents(n).no_duplicates(),
        forall|v: int| delivery_currents(n).contains(v) <==> 1 <= v <= n,
{
    let s = delivery_currents(n);
    assert forall|v: int| s.contains(v) <==> 1 <= v <= n by {
        if 1 <= v <= n {
            assert(s[v - 1] == v);
            assert(s.contains(v));
        }
        if s.contains(v) {
            let i = choose|i: int| 0 <= i < s.len() && s[i] == v;
        }
    }
}

} // verus!
