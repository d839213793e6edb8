//! Frame synchronisation of the raw byte stream read from the hydrophone.
//!
//! Every valid recording frame starts with a fixed marker. A buffer is cut
//! at the first and the last marker it holds: the bytes between them are the
//! clean frames, the bytes from the last marker on are carried into the next
//! window, where they are scanned again.
use vstd::prelude::*;
use vstd::slice::{slice_subrange, slice_to_vec};

verus! {

/// The marker occurs in `buf` starting at index `i`.
pub open spec fn marker_at(buf: Seq<u8>, marker: Seq<u8>, i: int) -> bool {
    &&& 0 <= i
    &&& i + marker.len() <= buf.len()
    &&& forall|j: int| 0 <= j < marker.len() ==> #[trigger] buf[i + j] == marker[j]
}

/// `i` is the first position at which the marker occurs.
pub open spec fn is_first_marker(buf: Seq<u8>, marker: Seq<u8>, i: int) -> bool {
    &&& marker_at(buf, marker, i)
    &&& forall|j: int| 0 <= j < i ==> !#[trigger] marker_at(buf, marker, j)
}

/// `i` is the last position at which the marker occurs.
pub open spec fn is_last_marker(buf: Seq<u8>, marker: Seq<u8>, i: int) -> bool {
    &&& marker_at(buf, marker, i)
    &&& forall|j: int| i < j ==> !#[trigger] marker_at(buf, marker, j)
}

/// The buffer holds two occurrences of the marker, one after the other.
pub open spec fn framed(buf: Seq<u8>, marker: Seq<u8>) -> bool {
    exists|a: int, b: int| a < b && #[trigger] marker_at(buf, marker, a) && #[trigger] marker_at(buf, marker, b)
}

pub open spec fn first_marker(buf: Seq<u8>, marker: Seq<u8>) -> int {
    choose|i: int| is_first_marker(buf, marker, i)
}

pub open spec fn last_marker(buf: Seq<u8>, marker: Seq<u8>) -> int {
    choose|i: int| is_last_marker(buf, marker, i)
}

/// The clean region and the remainder of a buffer. Where the buffer holds
/// fewer than two markers, the whole buffer passes as clean and nothing
/// remains.
pub open spec fn synchronized(buf: Seq<u8>, marker: Seq<u8>) -> (Seq<u8>, Seq<u8>) {
    if framed(buf, marker) {
        let a = first_marker(buf, marker);
        let b = last_marker(buf, marker);
        (buf.subrange(a, b), buf.subrange(b, buf.len() as int))
    } else {
        (buf, Seq::empty())
    }
}

proof fn lemma_first_unique(buf: Seq<u8>, marker: Seq<u8>, a: int)
    requires
        is_first_marker(buf, marker, a),
    ensures
        first_marker(buf, marker) == a,
{
    let c = first_marker(buf, marker);
    assert(is_first_marker(buf, marker, c));
    if c < a {
        assert(!marker_at(buf, marker, c));
    }
    if a < c {
        assert(!marker_at(buf, marker, a));
    }
}

proof fn lemma_last_unique(buf: Seq<u8>, marker: Seq<u8>, b: int)
    requires
        is_last_marker(buf, marker, b),
    ensures
        last_marker(buf, marker) == b,
{
    let c = last_marker(buf, marker);
    assert(is_last_marker(buf, marker, c));
    if c < b {
        assert(!marker_at(buf, marker, b));
    }
    if b < c {
        assert(!marker_at(buf, marker, c));
    }
}

/// With the first and the last marker known, the buffer is framed exactly
/// when the last one stands after the first, and the cut is made at them.
proof fn lemma_cut_at(buf: Seq<u8>, marker: Seq<u8>, a: int, b: int)
    requires
        is_first_marker(buf, marker, a),
        is_last_marker(buf, marker, b),
    ensures
        framed(buf, marker) <==> a < b,
        first_marker(buf, marker) == a,
        last_marker(buf, marker) == b,
{
    lemma_first_unique(buf, marker, a);
    lemma_last_unique(buf, marker, b);
    if framed(buf, marker) {
        let (x, y) = choose|x: int, y: int|
            x < y && #[trigger] marker_at(buf, marker, x) && #[trigger] marker_at(buf, marker, y);
        if x < a {
            assert(!marker_at(buf, marker, x));
        }
        if b < y {
            assert(!marker_at(buf, marker, y));
        }
    }
    if a < b {
        assert(marker_at(buf, marker, a) && marker_at(buf, marker, b));
    }
}

proof fn lemma_first_exists(buf: Seq<u8>, marker: Seq<u8>, k: int)
    requires
        marker_at(buf, marker, k),
    ensures
        is_first_marker(buf, marker, first_marker(buf, marker)),
    decreases k,
{
    if forall|j: int| 0 <= j < k ==> !#[trigger] marker_at(buf, marker, j) {
        assert(is_first_marker(buf, marker, k));
    } else {
        let j = choose|j: int| 0 <= j < k && #[trigger] marker_at(buf, marker, j);
        lemma_first_exists(buf, marker, j);
    }
}

proof fn lemma_last_exists(buf: Seq<u8>, marker: Seq<u8>, k: int)
    requires
        marker_at(buf, marker, k),
    ensures
        is_last_marker(buf, marker, last_marker(buf, marker)),
    decreases buf.len() - k,
{
    if forall|j: int| k < j ==> !#[trigger] marker_at(buf, marker, j) {
        assert(is_last_marker(buf, marker, k));
    } else {
        let j = choose|j: int| k < j && #[trigger] marker_at(buf, marker, j);
        lemma_last_exists(buf, marker, j);
    }
}

/// A buffer that holds the marker at `a` and at `b > a`, and nowhere else,
/// yields the slice `[a, b)` as clean frames and `[b, end)` as remainder.
pub proof fn lemma_two_markers(buf: Seq<u8>, marker: Seq<u8>, a: int, b: int)
    requires
        a < b,
        marker_at(buf, marker, a),
        marker_at(buf, marker, b),
        forall|i: int| #[trigger] marker_at(buf, marker, i) ==> i == a || i == b,
    ensures
        synchronized(buf, marker) == (buf.subrange(a, b), buf.subrange(b, buf.len() as int)),
{
    lemma_cut_at(buf, marker, a, b);
}

/// A buffer that holds the marker at most once passes whole as clean
/// output, with an empty remainder.
pub proof fn lemma_at_most_one_marker(buf: Seq<u8>, marker: Seq<u8>)
    requires
        forall|i: int, j: int|
            #[trigger] marker_at(buf, marker, i) && #[trigger] marker_at(buf, marker, j) ==> i == j,
    ensures
        synchronized(buf, marker) == (buf, Seq::<u8>::empty()),
{
}

/// The clean region followed by the remainder is the buffer from its first
/// marker on, and the remainder starts with a marker, so that the next
/// window scans it again.
pub proof fn lemma_nothing_lost(buf: Seq<u8>, marker: Seq<u8>)
    requires
        framed(buf, marker),
    ensures
        synchronized(buf, marker).0 + synchronized(buf, marker).1 == buf.subrange(
            first_marker(buf, marker),
            buf.len() as int,
        ),
        marker_at(synchronized(buf, marker).1, marker, 0),
{
    let (x, y) = choose|x: int, y: int|
        x < y && #[trigger] marker_at(buf, marker, x) && #[trigger] marker_at(buf, marker, y);
    lemma_first_exists(buf, marker, x);
    lemma_last_exists(buf, marker, x);
    let a = first_marker(buf, marker);
    let b = last_marker(buf, marker);
    lemma_cut_at(buf, marker, a, b);
    let r = synchronized(buf, marker);
    assert(r.0 + r.1 =~= buf.subrange(a, buf.len() as int));
    assert forall|j: int| 0 <= j < marker.len() implies #[trigger] r.1[0 + j] == marker[j] by {
        assert(buf[b + j] == marker[j]);
    }
}

/// A buffer that starts with a marker is given back whole, split between
/// the clean output and the remainder.
proof fn lemma_starts_with_marker(buf: Seq<u8>, marker: Seq<u8>)
    requires
        marker_at(buf, marker, 0),
    ensures
        synchronized(buf, marker).0 + synchronized(buf, marker).1 == buf,
{
    assert(is_first_marker(buf, marker, 0));
    if framed(buf, marker) {
        lemma_first_unique(buf, marker, 0);
        lemma_nothing_lost(buf, marker);
        assert(buf.subrange(0, buf.len() as int) =~= buf);
    } else {
        assert(buf + Seq::<u8>::empty() =~= buf);
    }
}

/// Over two windows, where the remainder of the first is carried in front of
/// the bytes read next, the two clean outputs and the last remainder give
/// back, in order, everything from the first marker on.
pub proof fn lemma_carry_keeps_stream(prev: Seq<u8>, more: Seq<u8>, marker: Seq<u8>)
    requires
        framed(prev, marker),
    ensures
        ({
            let (o1, r1) = synchronized(prev, marker);
            let (o2, r2) = synchronized(r1 + more, marker);
            o1 + o2 + r2 == prev.subrange(first_marker(prev, marker), prev.len() as int) + more
        }),
{
    let (o1, r1) = synchronized(prev, marker);
    lemma_nothing_lost(prev, marker);
    let x = r1 + more;
    assert forall|j: int| 0 <= j < marker.len() implies #[trigger] x[0 + j] == marker[j] by {
        assert(r1[0 + j] == marker[j]);
    }
    lemma_starts_with_marker(x, marker);
    let (o2, r2) = synchronized(x, marker);
    assert(o1 + o2 + r2 =~= o1 + (o2 + r2));
    assert(o1 + r1 + more =~= o1 + (r1 + more));
}

/// Whether the marker occurs in `buf` at index `i`.
fn marker_matches(buf: &[u8], marker: &[u8], i: usize) -> (r: bool)
    requires
        i + marker@.len() <= buf@.len(),
    ensures
        r == marker_at(buf@, marker@, i as int),
{
    let n: usize = buf.len();
    let mut j: usize = 0;
    while j < marker.len()
        invariant
            n == buf@.len(),
            j <= marker@.len(),
            i + marker@.len() <= buf@.len(),
            forall|k: int| 0 <= k < j ==> #[trigger] buf@[i + k] == marker@[k],
        decreases marker@.len() - j,
    {
        if buf[i + j] != marker[j] {
            assert(buf@[i + j as int] != marker@[j as int]);
            return false;
        }
        j = j + 1;
    }
    true
}

/// The position of the first occurrence of `target_buf` in `search_buf`.
pub fn find_first(search_buf: &[u8], target_buf: &[u8]) -> (r: Option<usize>)
    ensures
        match r {
            Some(i) => is_first_marker(search_buf@, target_buf@, i as int),
            None => forall|i: int| !#[trigger] marker_at(search_buf@, target_buf@, i),
        },
{
    if target_buf.len() > search_buf.len() {
        return None;
    }
    let last: usize = search_buf.len() - target_buf.len();
    let mut i: usize = 0;
    loop
        invariant
            last + target_buf@.len() == search_buf@.len(),
            i <= last,
            forall|j: int| 0 <= j < i ==> !#[trigger] marker_at(search_buf@, target_buf@, j),
        decreases last - i,
    {
        if marker_matches(search_buf, target_buf, i) {
            return Some(i);
        }
        if i == last {
            return None;
        }
        i = i + 1;
    }
}

/// The position of the last occurrence of `target_buf` in `search_buf`.
pub fn find_last(search_buf: &[u8], target_buf: &[u8]) -> (r: Option<usize>)
    ensures
        match r {
            Some(i) => is_last_marker(search_buf@, target_buf@, i as int),
            None => forall|i: int| !#[trigger] marker_at(search_buf@, target_buf@, i),
        },
{
    if target_buf.len() > search_buf.len() {
        return None;
    }
    let mut i: usize = search_buf.len() - target_buf.len();
    loop
        invariant
            i + target_buf@.len() <= search_buf@.len(),
            forall|j: int| i < j ==> !#[trigger] marker_at(search_buf@, target_buf@, j),
        decreases i,
    {
        if marker_matches(search_buf, target_buf, i) {
            return Some(i);
        }
        if i == 0 {
            return None;
        }
        i = i - 1;
    }
}

/// Cuts `buf` at the first and the last `header` it holds: the frames in
/// between, and the bytes from the last header on.
pub fn clean_x3_data(buf: &[u8], header: &[u8]) -> (r: (Vec<u8>, Vec<u8>))
    ensures
        (r.0@, r.1@) == synchronized(buf@, header@),
{
    let start = match find_first(buf, header) {
        Some(p) => p,
        None => {
            assert(!framed(buf@, header@));
            return (slice_to_vec(buf), Vec::new());
        },
    };
    let end = match find_last(buf, header) {
        Some(p) => p,
        None => {
            assert(!marker_at(buf@, header@, start as int));
            return (slice_to_vec(buf), Vec::new());
        },
    };
    proof {
        lemma_cut_at(buf@, header@, start as int, end as int);
    }
    if end <= start {
        return (slice_to_vec(buf), Vec::new());
    }
    let clean = slice_to_vec(slice_subrange(buf, start, end));
    let rest = slice_to_vec(slice_subrange(buf, end, buf.len()));
    (clean, rest)
}

} // verus!
