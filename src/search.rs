use vstd::prelude::*;

verus! {

/// `marker` occurs in `buf` starting at offset `k`.
pub open spec fn matches_at(buf: Seq<u8>, marker: Seq<u8>, k: int) -> bool {
    0 <= k && k + marker.len() <= buf.len() && buf.subrange(k, k + marker.len()) == marker
}

/// The lowest offset at or after `k` where `marker` occurs in `buf`.
pub open spec fn first_match_from(buf: Seq<u8>, marker: Seq<u8>, k: int) -> Option<int>
    decreases buf.len() + 1 - k,
{
    if k < 0 || k + marker.len() > buf.len() {
        None
    } else if matches_at(buf, marker, k) {
        Some(k)
    } else {
        first_match_from(buf, marker, k + 1)
    }
}

/// The lowest offset where `marker` occurs in `buf`, if it occurs at all.
pub open spec fn first_match(buf: Seq<u8>, marker: Seq<u8>) -> Option<int> {
    first_match_from(buf, marker, 0)
}

/// `first_match_from` finds the lowest occurrence at or after `k`, and nothing
/// when there is none.
pub proof fn lemma_first_match_from(buf: Seq<u8>, marker: Seq<u8>, k: int)
    requires
        0 <= k,
    ensures
        match first_match_from(buf, marker, k) {
            Some(p) => k <= p && matches_at(buf, marker, p) && forall|j: int|
                k <= j < p ==> !matches_at(buf, marker, j),
            None => forall|j: int| k <= j ==> !matches_at(buf, marker, j),
        },
    decreases buf.len() + 1 - k,
{
    if k + marker.len() > buf.len() {
    } else if matches_at(buf, marker, k) {
    } else {
        lemma_first_match_from(buf, marker, k + 1);
    }
}

/// `first_match` is the lowest occurrence of `marker` in `buf`.
pub proof fn lemma_first_match(buf: Seq<u8>, marker: Seq<u8>)
    ensures
        match first_match(buf, marker) {
            Some(p) => matches_at(buf, marker, p) && forall|j: int|
                0 <= j < p ==> !matches_at(buf, marker, j),
            None => forall|j: int| !matches_at(buf, marker, j),
        },
{
    lemma_first_match_from(buf, marker, 0);
}

/// Compares `marker` with the bytes of `buf` starting at `k`.
fn matches_at_exec(buf: &[u8], marker: &[u8], k: usize) -> (r: bool)
    requires
        k + marker.len() <= buf.len(),
    ensures
        r == matches_at(buf@, marker@, k as int),
{
    let mut j: usize = 0;
    while j < marker.len()
        invariant
            k + marker.len() <= buf.len(),
            0 <= j <= marker@.len(),
            forall|t: int| 0 <= t < j ==> buf@[k + t] == marker@[t],
        decreases marker@.len() - j,
    {
        if buf[k + j] != marker[j] {
            assert(buf@.subrange(k as int, k + marker@.len())[j as int] != marker@[j as int]);
            return false;
        }
        j += 1;
    }
    assert(buf@.subrange(k as int, k + marker@.len()) =~= marker@);
    true
}

/// Finds the lowest offset at which `marker` occurs in `buf`.
pub fn find_marker(buf: &[u8], marker: &[u8]) -> (r: Option<usize>)
    requires
        marker@.len() > 0,
    ensures
        r == match first_match(buf@, marker@) {
            Some(p) => Some(p as usize),
            None => None::<usize>,
        },
        match r {
            Some(p) => matches_at(buf@, marker@, p as int) && forall|j: int|
                0 <= j < p ==> !matches_at(buf@, marker@, j),
            None => forall|j: int| !matches_at(buf@, marker@, j),
        },
{
    proof {
        lemma_first_match(buf@, marker@);
    }
    if marker.len() > buf.len() {
        return None;
    }
    let mut k: usize = 0;
    while marker.len() <= buf.len() - k
        invariant
            marker@.len() > 0,
            0 <= k <= buf.len(),
            first_match(buf@, marker@) == first_match_from(buf@, marker@, k as int),
        decreases buf@.len() - k,
    {
        if matches_at_exec(buf, marker, k) {
            assert(first_match_from(buf@, marker@, k as int) == Some(k as int));
            proof {
                lemma_first_match(buf@, marker@);
            }
            return Some(k);
        }
        k += 1;
    }
    assert(first_match_from(buf@, marker@, k as int) == None::<int>);
    None
}

} // verus!
