use vstd::prelude::*;
use vstd::slice::{slice_subrange, slice_to_vec};
use crate::search::{find_marker, first_match, lemma_first_match, matches_at};

verus! {

/// The farthest a seek can reach back from the end of a stream (`i64::MAX`).
pub const MAX_DISTANCE: u64 = 9223372036854775807;

/// The failure of a scan that reached the start of the stream without meeting the marker.
#[derive(Debug, Clone, Copy, PartialEq, Eq, Structural)]
pub enum LocateError {
    MarkerNotFound,
}

/// What a scan does after looking at the bytes of one read.
#[derive(Debug, Clone, Copy, PartialEq, Eq, Structural)]
pub enum Step {
    /// The read came up short of a window: the start of the stream was reached.
    NotFound,
    /// The marker was met: the payload is this many bytes at the end of the stream.
    Found(u64),
    /// No marker in this read: read again one window further back.
    Continue,
}

/// The decision taken on `read`, the bytes read after seeking `distance` bytes
/// back from the end of the stream.
pub open spec fn step_spec(marker: Seq<u8>, window: nat, distance: nat, read: Seq<u8>) -> Step {
    if read.len() < window {
        Step::NotFound
    } else {
        match first_match(read, marker) {
            Some(pos) => Step::Found((distance - pos - marker.len()) as u64),
            None => Step::Continue,
        }
    }
}

/// Decides what follows a read of `read`, taken `distance` bytes back from the end
/// of the stream: the short read ends the scan, the first occurrence of `marker`
/// gives the payload's length, and otherwise the scan goes on.
pub fn scan_window(marker: &[u8], window_size: u64, distance: u64, read: &[u8]) -> (r: Step)
    requires
        marker@.len() > 0,
        read@.len() <= distance,
    ensures
        r == step_spec(marker@, window_size as nat, distance as nat, read@),
{
    if (read.len() as u64) < window_size {
        return Step::NotFound;
    }
    proof {
        lemma_first_match(read@, marker@);
    }
    match find_marker(read, marker) {
        Some(pos) => Step::Found(distance - pos as u64 - marker.len() as u64),
        None => Step::Continue,
    }
}

/// The state of a backward scan over a stream: the marker sought, the window
/// size, and how far back from the end of the stream the next read starts.
pub struct Scanner {
    marker: Vec<u8>,
    window: u64,
    distance: u64,
}

impl Scanner {
    /// The marker sought.
    pub closed spec fn marker(&self) -> Seq<u8> {
        self.marker@
    }

    /// The window size.
    pub closed spec fn window(&self) -> nat {
        self.window as nat
    }

    /// How far back from the end of the stream the next read starts.
    pub closed spec fn distance(&self) -> nat {
        self.distance as nat
    }

    /// A non-empty marker, a positive window, and a read position at least two
    /// windows back that a seek can reach.
    pub open spec fn wf(&self) -> bool {
        &&& self.marker().len() > 0
        &&& self.window() > 0
        &&& 2 * self.window() <= self.distance() <= MAX_DISTANCE
    }

    /// Starts a scan whose first read takes the last two windows of the stream.
    pub fn new(marker: Vec<u8>, window_size: u64) -> (r: Scanner)
        requires
            marker@.len() > 0,
            0 < window_size,
            2 * window_size <= MAX_DISTANCE,
        ensures
            r.wf(),
            r.marker() == marker@,
            r.window() == window_size,
            r.distance() == 2 * window_size,
    {
        Scanner { marker, window: window_size, distance: 2 * window_size }
    }

    /// How far back from the end of the stream to seek before the next read.
    pub fn seek_distance(&self) -> (r: u64)
        ensures
            r == self.distance(),
    {
        self.distance
    }

    /// How many bytes the next read asks for: two windows.
    pub fn read_len(&self) -> (r: u64)
        requires
            self.wf(),
        ensures
            r == 2 * self.window(),
    {
        2 * self.window
    }

    /// Takes the bytes of one read, made at `seek_distance`, and decides what
    /// comes next. On `Continue` the next read starts one window further back;
    /// where that lies beyond any seek, the scan ends with `NotFound`.
    pub fn step(&mut self, read: &[u8]) -> (r: Step)
        requires
            old(self).wf(),
            read@.len() <= 2 * old(self).window(),
        ensures
            final(self).wf(),
            final(self).marker() == old(self).marker(),
            final(self).window() == old(self).window(),
            r == (if step_spec(old(self).marker(), old(self).window(), old(self).distance(), read@)
                == Step::Continue && old(self).distance() + old(self).window() > MAX_DISTANCE {
                Step::NotFound
            } else {
                step_spec(old(self).marker(), old(self).window(), old(self).distance(), read@)
            }),
            final(self).distance() == (if r == Step::Continue {
                old(self).distance() + old(self).window()
            } else {
                old(self).distance()
            }),
    {
        let r = scan_window(self.marker.as_slice(), self.window, self.distance, read);
        match r {
            Step::Continue => {
                if self.distance > MAX_DISTANCE - self.window {
                    Step::NotFound
                } else {
                    self.distance = self.distance + self.window;
                    Step::Continue
                }
            },
            _ => r,
        }
    }
}

/// The bytes that a read of at most `len` bytes returns after a seek to `distance`
/// bytes before the end of `s`: nothing where that lies before the start of `s`.
pub open spec fn read_back(s: Seq<u8>, distance: nat, len: nat) -> Seq<u8> {
    if distance > s.len() {
        Seq::empty()
    } else if len <= distance {
        s.subrange(s.len() - distance, s.len() - distance + len)
    } else {
        s.subrange(s.len() - distance, s.len() as int)
    }
}

/// The outcome of a scan of `s` whose next read starts `distance` bytes before
/// the end: the bytes that follow the first marker met, or `None` when the scan
/// reaches the start of `s` first.
pub open spec fn scan_from(s: Seq<u8>, marker: Seq<u8>, window: nat, distance: nat) -> Option<
    Seq<u8>,
>
    decreases s.len() + window + 1 - distance,
{
    if window == 0 || distance > s.len() {
        None
    } else {
        let read = read_back(s, distance, 2 * window);
        if read.len() < window {
            None
        } else {
            match first_match(read, marker) {
                Some(pos) => Some(
                    s.subrange(s.len() - distance + pos + marker.len(), s.len() as int),
                ),
                None => scan_from(s, marker, window, distance + window),
            }
        }
    }
}

/// The payload found in `s` by a scan for `marker` with windows of `window`
/// bytes, whose first read takes the last two windows.
pub open spec fn locate_spec(s: Seq<u8>, marker: Seq<u8>, window: nat) -> Option<Seq<u8>> {
    scan_from(s, marker, window, 2 * window)
}

/// Scans `stream` backward from its end for `marker`, two windows of
/// `window_size` bytes at a time, and returns the bytes that follow the marker.
pub fn locate(stream: &[u8], marker: &[u8], window_size: u64) -> (r: Result<Vec<u8>, LocateError>)
    requires
        marker@.len() > 0,
        window_size > 0,
        stream@.len() <= MAX_DISTANCE,
    ensures
        match r {
            Ok(payload) => locate_spec(stream@, marker@, window_size as nat) == Some(payload@),
            Err(e) => e == LocateError::MarkerNotFound && locate_spec(
                stream@,
                marker@,
                window_size as nat,
            ) == None::<Seq<u8>>,
        },
{
    let len: u64 = stream.len() as u64;
    if window_size > MAX_DISTANCE / 2 {
        return Err(LocateError::MarkerNotFound);
    }
    let mut scanner = Scanner::new(slice_to_vec(marker), window_size);
    loop
        invariant
            scanner.wf(),
            scanner.marker() == marker@,
            scanner.window() == window_size,
            len == stream@.len(),
            len <= MAX_DISTANCE,
            scanner.distance() <= len + 2 * window_size,
            scan_from(stream@, marker@, window_size as nat, scanner.distance())
                == locate_spec(stream@, marker@, window_size as nat),
        decreases len + 2 * window_size - scanner.distance(),
    {
        let d = scanner.seek_distance();
        let read: &[u8] = if d > len {
            slice_subrange(stream, 0, 0)
        } else {
            let start: usize = stream.len() - d as usize;
            let two: usize = (2 * window_size) as usize;
            slice_subrange(stream, start, start + two)
        };
        assert(read@ == read_back(stream@, d as nat, 2 * window_size as nat));
        match scanner.step(read) {
            Step::NotFound => {
                assert(scan_from(stream@, marker@, window_size as nat, (d + window_size) as nat)
                    == None::<Seq<u8>>);
                return Err(LocateError::MarkerNotFound);
            },
            Step::Found(n) => {
                proof {
                    lemma_first_match(read@, marker@);
                }
                let payload = slice_to_vec(slice_subrange(stream, (len - n) as usize, len as usize));
                return Ok(payload);
            },
            Step::Continue => {},
        }
    }
}

/// An occurrence of `marker` in a read is an occurrence in the stream, shifted by
/// the read's start; and one in the stream that lies inside the read is one in it.
proof fn lemma_read_match(s: Seq<u8>, marker: Seq<u8>, distance: nat, len: nat, k: int)
    requires
        distance <= s.len(),
    ensures
        matches_at(read_back(s, distance, len), marker, k) ==> matches_at(
            s,
            marker,
            s.len() - distance + k,
        ),
        (0 <= k && k + marker.len() <= read_back(s, distance, len).len() && matches_at(
            s,
            marker,
            s.len() - distance + k,
        )) ==> matches_at(read_back(s, distance, len), marker, k),
{
    let read = read_back(s, distance, len);
    let start = s.len() - distance;
    if 0 <= k && k + marker.len() <= read.len() {
        assert(read.subrange(k, k + marker.len()) =~= s.subrange(
            start + k,
            start + k + marker.len(),
        ));
    }
}

/// A scan that starts past every read holding a match, and no further back than
/// the first read that holds the only occurrence at `q`, returns what follows it.
proof fn lemma_scan_unique(s: Seq<u8>, marker: Seq<u8>, window: nat, distance: nat, q: int)
    requires
        marker.len() > 0,
        window >= marker.len(),
        window <= q,
        q + marker.len() <= s.len(),
        2 * window <= s.len(),
        forall|k: int| matches_at(s, marker, k) ==> k == q,
        matches_at(s, marker, q),
        2 * window <= distance,
        distance == 2 * window || distance < s.len() - q + window,
    ensures
        scan_from(s, marker, window, distance) == Some(s.subrange(q + marker.len(), s.len() as int)),
    decreases s.len() - distance,
{
    let start = s.len() - distance;
    assert(distance <= s.len());
    let read = read_back(s, distance, 2 * window);
    assert(read.len() == 2 * window);
    lemma_first_match(read, marker);
    if start > q {
        match first_match(read, marker) {
            Some(p) => {
                lemma_read_match(s, marker, distance, 2 * window, p);
            },
            None => {},
        }
        lemma_scan_unique(s, marker, window, distance + window, q);
    } else {
        let p0 = q - start;
        lemma_read_match(s, marker, distance, 2 * window, p0);
        match first_match(read, marker) {
            Some(p) => {
                lemma_read_match(s, marker, distance, 2 * window, p);
            },
            None => {},
        }
    }
}

/// A stream laid out as `prefix ++ marker ++ payload`, in which the marker occurs
/// only once, yields `payload` for every window at least as long as the marker,
/// once a full window precedes the marker and the stream holds two windows.
pub proof fn lemma_locate_unique_marker(
    prefix: Seq<u8>,
    marker: Seq<u8>,
    payload: Seq<u8>,
    window: nat,
)
    requires
        marker.len() > 0,
        window >= marker.len(),
        prefix.len() >= window,
        prefix.len() + marker.len() + payload.len() >= 2 * window,
        forall|k: int| matches_at(prefix + marker + payload, marker, k) ==> k == prefix.len(),
    ensures
        locate_spec(prefix + marker + payload, marker, window) == Some(payload),
{
    let s = prefix + marker + payload;
    let q = prefix.len() as int;
    assert(s.subrange(q, q + marker.len()) =~= marker);
    lemma_scan_unique(s, marker, window, 2 * window, q);
    assert(s.subrange(q + marker.len(), s.len() as int) =~= payload);
}

/// Where `marker` occurs nowhere in `s`, a scan from any position reaches the
/// start of `s` and reports the marker missing.
proof fn lemma_scan_absent(s: Seq<u8>, marker: Seq<u8>, window: nat, distance: nat)
    requires
        forall|k: int| !matches_at(s, marker, k),
    ensures
        scan_from(s, marker, window, distance) == None::<Seq<u8>>,
    decreases s.len() + window + 1 - distance,
{
    if window == 0 || distance > s.len() {
    } else {
        let read = read_back(s, distance, 2 * window);
        lemma_first_match(read, marker);
        match first_match(read, marker) {
            Some(p) => {
                lemma_read_match(s, marker, distance, 2 * window, p);
            },
            None => {
                lemma_scan_absent(s, marker, window, distance + window);
            },
        }
    }
}

/// Where `marker` occurs nowhere in the stream, the scan ends at the start of the
/// stream with the marker reported missing.
pub proof fn lemma_locate_absent_marker(s: Seq<u8>, marker: Seq<u8>, window: nat)
    requires
        forall|k: int| !matches_at(s, marker, k),
    ensures
        locate_spec(s, marker, window) == None::<Seq<u8>>,
{
    lemma_scan_absent(s, marker, window, 2 * window);
}

} // verus!
