use vstd::prelude::*;
use crate::scan::{locate, locate_spec, LocateError, Scanner, MAX_DISTANCE};

verus! {

/// The window size a new set of options starts with.
pub const DEFAULT_WINDOW_SIZE: u32 = 2048;

/// The settings of a scan: the marker sought and the window size. Each read
/// takes two windows.
pub struct ConfReaderOptions {
    magic_bytes_opt: Vec<u8>,
    window_size_opt: u32,
}

impl ConfReaderOptions {
    /// The marker sought.
    pub closed spec fn magic(&self) -> Seq<u8> {
        self.magic_bytes_opt@
    }

    /// The window size.
    pub closed spec fn window(&self) -> nat {
        self.window_size_opt as nat
    }

    /// Settings that a scan can run with: a non-empty marker and a positive window.
    pub open spec fn valid(&self) -> bool {
        self.magic().len() > 0 && self.window() > 0
    }

    /// Options with the marker `bytes` and a window of 2048 bytes.
    pub fn new(bytes: Vec<u8>) -> (r: Self)
        ensures
            r.magic() == bytes@,
            r.window() == DEFAULT_WINDOW_SIZE,
    {
        ConfReaderOptions { magic_bytes_opt: bytes, window_size_opt: DEFAULT_WINDOW_SIZE }
    }

    /// Replaces the marker.
    pub fn magic_bytes(&mut self, bytes: Vec<u8>) -> (r: &mut Self)
        ensures
            r.magic() == bytes@,
            r.window() == old(self).window(),
            *final(self) == *final(r),
    {
        self.magic_bytes_opt = bytes;
        self
    }

    /// Replaces the window size.
    pub fn window_size(&mut self, size: u32) -> (r: &mut Self)
        ensures
            r.magic() == old(self).magic(),
            r.window() == size,
            *final(self) == *final(r),
    {
        self.window_size_opt = size;
        self
    }

    /// Whether a scan can run with these settings.
    pub fn is_valid(&self) -> (r: bool)
        ensures
            r == self.valid(),
    {
        self.magic_bytes_opt.len() > 0 && self.window_size_opt > 0
    }

    /// A scan with these settings, positioned for its first read.
    pub fn scanner(&self) -> (r: Scanner)
        requires
            self.valid(),
        ensures
            r.wf(),
            r.marker() == self.magic(),
            r.window() == self.window(),
            r.distance() == 2 * self.window(),
    {
        Scanner::new(self.magic_bytes_opt.clone(), self.window_size_opt as u64)
    }

    /// Scans `input` with these settings and returns the bytes that follow the marker.
    pub fn read(&self, input: &[u8]) -> (r: Result<Vec<u8>, LocateError>)
        requires
            self.valid(),
            input@.len() <= MAX_DISTANCE,
        ensures
            match r {
                Ok(payload) => locate_spec(input@, self.magic(), self.window()) == Some(payload@),
                Err(e) => e == LocateError::MarkerNotFound && locate_spec(
                    input@,
                    self.magic(),
                    self.window(),
                ) == None::<Seq<u8>>,
            },
    {
        locate(input, self.magic_bytes_opt.as_slice(), self.window_size_opt as u64)
    }
}

} // verus!
