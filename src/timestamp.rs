//! Capture times of camera frames, read from their file names.
use vstd::prelude::*;
use vstd::slice::slice_subrange;
use crate::names::{parse_unsigned, parse_unsigned_exec};

verus! {

/// Capture times of a camera frame, in milliseconds: wall-clock (UNIX) and
/// the camera system's own clock.
#[derive(Copy, Clone, Debug, PartialEq, Eq)]
pub struct Timestamp {
    pub unix: u64,
    pub os: u64,
}

/// Why a file name is not one of a camera frame.
#[derive(Copy, Clone, Debug, PartialEq, Eq)]
pub enum TimestampError {
    /// expected file with flif extension
    NotFlif,
    /// failed to extract file stem
    NoFileStem,
    /// incorrect filename pattern
    BadPattern,
}

/// The extension of a path as `std::path::Path::extension` gives it.
pub uninterp spec fn path_extension(path: Seq<char>) -> Option<Seq<u8>>;

/// The file stem of a path as `std::path::Path::file_stem` gives it.
pub uninterp spec fn path_file_stem(path: Seq<char>) -> Option<Seq<u8>>;

/// Relies on std::path::Path::extension: the part of the file name after its
/// last dot; it depends on the path alone.
#[verifier::external_body]
fn extension_of(path: &str) -> (r: Option<Vec<u8>>)
    ensures
        match r {
            Some(v) => path_extension(path@) == Some(v@),
            None => path_extension(path@) is None,
        },
{
    std::path::Path::new(path).extension().map(|e| e.as_encoded_bytes().to_vec())
}

/// Relies on std::path::Path::file_stem: the file name without its
/// extension; it depends on the path alone.
#[verifier::external_body]
fn file_stem_of(path: &str) -> (r: Option<Vec<u8>>)
    ensures
        match r {
            Some(v) => path_file_stem(path@) == Some(v@),
            None => path_file_stem(path@) is None,
        },
{
    std::path::Path::new(path).file_stem().map(|e| e.as_encoded_bytes().to_vec())
}

/// How often byte `b` occurs in `s`.
pub open spec fn count_byte(s: Seq<u8>, b: u8) -> nat
    decreases s.len(),
{
    if s.len() == 0 {
        0
    } else {
        count_byte(s.drop_last(), b) + if s.last() == b { 1nat } else { 0nat }
    }
}

/// The first index of byte `b` in `s` (`s.len()` where it does not occur).
pub open spec fn first_index(s: Seq<u8>, b: u8) -> int
    decreases s.len(),
{
    if s.len() == 0 {
        0
    } else if s[0] == b {
        0
    } else {
        1 + first_index(s.skip(1), b)
    }
}

/// The times that a file stem `UNIX_OS` gives: two unsigned numbers around one underscore.
pub open spec fn timestamp_of_stem(stem: Seq<u8>) -> Option<Timestamp> {
    if count_byte(stem, 0x5F) != 1 {
        None
    } else {
        let k = first_index(stem, 0x5F);
        match (
            parse_unsigned(stem.take(k), u64::MAX as nat),
            parse_unsigned(stem.skip(k + 1), u64::MAX as nat),
        ) {
            (Some(unix), Some(os)) => Some(Timestamp { unix: unix as u64, os: os as u64 }),
            _ => None,
        }
    }
}

/// The outcome of reading the times from a path.
pub open spec fn timestamp_spec(path: Seq<char>) -> Result<Timestamp, TimestampError> {
    if path_extension(path) != Some(seq![0x66u8, 0x6C, 0x69, 0x66]) {
        Err(TimestampError::NotFlif)
    } else {
        match path_file_stem(path) {
            None => Err(TimestampError::NoFileStem),
            Some(stem) => match timestamp_of_stem(stem) {
                Some(t) => Ok(t),
                None => Err(TimestampError::BadPattern),
            },
        }
    }
}

proof fn lemma_first_index(s: Seq<u8>, b: u8, i: int)
    requires
        0 <= i <= s.len(),
        forall|j: int| 0 <= j < i ==> s[j] != b,
        i < s.len() ==> s[i] == b,
    ensures
        first_index(s, b) == i,
    decreases s.len(),
{
    if s.len() > 0 && i > 0 {
        lemma_first_index(s.skip(1), b, i - 1);
    }
}

/// Reads the times from a file stem `UNIX_OS`.
pub fn parse_timestamp(stem: &[u8]) -> (r: Option<Timestamp>)
    ensures
        r == timestamp_of_stem(stem@),
{
    let mut count: usize = 0;
    let mut first: usize = stem.len();
    let mut i: usize = 0;
    while i < stem.len()
        invariant
            i <= stem@.len(),
            count == count_byte(stem@.take(i as int), 0x5F),
            count <= i,
            first <= stem@.len(),
            count == 0 ==> first == stem@.len() && forall|j: int| 0 <= j < i ==> stem@[j] != 0x5F,
            count > 0 ==> first < i && stem@[first as int] == 0x5F && forall|j: int|
                0 <= j < first ==> stem@[j] != 0x5F,
        decreases stem@.len() - i,
    {
        proof {
            assert(stem@.take(i + 1).drop_last() =~= stem@.take(i as int));
        }
        if stem[i] == 0x5F {
            if count == 0 {
                first = i;
            }
            count = count + 1;
        }
        i += 1;
    }
    proof {
        assert(stem@.take(stem@.len() as int) =~= stem@);
    }
    if count != 1 {
        return None;
    }
    proof {
        lemma_first_index(stem@, 0x5F, first as int);
    }
    let unix = parse_unsigned_exec(slice_subrange(stem, 0, first), u64::MAX);
    let os = parse_unsigned_exec(slice_subrange(stem, first + 1, stem.len()), u64::MAX);
    proof {
        assert(stem@.subrange(0, first as int) =~= stem@.take(first as int));
        assert(stem@.subrange(first + 1, stem@.len() as int) =~= stem@.skip(first + 1));
    }
    match (unix, os) {
        (Some(unix), Some(os)) => Some(Timestamp { unix, os }),
        _ => None,
    }
}

/// Reads the capture times from the path of a frame file `UNIX_OS.flif`.
pub fn get_timestamp(path: &str) -> (r: Result<Timestamp, TimestampError>)
    ensures
        r == timestamp_spec(path@),
{
    match extension_of(path) {
        Some(ext) => {
            if !(ext.len() == 4 && ext[0] == 0x66 && ext[1] == 0x6C && ext[2] == 0x69 && ext[3] == 0x66) {
                proof {
                    if ext@ == seq![0x66u8, 0x6C, 0x69, 0x66] {
                        assert(ext@[0] == 0x66);
                    }
                }
                return Err(TimestampError::NotFlif);
            }
            proof {
                assert(ext@ =~= seq![0x66u8, 0x6C, 0x69, 0x66]);
            }
        },
        None => {
            return Err(TimestampError::NotFlif);
        },
    }
    let file_name = match file_stem_of(path) {
        Some(stem) => stem,
        None => {
            return Err(TimestampError::NoFileStem);
        },
    };
    match parse_timestamp(file_name.as_slice()) {
        Some(ts) => Ok(ts),
        None => Err(TimestampError::BadPattern),
    }
}

} // verus!
