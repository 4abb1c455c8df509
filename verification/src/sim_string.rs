//! Fixed-size text fields of the native telemetry record.

use crate::text::{lemma_encoded_text, utf8_text};
use vstd::prelude::*;
use vstd::slice::slice_subrange;
use vstd::utf8::{decode_utf8, valid_utf8};

verus! {

/// Why a fixed-size field holds no text.
#[derive(Clone, Copy, Debug, PartialEq, Eq, Structural)]
pub enum SimStringError {
    /// The bytes before the first zero byte are not valid UTF-8.
    Utf8Error,
    /// The field has no zero byte.
    CStrError,
}

/// A text field of `N` bytes: the text in UTF-8, then a zero byte, then
/// whatever fills the field.
#[derive(Clone, Copy, Debug)]
pub struct SimString<const N: usize>(pub [u8; N]);

/// Whether `end` is where the first zero byte of `bytes` stands.
pub open spec fn first_nul(bytes: Seq<u8>, end: int) -> bool {
    &&& 0 <= end < bytes.len()
    &&& bytes[end] == 0
    &&& forall|i: int| 0 <= i < end ==> bytes[i] != 0
}

/// The text of a field: the bytes before its first zero byte, read as UTF-8.
pub open spec fn field_text(bytes: Seq<u8>) -> Result<Seq<char>, SimStringError> {
    if exists|end: int| first_nul(bytes, end) {
        let end = choose|end: int| first_nul(bytes, end);
        if valid_utf8(bytes.take(end)) {
            Ok(decode_utf8(bytes.take(end)))
        } else {
            Err(SimStringError::Utf8Error)
        }
    } else {
        Err(SimStringError::CStrError)
    }
}

impl<const N: usize> SimString<N> {
    /// The field that stands in `record` from byte `at` on.
    pub fn read(record: &[u8], at: usize) -> (field: SimString<N>)
        requires
            at + N <= record@.len(),
        ensures
            field.0@ == record@.subrange(at as int, at + N),
    {
        let len: usize = record.len();
        let mut bytes: [u8; N] = [0u8; N];
        let mut i: usize = 0;
        while i < N
            invariant
                i <= N,
                at + N <= len == record@.len(),
                bytes@.len() == N,
                forall|j: int| 0 <= j < i ==> bytes@[j] == record@[at + j],
            decreases N - i,
        {
            bytes[i] = record[at + i];
            i += 1;
        }
        assert(bytes@ =~= record@.subrange(at as int, at + N));
        SimString(bytes)
    }

    /// The text of the field, as `field_text` says.
    pub fn to_string(&self) -> (result: Result<String, SimStringError>)
        ensures
            match field_text(self.0@) {
                Ok(text) => result matches Ok(read) && read@ == text,
                Err(error) => result == Err::<String, SimStringError>(error),
            },
    {
        let mut end: usize = 0;
        while end < N && self.0[end] != 0
            invariant
                end <= N,
                self.0@.len() == N,
                forall|i: int| 0 <= i < end ==> self.0@[i] != 0,
            decreases N - end,
        {
            end += 1;
        }
        if end == N {
            assert forall|at: int| !first_nul(self.0@, at) by {}
            return Err(SimStringError::CStrError);
        }
        proof {
            assert(first_nul(self.0@, end as int));
            let chosen = choose|at: int| first_nul(self.0@, at);
            assert(chosen == end);
        }
        let body = slice_subrange(self.0.as_slice(), 0, end);
        assert(body@ == self.0@.take(end as int));
        match utf8_text(body) {
            Some(read) => {
                proof {
                    lemma_encoded_text(read@, body@);
                }
                Ok(read)
            },
            None => Err(SimStringError::Utf8Error),
        }
    }
}

} // verus!
