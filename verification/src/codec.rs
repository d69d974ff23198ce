//! Payload codec: the size limit on encoded values.
//!
//! Values are encoded with bincode by the caller (the encoding is generic over
//! serde's traits); the limit an encoding must keep to is checked here.

use vstd::prelude::*;
use crate::audit::{decimal, push_decimal};

verus! {

/// Why an encoding is refused.
#[derive(Clone, Copy, Debug, PartialEq, Eq, Structural)]
pub enum CodecError {
    /// The encoding is `size` bytes, more than the `limit` allowed.
    TooLarge { size: u64, limit: u64 },
}

/// `encoded size {size} exceeds limit {limit}`.
pub open spec fn too_large_message(size: u64, limit: u64) -> Seq<char> {
    seq!['e', 'n', 'c', 'o', 'd', 'e', 'd', ' ', 's', 'i', 'z', 'e', ' '] + decimal(size as nat)
        + seq![' ', 'e', 'x', 'c', 'e', 'e', 'd', 's', ' ', 'l', 'i', 'm', 'i', 't', ' ']
        + decimal(limit as nat)
}

impl CodecError {
    /// The message of the error.
    pub fn message(&self) -> (m: String)
        ensures
            match *self {
                CodecError::TooLarge { size, limit } => m@ == too_large_message(size, limit),
            },
    {
        match self {
            CodecError::TooLarge { size, limit } => {
                let mut m = "encoded size ".to_owned();
                push_decimal(&mut m, *size);
                m.append(" exceeds limit ");
                push_decimal(&mut m, *limit);
                proof {
                    reveal_strlit("encoded size ");
                    reveal_strlit(" exceeds limit ");
                }
                assert(m@ =~= too_large_message(*size, *limit));
                m
            },
        }
    }
}

/// Binary codec for message payloads.
pub struct BincodeCodec;

impl BincodeCodec {
    /// Keeps an encoding within `max_bytes`: hands it back if it is no longer, and
    /// refuses it, with its size, if it is.
    pub fn check_limit(data: Vec<u8>, max_bytes: u64) -> (r: Result<Vec<u8>, CodecError>)
        ensures
            data@.len() <= max_bytes ==> (r matches Ok(d) && d@ == data@),
            data@.len() > max_bytes ==> r == Err::<Vec<u8>, CodecError>(
                CodecError::TooLarge { size: data@.len() as u64, limit: max_bytes },
            ),
    {
        let size: u64 = data.len() as u64;
        if size > max_bytes {
            Err(CodecError::TooLarge { size, limit: max_bytes })
        } else {
            Ok(data)
        }
    }
}

} // verus!
