//! Bounds on what the network may send: no response is kept that is larger than a limit.
use vstd::prelude::*;

use crate::text::{decimal, decimal_of, join2};

verus! {

/// The largest response that is kept, in bytes. It covers images as well as records, and
/// bounds what a compressed response may grow to.
pub const MAX_RESPONSE_BYTES: usize = 33_554_432;

/// A response that is larger than a limit.
#[derive(Clone, Copy, PartialEq, Eq, Structural, Debug)]
pub struct TooLarge {
    pub limit: usize,
}

impl TooLarge {
    /// The error as a line of text.
    pub open spec fn described(self) -> Seq<char> {
        "response exceeded the "@ + decimal(self.limit as nat / 1024 / 1024) + " MiB limit"@
    }

    /// The error as a line of text.
    pub fn to_string(&self) -> (r: String)
        ensures
            r@ == self.described(),
    {
        let n = decimal_of((self.limit / 1024 / 1024) as u64);
        let head = join2("response exceeded the ", n.as_str());
        join2(head.as_str(), " MiB limit")
    }
}

/// Refuse a response whose announced size is over the limit. One that announces none is
/// let through.
pub fn reject_announced_size(size: Option<u64>, limit: usize) -> (r: Result<(), TooLarge>)
    ensures
        r == (if size is Some && size->0 > limit {
            Err::<(), TooLarge>(TooLarge { limit })
        } else {
            Ok(())
        }),
{
    match size {
        Some(n) => if n > limit as u64 {
            Err(TooLarge { limit })
        } else {
            Ok(())
        },
        None => Ok(()),
    }
}

/// Refuse a body that is over the limit. It is enough to have read one byte more than
/// that.
pub fn bounded(bytes: Vec<u8>, limit: usize) -> (r: Result<Vec<u8>, TooLarge>)
    ensures
        match r {
            Ok(v) => bytes@.len() <= limit && v@ == bytes@,
            Err(e) => bytes@.len() > limit && e == (TooLarge { limit }),
        },
{
    if bytes.len() > limit {
        Err(TooLarge { limit })
    } else {
        Ok(bytes)
    }
}

/// Whether a status is one of success.
pub fn is_success(status: u16) -> (r: bool)
    ensures
        r == (200 <= status < 300),
{
    200 <= status && status < 300
}

} // verus!
