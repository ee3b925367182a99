//! The evidence file: the run record's record canonical bytes, published by
//! creating a file that is never overwritten. A path that already holds
//! exactly those bytes is acknowledged, so a record delivered twice is
//! delivered once; anything else there is a failure. Creating and reading
//! the file are the host's.
use vstd::prelude::*;

use vstd::string::StringExecFns;

use crate::cli::io::IoFail;
use crate::text::{join, join3};

verus! {

/// Publishes run records to one file path.
#[derive(Debug, Clone, PartialEq, Eq)]
pub struct FileSink {
    pub path: String,
}

/// What a publication answers: the receipt `file:<digest>` when the file
/// was created, or when creating it failed but it already holds exactly
/// `bytes`; otherwise the create failure as `path: detail`.
pub open spec fn publish_answer(
    bytes: Seq<u8>,
    digest: Seq<char>,
    created: Result<(), IoFail>,
    existing: Option<Seq<u8>>,
) -> Result<Seq<char>, Seq<char>> {
    match created {
        Ok(()) => Ok("file:"@ + digest),
        Err(e) => if existing == Some(bytes) {
            Ok("file:"@ + digest)
        } else {
            Err(e.path@ + ": "@ + e.detail@)
        },
    }
}

/// Whether two byte strings are equal.
fn same_bytes(a: &[u8], b: &[u8]) -> (r: bool)
    ensures
        r == (a@ == b@),
{
    if a.len() != b.len() {
        return false;
    }
    let mut i: usize = 0;
    while i < a.len()
        invariant
            a@.len() == b@.len(),
            i <= a@.len(),
            forall|k: int| 0 <= k < i ==> a@[k] == b@[k],
        decreases a@.len() - i,
    {
        if a[i] != b[i] {
            return false;
        }
        i = i + 1;
    }
    proof {
        assert(a@ =~= b@);
    }
    true
}

impl FileSink {
    /// Settle one publication of the record canonical `bytes` whose record
    /// digest is `digest`, given how creating the file went and, when it
    /// failed, the bytes found at the path (`None` where none could be read).
    pub fn settle(
        &self,
        bytes: &[u8],
        digest: &str,
        created: Result<(), IoFail>,
        existing: Option<Vec<u8>>,
    ) -> (r: Result<String, String>)
        ensures
            match publish_answer(
                bytes@,
                digest@,
                created,
                match existing {
                    Some(v) => Some(v@),
                    None => None,
                },
            ) {
                Ok(t) => r matches Ok(s) && s@ == t,
                Err(t) => r matches Err(s) && s@ == t,
            },
    {
        match created {
            Ok(()) => Ok(join("file:", digest)),
            Err(e) => {
                let same = match &existing {
                    Some(v) => same_bytes(v.as_slice(), bytes),
                    None => false,
                };
                if same {
                    Ok(join("file:", digest))
                } else {
                    Err(join3(e.path.as_str(), ": ", e.detail.as_str()))
                }
            },
        }
    }
}

/// A record published again is acknowledged with the receipt of its first
/// publication, when the file already holds exactly its bytes: whatever
/// creating the file answered, the outcome is that of a successful create.
pub proof fn law_redelivery_is_acknowledged(bytes: Seq<u8>, digest: Seq<char>, e: IoFail)
    ensures
        publish_answer(bytes, digest, Err(e), Some(bytes)) == publish_answer(bytes, digest, Ok(()), None),
{
}

} // verus!
