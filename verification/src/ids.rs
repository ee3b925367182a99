//! Identities: `sha256:` and 64 lowercase hex digits. Computed identities
//! come from the tagged digest of canonical bytes; supplied ones
//! (`ArtifactId`, `DatasetId`, `EvaluatorConfigId`) are validated only.
use vstd::prelude::*;
use vstd::string::StrSliceExecFns;
use vstd::string::StringSliceAdditionalSpecFns;

use crate::text::{debug_quoted, debug_text, join};

verus! {

/// Why a string is not an identity.
#[derive(Debug, Clone, PartialEq, Eq)]
pub struct IdError {
    /// The refused text, cut to 80 characters.
    pub value: String,
}

/// A lowercase hexadecimal digit.
pub open spec fn is_lower_hex(c: u8) -> bool {
    (48 <= c <= 57) || (97 <= c <= 102)
}

/// The bytes of `sha256:`.
pub open spec fn digest_prefix() -> Seq<u8> {
    seq![115u8, 104u8, 97u8, 50u8, 53u8, 54u8, 58u8]
}

/// `sha256:` followed by exactly 64 lowercase hexadecimal digits.
pub open spec fn is_digest_bytes(b: Seq<u8>) -> bool {
    &&& b.len() == 71
    &&& b.subrange(0, 7) == digest_prefix()
    &&& forall|i: int| 7 <= i < 71 ==> is_lower_hex(#[trigger] b[i])
}

/// `s` cut to its first `n` characters.
pub open spec fn first_chars(s: Seq<char>, n: int) -> Seq<char> {
    if s.len() <= n {
        s
    } else {
        s.take(n)
    }
}

/// Whether `s` is an identity.
pub fn is_digest(s: &str) -> (r: bool)
    ensures
        r == is_digest_bytes(s.spec_bytes()),
{
    let b = s.as_bytes();
    if b.len() != 71 {
        return false;
    }
    let prefix: [u8; 7] = [115u8, 104u8, 97u8, 50u8, 53u8, 54u8, 58u8];
    let mut i: usize = 0;
    proof {
        assert(prefix@ =~= digest_prefix());
    }
    while i < 7
        invariant
            prefix@ == digest_prefix(),
            i <= 7,
            b@.len() == 71,
            b@ == s.spec_bytes(),
            forall|j: int| 0 <= j < i ==> b@[j] == digest_prefix()[j],
        decreases 7 - i,
    {
        if b[i] != prefix[i] {
            proof {
                assert(b@.subrange(0, 7)[i as int] != digest_prefix()[i as int]);
            }
            return false;
        }
        i = i + 1;
    }
    proof {
        assert(b@.subrange(0, 7) =~= digest_prefix());
    }
    while i < 71
        invariant
            7 <= i <= 71,
            b@.len() == 71,
            b@ == s.spec_bytes(),
            b@.subrange(0, 7) == digest_prefix(),
            forall|j: int| 7 <= j < i ==> is_lower_hex(#[trigger] b@[j]),
        decreases 71 - i,
    {
        let c = b[i];
        if !((48u8 <= c && c <= 57u8) || (97u8 <= c && c <= 102u8)) {
            proof {
                assert(!is_lower_hex(b@[i as int]));
            }
            return false;
        }
        i = i + 1;
    }
    true
}

/// The first `n` characters of `s`.
pub fn cut_chars(s: &str, n: usize) -> (r: String)
    ensures
        r@ == first_chars(s@, n as int),
{
    let len = s.unicode_len();
    let end = if len < n {
        len
    } else {
        n
    };
    let t = s.substring_char(0, end);
    let r = t.to_owned();
    proof {
        if s@.len() <= n {
            assert(r@ =~= s@);
        }
    }
    r
}

/// Identity of a canonical decision definition.
#[derive(Debug, Clone, PartialEq, Eq, PartialOrd, Ord, Hash)]
pub struct DefinitionId(String);

impl View for DefinitionId {
    type V = Seq<char>;

    closed spec fn view(&self) -> Seq<char> {
        self.0@
    }
}

impl DefinitionId {
    /// Validate `s` as an identity.
    pub fn parse(s: &str) -> (r: Result<DefinitionId, IdError>)
        ensures
            r is Ok <==> is_digest_bytes(s.spec_bytes()),
            r matches Ok(id) ==> id@ == s@,
            r matches Err(e) ==> e.value@ == first_chars(s@, 80),
    {
        if is_digest(s) {
            Ok(DefinitionId(s.to_owned()))
        } else {
            Err(IdError { value: cut_chars(s, 80) })
        }
    }

    /// The textual form.
    pub fn as_str(&self) -> (r: &str)
        ensures
            r@ == self@,
    {
        self.0.as_str()
    }
}

/// Identity of a canonical compiled plan.
#[derive(Debug, Clone, PartialEq, Eq, PartialOrd, Ord, Hash)]
pub struct PlanId(String);

impl View for PlanId {
    type V = Seq<char>;

    closed spec fn view(&self) -> Seq<char> {
        self.0@
    }
}

impl PlanId {
    /// Validate `s` as an identity.
    pub fn parse(s: &str) -> (r: Result<PlanId, IdError>)
        ensures
            r is Ok <==> is_digest_bytes(s.spec_bytes()),
            r matches Ok(id) ==> id@ == s@,
            r matches Err(e) ==> e.value@ == first_chars(s@, 80),
    {
        if is_digest(s) {
            Ok(PlanId(s.to_owned()))
        } else {
            Err(IdError { value: cut_chars(s, 80) })
        }
    }

    /// The textual form.
    pub fn as_str(&self) -> (r: &str)
        ensures
            r@ == self@,
    {
        self.0.as_str()
    }
}

/// Identity of a canonical backend capability descriptor.
#[derive(Debug, Clone, PartialEq, Eq, PartialOrd, Ord, Hash)]
pub struct DescriptorId(String);

impl View for DescriptorId {
    type V = Seq<char>;

    closed spec fn view(&self) -> Seq<char> {
        self.0@
    }
}

impl DescriptorId {
    /// Validate `s` as an identity.
    pub fn parse(s: &str) -> (r: Result<DescriptorId, IdError>)
        ensures
            r is Ok <==> is_digest_bytes(s.spec_bytes()),
            r matches Ok(id) ==> id@ == s@,
            r matches Err(e) ==> e.value@ == first_chars(s@, 80),
    {
        if is_digest(s) {
            Ok(DescriptorId(s.to_owned()))
        } else {
            Err(IdError { value: cut_chars(s, 80) })
        }
    }

    /// The textual form.
    pub fn as_str(&self) -> (r: &str)
        ensures
            r@ == self@,
    {
        self.0.as_str()
    }
}

/// Identity of a canonical calibration artifact.
#[derive(Debug, Clone, PartialEq, Eq, PartialOrd, Ord, Hash)]
pub struct CalibrationId(String);

impl View for CalibrationId {
    type V = Seq<char>;

    closed spec fn view(&self) -> Seq<char> {
        self.0@
    }
}

impl CalibrationId {
    /// Validate `s` as an identity.
    pub fn parse(s: &str) -> (r: Result<CalibrationId, IdError>)
        ensures
            r is Ok <==> is_digest_bytes(s.spec_bytes()),
            r matches Ok(id) ==> id@ == s@,
            r matches Err(e) ==> e.value@ == first_chars(s@, 80),
    {
        if is_digest(s) {
            Ok(CalibrationId(s.to_owned()))
        } else {
            Err(IdError { value: cut_chars(s, 80) })
        }
    }

    /// The textual form.
    pub fn as_str(&self) -> (r: &str)
        ensures
            r@ == self@,
    {
        self.0.as_str()
    }
}

/// Identity of a canonical context snapshot.
#[derive(Debug, Clone, PartialEq, Eq, PartialOrd, Ord, Hash)]
pub struct SnapshotId(String);

impl View for SnapshotId {
    type V = Seq<char>;

    closed spec fn view(&self) -> Seq<char> {
        self.0@
    }
}

impl SnapshotId {
    /// Validate `s` as an identity.
    pub fn parse(s: &str) -> (r: Result<SnapshotId, IdError>)
        ensures
            r is Ok <==> is_digest_bytes(s.spec_bytes()),
            r matches Ok(id) ==> id@ == s@,
            r matches Err(e) ==> e.value@ == first_chars(s@, 80),
    {
        if is_digest(s) {
            Ok(SnapshotId(s.to_owned()))
        } else {
            Err(IdError { value: cut_chars(s, 80) })
        }
    }

    /// The textual form.
    pub fn as_str(&self) -> (r: &str)
        ensures
            r@ == self@,
    {
        self.0.as_str()
    }
}

/// Identity of a canonical execution policy.
#[derive(Debug, Clone, PartialEq, Eq, PartialOrd, Ord, Hash)]
pub struct ExecutionPolicyId(String);

impl View for ExecutionPolicyId {
    type V = Seq<char>;

    closed spec fn view(&self) -> Seq<char> {
        self.0@
    }
}

impl ExecutionPolicyId {
    /// Validate `s` as an identity.
    pub fn parse(s: &str) -> (r: Result<ExecutionPolicyId, IdError>)
        ensures
            r is Ok <==> is_digest_bytes(s.spec_bytes()),
            r matches Ok(id) ==> id@ == s@,
            r matches Err(e) ==> e.value@ == first_chars(s@, 80),
    {
        if is_digest(s) {
            Ok(ExecutionPolicyId(s.to_owned()))
        } else {
            Err(IdError { value: cut_chars(s, 80) })
        }
    }

    /// The textual form.
    pub fn as_str(&self) -> (r: &str)
        ensures
            r@ == self@,
    {
        self.0.as_str()
    }
}

/// Identity of a canonical request document.
#[derive(Debug, Clone, PartialEq, Eq, PartialOrd, Ord, Hash)]
pub struct RequestId(String);

impl View for RequestId {
    type V = Seq<char>;

    closed spec fn view(&self) -> Seq<char> {
        self.0@
    }
}

impl RequestId {
    /// Validate `s` as an identity.
    pub fn parse(s: &str) -> (r: Result<RequestId, IdError>)
        ensures
            r is Ok <==> is_digest_bytes(s.spec_bytes()),
            r matches Ok(id) ==> id@ == s@,
            r matches Err(e) ==> e.value@ == first_chars(s@, 80),
    {
        if is_digest(s) {
            Ok(RequestId(s.to_owned()))
        } else {
            Err(IdError { value: cut_chars(s, 80) })
        }
    }

    /// The textual form.
    pub fn as_str(&self) -> (r: &str)
        ensures
            r@ == self@,
    {
        self.0.as_str()
    }
}

/// The digest of retained bytes.
#[derive(Debug, Clone, PartialEq, Eq, PartialOrd, Ord, Hash)]
pub struct ContentDigest(String);

impl View for ContentDigest {
    type V = Seq<char>;

    closed spec fn view(&self) -> Seq<char> {
        self.0@
    }
}

impl ContentDigest {
    /// Validate `s` as an identity.
    pub fn parse(s: &str) -> (r: Result<ContentDigest, IdError>)
        ensures
            r is Ok <==> is_digest_bytes(s.spec_bytes()),
            r matches Ok(id) ==> id@ == s@,
            r matches Err(e) ==> e.value@ == first_chars(s@, 80),
    {
        if is_digest(s) {
            Ok(ContentDigest(s.to_owned()))
        } else {
            Err(IdError { value: cut_chars(s, 80) })
        }
    }

    /// The textual form.
    pub fn as_str(&self) -> (r: &str)
        ensures
            r@ == self@,
    {
        self.0.as_str()
    }
}

/// A backend artifact (model, tokenizer, preprocessing, truncation,
/// precision), identified by its producer.
#[derive(Debug, Clone, PartialEq, Eq, PartialOrd, Ord, Hash)]
pub struct ArtifactId(String);

impl View for ArtifactId {
    type V = Seq<char>;

    closed spec fn view(&self) -> Seq<char> {
        self.0@
    }
}

impl ArtifactId {
    /// The same identity, owned.
    pub fn duplicate(&self) -> (r: ArtifactId)
        ensures
            r@ == self@,
    {
        ArtifactId(String::from_str(self.0.as_str()))
    }

    /// Validate `s` as an identity.
    pub fn parse(s: &str) -> (r: Result<ArtifactId, IdError>)
        ensures
            r is Ok <==> is_digest_bytes(s.spec_bytes()),
            r matches Ok(id) ==> id@ == s@,
            r matches Err(e) ==> e.value@ == first_chars(s@, 80),
    {
        if is_digest(s) {
            Ok(ArtifactId(s.to_owned()))
        } else {
            Err(IdError { value: cut_chars(s, 80) })
        }
    }

    /// The textual form.
    pub fn as_str(&self) -> (r: &str)
        ensures
            r@ == self@,
    {
        self.0.as_str()
    }
}

/// A dataset, identified by its producer.
#[derive(Debug, Clone, PartialEq, Eq, PartialOrd, Ord, Hash)]
pub struct DatasetId(String);

impl View for DatasetId {
    type V = Seq<char>;

    closed spec fn view(&self) -> Seq<char> {
        self.0@
    }
}

impl DatasetId {
    /// Validate `s` as an identity.
    pub fn parse(s: &str) -> (r: Result<DatasetId, IdError>)
        ensures
            r is Ok <==> is_digest_bytes(s.spec_bytes()),
            r matches Ok(id) ==> id@ == s@,
            r matches Err(e) ==> e.value@ == first_chars(s@, 80),
    {
        if is_digest(s) {
            Ok(DatasetId(s.to_owned()))
        } else {
            Err(IdError { value: cut_chars(s, 80) })
        }
    }

    /// The textual form.
    pub fn as_str(&self) -> (r: &str)
        ensures
            r@ == self@,
    {
        self.0.as_str()
    }
}

/// An evaluator configuration, identified by its producer.
#[derive(Debug, Clone, PartialEq, Eq, PartialOrd, Ord, Hash)]
pub struct EvaluatorConfigId(String);

impl View for EvaluatorConfigId {
    type V = Seq<char>;

    closed spec fn view(&self) -> Seq<char> {
        self.0@
    }
}

impl EvaluatorConfigId {
    /// Validate `s` as an identity.
    pub fn parse(s: &str) -> (r: Result<EvaluatorConfigId, IdError>)
        ensures
            r is Ok <==> is_digest_bytes(s.spec_bytes()),
            r matches Ok(id) ==> id@ == s@,
            r matches Err(e) ==> e.value@ == first_chars(s@, 80),
    {
        if is_digest(s) {
            Ok(EvaluatorConfigId(s.to_owned()))
        } else {
            Err(IdError { value: cut_chars(s, 80) })
        }
    }

    /// The textual form.
    pub fn as_str(&self) -> (r: &str)
        ensures
            r@ == self@,
    {
        self.0.as_str()
    }
}


impl IdError {
    /// The refusal as text: the refused value, quoted.
    pub fn message(&self) -> (r: String)
        ensures
            r@ == "not an identity (`sha256:` and 64 lowercase hex digits): "@ + debug_text(self.value@),
    {
        join(
            "not an identity (`sha256:` and 64 lowercase hex digits): ",
            debug_quoted(self.value.as_str()).as_str(),
        )
    }
}

} // verus!
