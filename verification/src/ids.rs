use vstd::prelude::*;
use sha2::Digest;

verus! {

/// A content-derived identifier: the digest of a block's canonical bytes.
///
/// Two blocks with identical canonical bytes always receive identical
/// identifiers, which is what makes a root identifier a reliable fingerprint
/// of everything reachable from it.
#[derive(Debug)]
pub struct Id {
    pub bytes: Vec<u8>,
}

impl View for Id {
    type V = Seq<u8>;

    open spec fn view(&self) -> Seq<u8> {
        self.bytes@
    }
}

/// The digest that the outside hash function assigns to a byte sequence.
/// The same bytes always receive the same digest.
pub uninterp spec fn content_id_of(bytes: Seq<u8>) -> Seq<u8>;

/// Relies on sha2's SHA-256 digest: the result depends on the input bytes
/// alone, so the same bytes always produce the same identifier.
#[verifier::external_body]
pub fn derive_id(bytes: &Vec<u8>) -> (r: Id)
    ensures
        r@ == content_id_of(bytes@),
{
    let digest = sha2::Sha256::digest(bytes.as_slice());
    Id { bytes: digest.to_vec() }
}

/// Compare two byte vectors for equality of contents.
pub fn bytes_eq(a: &Vec<u8>, b: &Vec<u8>) -> (r: bool)
    ensures
        r == (a@ == b@),
{
    if a.len() != b.len() {
        assert(a@ != b@);
        return false;
    }
    let n: usize = a.len();
    let mut i: usize = 0;
    while i < n
        invariant
            n == a@.len() && n == b@.len(),
            i <= n,
            forall|j: int| 0 <= j < i ==> a@[j] == b@[j],
        decreases n - i,
    {
        if a[i] != b[i] {
            return false;
        }
        i = i + 1;
    }
    assert(a@ =~= b@);
    true
}

/// Copy a byte vector.
pub fn dup_bytes(v: &Vec<u8>) -> (r: Vec<u8>)
    ensures
        r@ == v@,
{
    let r = v.clone();
    assert(r@ =~= v@);
    r
}

impl Id {
    /// Wrap raw identifier bytes.
    pub fn from_bytes(bytes: Vec<u8>) -> (r: Id)
        ensures
            r@ == bytes@,
    {
        Id { bytes }
    }

    /// The identifier's raw bytes.
    pub fn as_bytes(&self) -> (r: &Vec<u8>)
        ensures
            r@ == self@,
    {
        &self.bytes
    }

    /// An owned copy of this identifier.
    pub fn duplicate(&self) -> (r: Id)
        ensures
            r@ == self@,
    {
        Id { bytes: dup_bytes(&self.bytes) }
    }
}

impl PartialEq for Id {
    fn eq(&self, other: &Id) -> (r: bool) {
        bytes_eq(&self.bytes, &other.bytes)
    }
}

impl vstd::std_specs::cmp::PartialEqSpecImpl for Id {
    open spec fn obeys_eq_spec() -> bool {
        true
    }

    open spec fn eq_spec(&self, other: &Id) -> bool {
        self.bytes@ == other.bytes@
    }
}

} // verus!
