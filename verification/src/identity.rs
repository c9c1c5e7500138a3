//! Caller identities.
//!
//! An identity is what a principal of the Internet Computer is to its users:
//! a blob of at most 29 bytes. One value, the single byte 4, stands for a
//! caller who has not authenticated.

use candid::Principal;
use vstd::prelude::*;

verus! {

/// The most bytes an identity can have.
pub const MAX_IDENTITY_BYTES: usize = 29;

/// The bytes of the identity of a caller who has not authenticated.
pub open spec fn anonymous_bytes() -> Seq<u8> {
    seq![4u8]
}

/// The order of identities, which is that of principals: the shorter one
/// comes first, and of two of the same length the one with the smaller byte
/// where they first differ.
pub open spec fn comes_before(a: Seq<u8>, b: Seq<u8>) -> bool {
    ||| a.len() < b.len()
    ||| a.len() == b.len() && exists|i: int|
        0 <= i < a.len() && #[trigger] a[i] < b[i] && forall|j: int| 0 <= j < i ==> a[j] == b[j]
}

/// What comes before something that comes before a third comes before the
/// third.
pub proof fn lemma_comes_before_is_transitive(a: Seq<u8>, b: Seq<u8>, c: Seq<u8>)
    requires
        comes_before(a, b),
        comes_before(b, c),
    ensures
        comes_before(a, c),
{
    if a.len() == b.len() && b.len() == c.len() {
        let i = choose|i: int|
            0 <= i < a.len() && #[trigger] a[i] < b[i] && forall|j: int| 0 <= j < i ==> a[j] == b[j];
        let k = choose|k: int|
            0 <= k < b.len() && #[trigger] b[k] < c[k] && forall|j: int| 0 <= j < k ==> b[j] == c[j];
        let first = if i <= k {
            i
        } else {
            k
        };
        assert(a[first] < c[first]);
    }
}

/// Nothing comes before itself, and of two identities at most one comes
/// before the other.
pub proof fn lemma_comes_before_is_strict(a: Seq<u8>, b: Seq<u8>)
    ensures
        !comes_before(a, a),
        !(comes_before(a, b) && comes_before(b, a)),
{
    if comes_before(a, b) && comes_before(b, a) {
        lemma_comes_before_is_transitive(a, b, a);
    }
}

/// How one identity stands to another in the order of identities.
#[derive(Clone, Copy, Debug, PartialEq, Eq)]
pub enum Rank {
    Before,
    Same,
    After,
}

/// Who makes a request, and who owns a file.
#[derive(Clone, Copy, Debug, PartialEq, Eq)]
pub struct Identity {
    len: u8,
    bytes: [u8; 29],
}

impl View for Identity {
    type V = Seq<u8>;

    closed spec fn view(&self) -> Seq<u8> {
        self.bytes@.subrange(0, self.len as int)
    }
}

impl Identity {
    /// The bytes in use are the first `len`; the others are zero, so that
    /// two identities with the same bytes are the same value.
    #[verifier::type_invariant]
    closed spec fn well_formed(self) -> bool {
        &&& self.len <= 29
        &&& forall|i: int| self.len <= i < 29 ==> self.bytes[i] == 0
    }

    /// The identity with the given bytes, if they are at most 29.
    pub fn from_slice(bytes: &[u8]) -> (made: Option<Identity>)
        ensures
            made is Some <==> bytes@.len() <= MAX_IDENTITY_BYTES,
            made matches Some(identity) ==> identity@ == bytes@,
    {
        let n = bytes.len();
        if n > MAX_IDENTITY_BYTES {
            return None;
        }
        let mut buffer: [u8; 29] = [0u8; 29];
        let mut i: usize = 0;
        while i < n
            invariant
                n == bytes@.len(),
                n <= 29,
                i <= n,
                forall|j: int| 0 <= j < i ==> buffer[j] == bytes@[j],
                forall|j: int| i <= j < 29 ==> buffer[j] == 0,
            decreases n - i,
        {
            buffer[i] = bytes[i];
            i += 1;
        }
        let identity = Identity { len: n as u8, bytes: buffer };
        assert(identity@ =~= bytes@);
        Some(identity)
    }

    /// The identity's bytes.
    pub fn to_vec(&self) -> (bytes: Vec<u8>)
        ensures
            bytes@ == self@,
    {
        proof {
            use_type_invariant(self);
        }
        let n = self.len as usize;
        let mut bytes: Vec<u8> = Vec::new();
        let mut i: usize = 0;
        while i < n
            invariant
                n == self.len,
                n <= 29,
                i <= n,
                bytes@ == self.bytes@.subrange(0, i as int),
            decreases n - i,
        {
            bytes.push(self.bytes[i]);
            assert(bytes@ =~= self.bytes@.subrange(0, i + 1));
            i += 1;
        }
        bytes
    }

    /// The identity of a caller who has not authenticated.
    pub fn anonymous() -> (identity: Identity)
        ensures
            identity@ == anonymous_bytes(),
    {
        let bytes = anonymous_principal_bytes();
        Identity::from_slice(bytes.as_slice()).unwrap()
    }

    /// Whether this is the identity of a caller who has not authenticated.
    pub fn is_anonymous(&self) -> (anonymous: bool)
        ensures
            anonymous == (self@ == anonymous_bytes()),
    {
        let anonymous = Identity::anonymous();
        self.same_as(&anonymous)
    }

    /// How this identity stands to `other` in the order of identities.
    pub fn rank(&self, other: &Identity) -> (rank: Rank)
        ensures
            rank is Before <==> comes_before(self@, other@),
            rank is Same <==> self@ == other@,
            rank is After <==> comes_before(other@, self@),
    {
        proof {
            use_type_invariant(self);
            use_type_invariant(other);
            lemma_comes_before_is_strict(self@, other@);
        }
        if self.len < other.len {
            return Rank::Before;
        }
        if self.len > other.len {
            return Rank::After;
        }
        let n = self.len as usize;
        let mut i: usize = 0;
        while i < n
            invariant
                n == self.len,
                n == other.len,
                n <= 29,
                i <= n,
                forall|j: int| 0 <= j < i ==> self.bytes[j] == other.bytes[j],
            decreases n - i,
        {
            if self.bytes[i] < other.bytes[i] {
                assert(self@[i as int] < other@[i as int]);
                assert(forall|j: int| 0 <= j < i ==> self@[j] == other@[j]);
                return Rank::Before;
            }
            if self.bytes[i] > other.bytes[i] {
                assert(other@[i as int] < self@[i as int]);
                assert(forall|j: int| 0 <= j < i ==> other@[j] == self@[j]);
                return Rank::After;
            }
            i += 1;
        }
        assert(self@ =~= other@);
        Rank::Same
    }

    /// Whether two identities have the same bytes.
    pub fn same_as(&self, other: &Identity) -> (same: bool)
        ensures
            same == (self@ == other@),
    {
        proof {
            use_type_invariant(self);
            use_type_invariant(other);
        }
        if self.len != other.len {
            assert(self@.len() != other@.len());
            return false;
        }
        let n = self.len as usize;
        let mut i: usize = 0;
        while i < n
            invariant
                n == self.len,
                n == other.len,
                n <= 29,
                i <= n,
                forall|j: int| 0 <= j < i ==> self.bytes[j] == other.bytes[j],
            decreases n - i,
        {
            if self.bytes[i] != other.bytes[i] {
                assert(self@[i as int] != other@[i as int]);
                return false;
            }
            i += 1;
        }
        assert(self@ =~= other@);
        true
    }
}

/// `candid::Principal::anonymous`, by its bytes (`as_slice`): the single
/// byte 4.
#[verifier::external_body]
fn anonymous_principal_bytes() -> (bytes: Vec<u8>)
    ensures
        bytes@ == anonymous_bytes(),
{
    Principal::anonymous().as_slice().to_vec()
}

} // verus!
