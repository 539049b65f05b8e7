//! Identifiers, digests and timestamps.

use vstd::prelude::*;

pub use crate::scalar::{Real, Score, SignedScore, Weight};

pub mod hex;

verus! {

// ---------------------------------------------------------------------------
// Outside functions
// ---------------------------------------------------------------------------

/// The BLAKE3 digest of a byte string: the 32 bytes that `blake3::hash`
/// computes for it.
pub uninterp spec fn blake3_digest(data: Seq<u8>) -> Seq<u8>;

/// Calls `blake3::hash` and copies the 32 bytes of its result. The digest is
/// a function of the input bytes alone.
#[verifier::external_body]
fn blake3_hash(data: &[u8]) -> (out: [u8; 32])
    ensures
        out@ == blake3_digest(data@),
{
    *blake3::hash(data).as_bytes()
}

/// Fills 32 bytes from `rand::thread_rng`. Nothing is known of the bytes.
#[verifier::external_body]
fn random_bytes_32() -> [u8; 32] {
    let mut bytes = [0u8; 32];
    rand::Rng::fill(&mut rand::thread_rng(), &mut bytes);
    bytes
}

/// Draws one 64-bit integer with `rand::random`. Nothing is known of it.
#[verifier::external_body]
fn random_u64() -> u64 {
    rand::random()
}

/// Reads the system clock with `std::time::SystemTime::now` and gives the
/// milliseconds since the Unix epoch, zero if the clock stands before it.
/// Nothing is known of the number.
#[verifier::external_body]
fn system_millis() -> u64 {
    match std::time::SystemTime::now().duration_since(std::time::UNIX_EPOCH) {
        Ok(elapsed) => elapsed.as_millis() as u64,
        Err(_) => 0,
    }
}

// ---------------------------------------------------------------------------
// Byte strings
// ---------------------------------------------------------------------------

/// Byte `i` of the little-endian writing of `value`.
pub open spec fn le_byte(value: u64, i: int) -> u8 {
    ((value >> ((8 * i) as u64)) & 0xff) as u8
}

/// The 32 bytes that stand for an index: its eight little-endian bytes, then
/// zeros.
pub open spec fn index_bytes(index: u64) -> Seq<u8> {
    Seq::new(32, |i: int| if i < 8 { le_byte(index, i) } else { 0u8 })
}

/// The integer whose little-endian writing is the first eight bytes of
/// `bytes`.
pub open spec fn le_value(bytes: Seq<u8>) -> u64 {
    (bytes[0] as u64) | (bytes[1] as u64) << 8 | (bytes[2] as u64) << 16 | (bytes[3] as u64) << 24
        | (bytes[4] as u64) << 32 | (bytes[5] as u64) << 40 | (bytes[6] as u64) << 48 | (
    bytes[7] as u64) << 56
}

/// Whether `a` comes before `b` in the order of byte strings: at the first
/// place where the two differ, `a` has the smaller byte.
pub open spec fn comes_before(a: Seq<u8>, b: Seq<u8>) -> bool {
    exists|i: int|
        0 <= i < a.len() && i < b.len() && #[trigger] a[i] < b[i] && forall|j: int|
            0 <= j < i ==> a[j] == b[j]
}

/// Whether two arrays of 32 bytes hold the same bytes.
fn bytes_equal_32(a: &[u8; 32], b: &[u8; 32]) -> (r: bool)
    ensures
        r == (a@ == b@),
        r == (*a == *b),
{
    let mut i: usize = 0;
    while i < 32
        invariant
            i <= 32,
            forall|j: int| 0 <= j < i ==> a@[j] == b@[j],
        decreases 32 - i,
    {
        if a[i] != b[i] {
            return false;
        }
        i += 1;
    }
    assert(a@ =~= b@);
    assert(*a =~= *b);
    true
}

/// A copy of a byte string.
pub fn copy_bytes(bytes: &Vec<u8>) -> (r: Vec<u8>)
    ensures
        r@ == bytes@,
{
    let mut r: Vec<u8> = Vec::new();
    let mut i: usize = 0;
    while i < bytes.len()
        invariant
            i <= bytes.len(),
            r@ == bytes@.take(i as int),
        decreases bytes.len() - i,
    {
        r.push(bytes[i]);
        assert(r@ =~= bytes@.take(i as int + 1));
        i += 1;
    }
    assert(bytes@.take(i as int) =~= bytes@);
    r
}

// ---------------------------------------------------------------------------
// Node identifier
// ---------------------------------------------------------------------------

/// The identifier of a node: 32 opaque bytes. Two identifiers are equal when
/// their bytes are.
#[derive(Clone, Copy, Debug, Hash, PartialOrd, Ord)]
pub struct NodeId(pub [u8; 32]);

impl View for NodeId {
    type V = Seq<u8>;

    open spec fn view(&self) -> Seq<u8> {
        self.0@
    }
}

impl PartialEq for NodeId {
    fn eq(&self, other: &Self) -> (r: bool) {
        bytes_equal_32(&self.0, &other.0)
    }
}

impl Eq for NodeId {

}

impl vstd::std_specs::cmp::PartialEqSpecImpl for NodeId {
    open spec fn obeys_eq_spec() -> bool {
        true
    }

    open spec fn eq_spec(&self, other: &Self) -> bool {
        *self == *other
    }
}

impl NodeId {
    /// The identifier with the given bytes.
    pub fn new(bytes: [u8; 32]) -> (id: Self)
        ensures
            id.0 == bytes,
    {
        Self(bytes)
    }

    /// Whether the two identifiers are the same.
    pub fn same_as(&self, other: &NodeId) -> (r: bool)
        ensures
            r == (*self == *other),
    {
        bytes_equal_32(&self.0, &other.0)
    }

    /// Whether this identifier comes before `other` in the order of
    /// identifiers, which is the order of their bytes.
    pub fn precedes(&self, other: &NodeId) -> (r: bool)
        ensures
            r == comes_before(self@, other@),
    {
        let mut i: usize = 0;
        while i < 32
            invariant
                i <= 32,
                forall|j: int| 0 <= j < i ==> self.0@[j] == other.0@[j],
            decreases 32 - i,
        {
            if self.0[i] < other.0[i] {
                assert(self@[i as int] < other@[i as int]);
                return true;
            }
            if self.0[i] > other.0[i] {
                assert(!comes_before(self@, other@)) by {
                    if comes_before(self@, other@) {
                        let k = choose|k: int|
                            0 <= k < self@.len() && k < other@.len() && #[trigger] self@[k]
                                < other@[k] && forall|j: int| 0 <= j < k ==> self@[j] == other@[j];
                        if k < i {
                        } else if k > i {
                            assert(self@[i as int] == other@[i as int]);
                        }
                    }
                }
                return false;
            }
            i += 1;
        }
        false
    }

    /// An identifier of 32 random bytes.
    pub fn random() -> Self {
        Self(random_bytes_32())
    }

    /// The identifier that stands for an index: the index in little-endian
    /// order in the first eight bytes, zeros in the rest.
    pub fn from_index(index: u64) -> (id: Self)
        ensures
            id@ == index_bytes(index),
    {
        let mut bytes = [0u8; 32];
        let mut i: usize = 0;
        while i < 32
            invariant
                i <= 32,
                forall|j: int| 0 <= j < i && j < 8 ==> bytes@[j] == le_byte(index, j),
                forall|j: int| 8 <= j < i ==> bytes@[j] == 0u8,
            decreases 32 - i,
        {
            if i < 8 {
                let shift: u64 = 8 * i as u64;
                bytes[i] = ((index >> shift) & 0xff) as u8;
            } else {
                bytes[i] = 0;
            }
            i += 1;
        }
        assert(bytes@ =~= index_bytes(index));
        Self(bytes)
    }

    /// The bytes of the identifier.
    pub fn as_bytes(&self) -> (bytes: &[u8; 32])
        ensures
            *bytes == self.0,
    {
        &self.0
    }

    /// The identifier in writing: its first eight bytes in hexadecimal.
    pub fn to_string(&self) -> (s: String)
        ensures
            s@ == crate::types::hex::hex_chars(self@.take(8)),
    {
        let head = vstd::slice::slice_subrange(self.0.as_slice(), 0, 8);
        assert(head@ =~= self@.take(8));
        crate::types::hex::encode(head)
    }

    /// The identifier in short writing: its first four bytes in hexadecimal.
    pub fn short(&self) -> (s: String)
        ensures
            s@ == crate::types::hex::hex_chars(self@.take(4)),
    {
        let head = vstd::slice::slice_subrange(self.0.as_slice(), 0, 4);
        assert(head@ =~= self@.take(4));
        crate::types::hex::encode(head)
    }
}

/// Whether `id` is among `ids`.
pub fn contains_node(ids: &Vec<NodeId>, id: &NodeId) -> (r: bool)
    ensures
        r == ids@.contains(*id),
{
    let mut i: usize = 0;
    while i < ids.len()
        invariant
            i <= ids.len(),
            forall|j: int| 0 <= j < i ==> ids@[j] != *id,
        decreases ids.len() - i,
    {
        if ids[i].same_as(id) {
            return true;
        }
        i += 1;
    }
    false
}

/// A copy of a row of identifiers.
pub fn copy_nodes(ids: &Vec<NodeId>) -> (r: Vec<NodeId>)
    ensures
        r@ == ids@,
{
    let mut r: Vec<NodeId> = Vec::new();
    let mut i: usize = 0;
    while i < ids.len()
        invariant
            i <= ids.len(),
            r@ == ids@.take(i as int),
        decreases ids.len() - i,
    {
        r.push(ids[i]);
        assert(r@ =~= ids@.take(i as int + 1));
        i += 1;
    }
    assert(ids@.take(i as int) =~= ids@);
    r
}

/// Two identifiers with the same bytes are the same identifier.
pub proof fn lemma_node_id_by_bytes(a: NodeId, b: NodeId)
    ensures
        (a@ == b@) == (a == b),
{
    if a@ == b@ {
        assert(a.0 =~= b.0);
    }
}

/// Different indices stand behind different identifiers.
pub proof fn lemma_from_index_injective(a: u64, b: u64)
    requires
        index_bytes(a) == index_bytes(b),
    ensures
        a == b,
{
    assert forall|i: int| 0 <= i < 8 implies le_byte(a, i) == le_byte(b, i) by {
        assert(index_bytes(a)[i] == le_byte(a, i));
        assert(index_bytes(b)[i] == le_byte(b, i));
    }
    assert(le_byte(a, 0) == le_byte(b, 0));
    assert(le_byte(a, 1) == le_byte(b, 1));
    assert(le_byte(a, 2) == le_byte(b, 2));
    assert(le_byte(a, 3) == le_byte(b, 3));
    assert(le_byte(a, 4) == le_byte(b, 4));
    assert(le_byte(a, 5) == le_byte(b, 5));
    assert(le_byte(a, 6) == le_byte(b, 6));
    assert(le_byte(a, 7) == le_byte(b, 7));
    assert(a == b) by (bit_vector)
        requires
            ((a >> 0u64) & 0xff) as u8 == ((b >> 0u64) & 0xff) as u8,
            ((a >> 8u64) & 0xff) as u8 == ((b >> 8u64) & 0xff) as u8,
            ((a >> 16u64) & 0xff) as u8 == ((b >> 16u64) & 0xff) as u8,
            ((a >> 24u64) & 0xff) as u8 == ((b >> 24u64) & 0xff) as u8,
            ((a >> 32u64) & 0xff) as u8 == ((b >> 32u64) & 0xff) as u8,
            ((a >> 40u64) & 0xff) as u8 == ((b >> 40u64) & 0xff) as u8,
            ((a >> 48u64) & 0xff) as u8 == ((b >> 48u64) & 0xff) as u8,
            ((a >> 56u64) & 0xff) as u8 == ((b >> 56u64) & 0xff) as u8,
    ;
}

// ---------------------------------------------------------------------------
// Digest and signature
// ---------------------------------------------------------------------------

/// A digest: the 32 bytes of a BLAKE3 hash.
#[derive(Clone, Copy, Debug, Hash)]
pub struct Hash(pub [u8; 32]);

impl View for Hash {
    type V = Seq<u8>;

    open spec fn view(&self) -> Seq<u8> {
        self.0@
    }
}

impl PartialEq for Hash {
    fn eq(&self, other: &Self) -> (r: bool) {
        bytes_equal_32(&self.0, &other.0)
    }
}

impl Eq for Hash {

}

impl vstd::std_specs::cmp::PartialEqSpecImpl for Hash {
    open spec fn obeys_eq_spec() -> bool {
        true
    }

    open spec fn eq_spec(&self, other: &Self) -> bool {
        *self == *other
    }
}

impl Hash {
    /// The digest of `data`.
    pub fn compute(data: &[u8]) -> (h: Self)
        ensures
            h@ == blake3_digest(data@),
    {
        Self(blake3_hash(data))
    }

    /// The bytes of the digest.
    pub fn as_bytes(&self) -> (bytes: &[u8; 32])
        ensures
            *bytes == self.0,
    {
        &self.0
    }
}

/// A signature: 64 opaque bytes. Nothing in this library verifies one.
#[derive(Clone, Copy, Debug)]
pub struct Signature(pub [u8; 64]);

impl View for Signature {
    type V = Seq<u8>;

    open spec fn view(&self) -> Seq<u8> {
        self.0@
    }
}

impl PartialEq for Signature {
    fn eq(&self, other: &Self) -> (r: bool) {
        let mut i: usize = 0;
        while i < 64
            invariant
                i <= 64,
                forall|j: int| 0 <= j < i ==> self.0@[j] == other.0@[j],
            decreases 64 - i,
        {
            if self.0[i] != other.0[i] {
                return false;
            }
            i += 1;
        }
        assert(self.0 =~= other.0);
        true
    }
}

impl Eq for Signature {

}

impl vstd::std_specs::cmp::PartialEqSpecImpl for Signature {
    open spec fn obeys_eq_spec() -> bool {
        true
    }

    open spec fn eq_spec(&self, other: &Self) -> bool {
        *self == *other
    }
}

impl Signature {
    /// The signature with the given bytes.
    pub fn new(bytes: [u8; 64]) -> (sig: Self)
        ensures
            sig.0 == bytes,
    {
        Self(bytes)
    }

    /// The signature that a byte string holds, if the string has the length
    /// of a signature: 64 bytes.
    pub fn from_slice(bytes: &[u8]) -> (r: Option<Self>)
        ensures
            match r {
                Some(sig) => bytes@.len() == 64 && sig@ == bytes@,
                None => bytes@.len() != 64,
            },
    {
        if bytes.len() != 64 {
            return None;
        }
        let mut held = [0u8; 64];
        let mut i: usize = 0;
        while i < 64
            invariant
                i <= 64,
                bytes@.len() == 64,
                forall|j: int| 0 <= j < i ==> held@[j] == bytes@[j],
            decreases 64 - i,
        {
            held[i] = bytes[i];
            i += 1;
        }
        let sig = Self(held);
        assert(sig@ =~= bytes@);
        Some(sig)
    }

    /// The signature of 64 zero bytes, which stands where none was made.
    pub fn placeholder() -> (sig: Self)
        ensures
            sig@ == Seq::new(64, |i: int| 0u8),
    {
        let sig = Self([0u8; 64]);
        assert(sig@ =~= Seq::new(64, |i: int| 0u8));
        sig
    }

    /// The bytes of the signature.
    pub fn as_bytes(&self) -> (bytes: &[u8; 64])
        ensures
            *bytes == self.0,
    {
        &self.0
    }
}

// ---------------------------------------------------------------------------
// Timestamp
// ---------------------------------------------------------------------------

/// A point in time: milliseconds since the Unix epoch.
#[derive(Clone, Copy, Debug, PartialEq, Eq, Structural, PartialOrd, Ord, Hash)]
pub struct Timestamp(pub u64);

impl Timestamp {
    /// The timestamp of the given millisecond.
    pub fn new(millis: u64) -> (t: Self)
        ensures
            t.0 == millis,
    {
        Self(millis)
    }

    /// The time that the system clock shows.
    pub fn now() -> Self {
        Self(system_millis())
    }

    /// The millisecond of the timestamp.
    pub fn millis(&self) -> (m: u64)
        ensures
            m == self.0,
    {
        self.0
    }

    /// The milliseconds from this timestamp to `now`: zero when `now` is not
    /// later.
    pub open spec fn age_at(self, now: Timestamp) -> int {
        if now.0 >= self.0 {
            now.0 - self.0
        } else {
            0
        }
    }

    /// Whether, at the time `now`, this timestamp lies more than
    /// `duration_ms` milliseconds back.
    pub fn is_older_at(&self, now: Timestamp, duration_ms: u64) -> (r: bool)
        ensures
            r == (self.age_at(now) > duration_ms),
    {
        if now.0 >= self.0 {
            now.0 - self.0 > duration_ms
        } else {
            false
        }
    }

    /// Whether this timestamp lies more than `duration_ms` milliseconds
    /// back, by the system clock. Whatever the clock shows, that can only be
    /// so for a timestamp that leaves room for a later one so far ahead.
    pub fn is_older_than(&self, duration_ms: u64) -> (r: bool)
        ensures
            r ==> self.0 + duration_ms < u64::MAX,
    {
        let now = Timestamp::now();
        self.is_older_at(now, duration_ms)
    }
}

// ---------------------------------------------------------------------------
// Capability, task, workflow and step identifiers
// ---------------------------------------------------------------------------

/// The identifier of a capability.
#[derive(Clone, Copy, Debug, PartialEq, Eq, Structural, Hash)]
pub struct CapabilityId(pub u64);

impl CapabilityId {
    /// The identifier with the given number.
    pub fn new(id: u64) -> (c: Self)
        ensures
            c.0 == id,
    {
        Self(id)
    }

    /// The number that a name stands for: the first eight bytes of the
    /// digest of the name, read in little-endian order.
    pub open spec fn of_name(name: Seq<char>) -> u64 {
        le_value(blake3_digest(vstd::utf8::encode_utf8(name)))
    }

    /// The identifier that a name stands for. The same name gives the same
    /// identifier.
    pub fn from_name(name: &str) -> (c: Self)
        ensures
            c.0 == Self::of_name(name@),
    {
        let digest = blake3_hash(name.as_bytes());
        let value: u64 = (digest[0] as u64) | (digest[1] as u64) << 8 | (digest[2] as u64) << 16 | (
        digest[3] as u64) << 24 | (digest[4] as u64) << 32 | (digest[5] as u64) << 40 | (
        digest[6] as u64) << 48 | (digest[7] as u64) << 56;
        Self(value)
    }
}

/// The identifier of a task.
#[derive(Clone, Copy, Debug, PartialEq, Eq, Structural, Hash)]
pub struct TaskId(pub u64);

impl TaskId {
    /// The identifier with the given number.
    pub fn new(id: u64) -> (t: Self)
        ensures
            t.0 == id,
    {
        Self(id)
    }

    /// An identifier with a random number.
    pub fn random() -> Self {
        Self(random_u64())
    }
}

/// The identifier of a workflow.
#[derive(Clone, Copy, Debug, PartialEq, Eq, Structural, Hash)]
pub struct WorkflowId(pub u64);

impl WorkflowId {
    /// The identifier with the given number.
    pub fn new(id: u64) -> (w: Self)
        ensures
            w.0 == id,
    {
        Self(id)
    }

    /// An identifier with a random number.
    pub fn random() -> Self {
        Self(random_u64())
    }
}

impl Default for WorkflowId {
    /// The identifier zero.
    fn default() -> (w: Self)
        ensures
            w.0 == 0,
    {
        Self(0)
    }
}

/// The identifier of a step of a workflow.
#[derive(Clone, Copy, Debug, PartialEq, Eq, Structural, Hash)]
pub struct StepId(pub u64);

impl StepId {
    /// The identifier with the given number.
    pub fn new(id: u64) -> (s: Self)
        ensures
            s.0 == id,
    {
        Self(id)
    }
}

} // verus!
