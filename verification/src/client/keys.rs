//! How application keys become the 64-bit keys that workers store.

use crate::mutation::partition_of;
use vstd::prelude::*;
use vstd::utf8::encode_utf8;

verus! {

/// The text that every hashed key is prefixed with.
pub open spec fn key_hash_domain() -> Seq<u8> {
    encode_utf8("no-sql-store:key:v1\0"@)
}

/// What `blake3::hash` makes of an input.
pub uninterp spec fn blake3_hash(input: Seq<u8>) -> Seq<u8>;

/// Calls `blake3::hash`, which depends on the input alone. Nothing else is claimed of the
/// 32 bytes that come back.
#[verifier::external_body]
fn blake3_digest(input: &[u8]) -> (digest: [u8; 32])
    ensures
        digest@ == blake3_hash(input@),
{
    *blake3::hash(input).as_bytes()
}

/// The number that the first eight bytes of a digest spell, least significant byte first.
pub open spec fn digest_prefix(digest: Seq<u8>) -> int {
    digest[0] + 0x100 * digest[1] + 0x1_0000 * digest[2] + 0x100_0000 * digest[3] + 0x1_0000_0000
        * digest[4] + 0x100_0000_0000 * digest[5] + 0x1_0000_0000_0000 * digest[6]
        + 0x100_0000_0000_0000 * digest[7]
}

/// The key that a digest stands for: its first eight bytes, least significant byte first.
pub fn key_of_digest(digest: &[u8; 32]) -> (key: u64)
    ensures
        key == digest_prefix(digest@),
{
    digest[0] as u64 + 0x100 * (digest[1] as u64) + 0x1_0000 * (digest[2] as u64) + 0x100_0000 * (
    digest[3] as u64) + 0x1_0000_0000 * (digest[4] as u64) + 0x100_0000_0000 * (digest[5] as u64)
        + 0x1_0000_0000_0000 * (digest[6] as u64) + 0x100_0000_0000_0000 * (digest[7] as u64)
}

/// The key that the bytes of a key are hashed to.
pub open spec fn hashed_key(bytes: Seq<u8>) -> u64 {
    digest_prefix(blake3_hash(key_hash_domain() + bytes)) as u64
}

/// Adds `more` to the end of `bytes`.
fn append_bytes(bytes: &mut Vec<u8>, more: &[u8])
    ensures
        final(bytes)@ == old(bytes)@ + more@,
{
    let mut i: usize = 0;
    assert(bytes@ =~= old(bytes)@ + more@.take(0));
    while i < more.len()
        invariant
            i <= more.len(),
            bytes@ == old(bytes)@ + more@.take(i as int),
        decreases more.len() - i,
    {
        bytes.push(more[i]);
        i = i + 1;
        assert(bytes@ =~= old(bytes)@ + more@.take(i as int));
    }
    assert(more@.take(i as int) =~= more@);
}

/// The bytes that are hashed for a key: the domain, then the key.
pub fn hash_input(key: &[u8]) -> (input: Vec<u8>)
    ensures
        input@ == key_hash_domain() + key@,
{
    let mut input: Vec<u8> = Vec::new();
    append_bytes(&mut input, "no-sql-store:key:v1\0".as_bytes());
    append_bytes(&mut input, key);
    assert(input@ =~= key_hash_domain() + key@);
    input
}

/// Hashes the bytes of a key, in a domain of their own, to 64 bits.
pub fn hash_key(key: &[u8]) -> (hashed: u64)
    ensures
        hashed == hashed_key(key@),
{
    let input = hash_input(key);
    let digest = blake3_digest(input.as_slice());
    key_of_digest(&digest)
}

/// The 64 bits of a signed number, with its sign carried to the left.
pub open spec fn sign_extended(value: int) -> u64 {
    if value >= 0 {
        value as u64
    } else {
        (0x1_0000_0000_0000_0000 + value) as u64
    }
}

/// A key that can be mapped to the `u64` representation used by worker nodes.
///
/// Integer keys retain their original value. Strings and byte slices use a stable,
/// domain-separated BLAKE3 hash truncated to 64 bits.
pub trait StoreKey {
    /// The key under which a worker stores the value.
    fn to_store_key(&self) -> (key: u64);
}

impl StoreKey for u64 {
    fn to_store_key(&self) -> (key: u64)
        ensures
            key == *self,
    {
        *self
    }
}

impl StoreKey for u8 {
    fn to_store_key(&self) -> (key: u64)
        ensures
            key == *self,
    {
        *self as u64
    }
}

impl StoreKey for u16 {
    fn to_store_key(&self) -> (key: u64)
        ensures
            key == *self,
    {
        *self as u64
    }
}

impl StoreKey for u32 {
    fn to_store_key(&self) -> (key: u64)
        ensures
            key == *self,
    {
        *self as u64
    }
}

impl StoreKey for usize {
    fn to_store_key(&self) -> (key: u64)
        ensures
            key == *self,
    {
        *self as u64
    }
}

impl StoreKey for i8 {
    fn to_store_key(&self) -> (key: u64)
        ensures
            key == sign_extended(*self as int),
    {
        let value: i8 = *self;
        assert(value < 0 ==> value as u64 == 0x1_0000_0000_0000_0000 + value) by (bit_vector);
        #[verifier::truncate]
        (value as u64)
    }
}

impl StoreKey for i16 {
    fn to_store_key(&self) -> (key: u64)
        ensures
            key == sign_extended(*self as int),
    {
        let value: i16 = *self;
        assert(value < 0 ==> value as u64 == 0x1_0000_0000_0000_0000 + value) by (bit_vector);
        #[verifier::truncate]
        (value as u64)
    }
}

impl StoreKey for i32 {
    fn to_store_key(&self) -> (key: u64)
        ensures
            key == sign_extended(*self as int),
    {
        let value: i32 = *self;
        assert(value < 0 ==> value as u64 == 0x1_0000_0000_0000_0000 + value) by (bit_vector);
        #[verifier::truncate]
        (value as u64)
    }
}

impl StoreKey for i64 {
    fn to_store_key(&self) -> (key: u64)
        ensures
            key == sign_extended(*self as int),
    {
        let value: i64 = *self;
        assert(value < 0 ==> value as u64 == 0x1_0000_0000_0000_0000 + value) by (bit_vector);
        #[verifier::truncate]
        (value as u64)
    }
}

impl StoreKey for isize {
    fn to_store_key(&self) -> (key: u64)
        ensures
            key == sign_extended(*self as int),
    {
        let value: isize = *self;
        assert(value < 0 ==> value as u64 == 0x1_0000_0000_0000_0000 + value) by (bit_vector);
        #[verifier::truncate]
        (value as u64)
    }
}

impl StoreKey for str {
    fn to_store_key(&self) -> (key: u64)
        ensures
            key == hashed_key(encode_utf8(self@)),
    {
        hash_key(self.as_bytes())
    }
}

impl StoreKey for String {
    fn to_store_key(&self) -> (key: u64)
        ensures
            key == hashed_key(encode_utf8(self@)),
    {
        self.as_str().to_store_key()
    }
}

impl StoreKey for [u8] {
    fn to_store_key(&self) -> (key: u64)
        ensures
            key == hashed_key(self@),
    {
        hash_key(self)
    }
}

impl<const N: usize> StoreKey for [u8; N] {
    fn to_store_key(&self) -> (key: u64)
        ensures
            key == hashed_key(self@),
    {
        self.as_slice().to_store_key()
    }
}

impl<T: StoreKey + ?Sized> StoreKey for &T {
    fn to_store_key(&self) -> (key: u64)
        ensures
            call_ensures(T::to_store_key, (*self,), key),
    {
        (**self).to_store_key()
    }
}

/// The partition of a key.
pub fn partition(key: u64) -> (id: u32)
    ensures
        id == key % 4096,
        id == partition_of(key),
{
    (key % 4096) as u32
}

} // verus!
