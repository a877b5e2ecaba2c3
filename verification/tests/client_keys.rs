use no_sql_store::client::keys::{hash_input, hash_key, key_of_digest, partition, StoreKey};
use no_sql_store::mutation::Key;

#[test]
fn partition_matches_worker_algorithm() {
    assert_eq!(partition(0), 0);
    assert_eq!(partition(4095), 4095);
    assert_eq!(partition(4096), 0);
    assert_eq!(partition(8193), 1);
}

#[test]
fn store_keys_are_stable_and_preserve_u64_values() {
    assert_eq!(42_u64.to_store_key(), 42);
    assert_eq!(
        "customer:42".to_store_key(),
        "customer:42".to_string().to_store_key()
    );
    assert_eq!("customer:42".to_store_key(), b"customer:42".to_store_key());
    assert_ne!("customer:42".to_store_key(), "customer:43".to_store_key());
}

#[test]
fn client_and_worker_agree_on_the_partition() {
    for key in [0, 1, 4095, 4096, 8193, u64::MAX] {
        assert_eq!(partition(key), Key(key).partition() as u32);
    }
}

#[test]
fn hashed_keys_are_the_prefix_of_the_incremental_digest() {
    for text in ["", "customer:42", "\u{e9}\u{4e16}\u{1f600}"] {
        let mut hasher = blake3::Hasher::new();
        hasher.update(b"no-sql-store:key:v1\0");
        hasher.update(text.as_bytes());
        let digest = hasher.finalize();
        let mut prefix = [0_u8; 8];
        prefix.copy_from_slice(&digest.as_bytes()[..8]);
        assert_eq!(text.to_store_key(), u64::from_le_bytes(prefix));
        assert_eq!(hash_key(text.as_bytes()), u64::from_le_bytes(prefix));
    }
}

#[test]
fn hashing_is_separated_from_other_uses_of_the_digest() {
    assert_eq!(hash_input(b"ab"), b"no-sql-store:key:v1\0ab".to_vec());
    let plain = blake3::hash(b"ab");
    assert_ne!(hash_key(b"ab"), key_of_digest(plain.as_bytes()));
}

#[test]
fn digest_prefix_is_little_endian() {
    let mut digest = [0_u8; 32];
    for (place, byte) in digest.iter_mut().enumerate() {
        *byte = place as u8 + 1;
    }
    assert_eq!(key_of_digest(&digest), 0x0807_0605_0403_0201);
    assert_eq!(key_of_digest(&[0xff; 32]), u64::MAX);
}

#[test]
fn integer_keys_keep_their_value() {
    assert_eq!(7_u8.to_store_key(), 7);
    assert_eq!(700_u16.to_store_key(), 700);
    assert_eq!(70_000_u32.to_store_key(), 70_000);
    assert_eq!(9_usize.to_store_key(), 9);
    assert_eq!(5_i8.to_store_key(), 5);
    assert_eq!(5_i16.to_store_key(), 5);
    assert_eq!(5_i32.to_store_key(), 5);
    assert_eq!(5_i64.to_store_key(), 5);
    assert_eq!(5_isize.to_store_key(), 5);
}

#[test]
fn negative_keys_carry_their_sign() {
    assert_eq!((-1_i8).to_store_key(), u64::MAX);
    assert_eq!((-2_i16).to_store_key(), u64::MAX - 1);
    assert_eq!(i32::MIN.to_store_key(), 0xffff_ffff_8000_0000);
    assert_eq!(i64::MIN.to_store_key(), 0x8000_0000_0000_0000);
    assert_eq!((-1_isize).to_store_key(), u64::MAX);
}

#[test]
fn references_and_slices_have_the_key_of_what_they_show() {
    let bytes = b"customer:42";
    assert_eq!((&bytes[..]).to_store_key(), bytes.to_store_key());
    assert_eq!((&&42_u64).to_store_key(), 42);
}

struct UserId(u64);

impl StoreKey for UserId {
    fn to_store_key(&self) -> u64 {
        self.0
    }
}

#[test]
fn application_types_can_be_keys() {
    assert_eq!(UserId(12).to_store_key(), 12);
    assert_eq!((&UserId(12)).to_store_key(), 12);
}
