use blockhead::address::Address;
use blockhead::encoding::u64_be_bytes;
use blockhead::hash::HashBuilder;
use blockhead::transaction::Transaction;

fn digest_of(bytes: &[u8]) -> blockhead::hash::Hash {
    let mut b = HashBuilder::new();
    b.update(bytes);
    b.finalize()
}

fn hex_bytes(s: &str) -> Vec<u8> {
    (0..s.len() / 2)
        .map(|i| u8::from_str_radix(&s[2 * i..2 * i + 2], 16).unwrap())
        .collect()
}

#[test]
fn blake2s_of_empty_input() {
    let h = HashBuilder::new().finalize();
    assert_eq!(
        h.0.to_vec(),
        hex_bytes("69217a3079908094e11121d042354a7c1f55b6482ca1a51e1b250dfd1ed0eef9")
    );
}

#[test]
fn blake2s_of_abc() {
    let h = blockhead::hash::Hash::from_text("abc");
    assert_eq!(
        h.0.to_vec(),
        hex_bytes("508c5e8c327c14e2e1a72ba34eeb452f37458b209ed63a294d999b4c86675982")
    );
}

#[test]
fn builder_is_incremental() {
    let mut b = HashBuilder::new();
    b.update(b"ab");
    b.update(b"");
    b.update(b"c");
    assert_eq!(b.finalize(), digest_of(b"abc"));
    assert_ne!(digest_of(b"abc"), digest_of(b"acb"));
}

#[test]
fn hash_hex_form() {
    let h = blockhead::hash::Hash([0xab; 32]);
    assert_eq!(h.to_hex_string(), format!("0x{}", "ab".repeat(32)));
    let z = blockhead::hash::Hash::zero();
    assert_eq!(z.to_hex_string(), format!("0x{}", "00".repeat(32)));
    let mut bytes = [0u8; 32];
    bytes[0] = 0x01;
    bytes[31] = 0xf0;
    let a = Address(bytes);
    let s = a.to_hex_string();
    assert!(s.starts_with("0x01"));
    assert!(s.ends_with("f0"));
    assert_eq!(s.len(), 66);
}

#[test]
fn big_endian_bytes() {
    assert_eq!(u64_be_bytes(0x0102030405060708), [1, 2, 3, 4, 5, 6, 7, 8]);
    assert_eq!(u64_be_bytes(0), [0; 8]);
    assert_eq!(u64_be_bytes(u64::MAX), [0xff; 8]);
}

#[test]
fn transaction_hash_layout() {
    let tx = Transaction {
        from_address: Address([1; 32]),
        to_address: Address([2; 32]),
        value: 300,
        data: vec![9, 8, 7],
    };
    let parent = blockhead::hash::Hash([3; 32]);
    let mut input = Vec::new();
    input.extend_from_slice(&[3; 32]);
    input.extend_from_slice(&[1; 32]);
    input.extend_from_slice(&[2; 32]);
    input.extend_from_slice(&300u64.to_be_bytes());
    input.extend_from_slice(&[9, 8, 7]);
    assert_eq!(tx.compute_hash(parent), digest_of(&input));
}

#[test]
fn transaction_hash_is_deterministic() {
    let tx = Transaction {
        from_address: Address([1; 32]),
        to_address: Address([2; 32]),
        value: 40,
        data: vec![],
    };
    let same = tx.clone();
    let parent = blockhead::hash::Hash::from_text("parent");
    assert_eq!(tx.compute_hash(parent), tx.compute_hash(parent));
    assert_eq!(tx.compute_hash(parent), same.compute_hash(parent));
    let other = blockhead::hash::Hash::from_text("other");
    assert_ne!(tx.compute_hash(parent), tx.compute_hash(other));
}
