use p3_sha512::constants::SHA256_H;
use p3_sha512::sha256::{permute, sha256};
use sha2::Digest;

fn expected(bytes: &[u8]) -> Vec<u8> {
    sha2::Sha256::digest(bytes).to_vec()
}

#[test]
fn sha256_of_abc() {
    let d = sha256(b"abc");
    let hex: String = d.iter().map(|b| format!("{:02x}", b)).collect();
    assert_eq!(hex, "ba7816bf8f01cfea414140de5dae2223b00361a396177a9cb410ff61f20015ad");
}

#[test]
fn sha256_of_empty() {
    let d = sha256(b"");
    let hex: String = d.iter().map(|b| format!("{:02x}", b)).collect();
    assert_eq!(hex, "e3b0c44298fc1c149afbf4c8996fb92427ae41e4649b934ca495991b7852b855");
}

#[test]
fn sha256_matches_sha2_at_padding_edges() {
    for len in [1usize, 55, 56, 57, 63, 64, 65, 119, 120, 128, 1000] {
        let bytes: Vec<u8> = (0..len).map(|i| (i * 7 + 3) as u8).collect();
        assert_eq!(sha256(&bytes), expected(&bytes), "length {}", len);
    }
}

#[test]
fn sha256_of_main_bytes() {
    let rand_bytes: [u8; 32] = [
        16, 71, 94, 251, 180, 27, 214, 66, 25, 64, 54, 0, 202, 116, 10, 106, 153, 150, 20, 138,
        173, 67, 225, 187, 28, 143, 224, 140, 200, 218, 171, 166,
    ];
    assert_eq!(sha256(&rand_bytes), expected(&rand_bytes));
}

#[test]
fn permute_compresses_one_block() {
    // "abc" padded to one block.
    let mut block = [0u8; 64];
    block[0] = b'a';
    block[1] = b'b';
    block[2] = b'c';
    block[3] = 0x80;
    block[63] = 24;
    let mut seed = SHA256_H;
    permute(&mut seed, &block);
    assert_eq!(seed[0], 0xba7816bf);
    assert_eq!(seed[7], 0xf20015ad);
    assert_ne!(seed, SHA256_H);
}
