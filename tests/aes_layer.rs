use aes::cipher::generic_array::GenericArray;
use aes::{Aes256, BlockEncrypt, NewBlockCipher};
use block_modes::block_padding::NoPadding;
use block_modes::{BlockMode, Cbc};
use layer_peel::error::PeelError;
use layer_peel::layer5;

fn hex(s: &str) -> Vec<u8> {
    (0..s.len()).step_by(2).map(|i| u8::from_str_radix(&s[i..i + 2], 16).unwrap()).collect()
}

fn words(b: &[u8]) -> Vec<u64> {
    b.chunks(8).map(|c| u64::from_be_bytes(c.try_into().unwrap())).collect()
}

/// RFC 3394 key wrap with AES-256 and the default IV.
fn wrap(kek: &[u8], key: &[u8]) -> Vec<u8> {
    let cipher = Aes256::new(GenericArray::from_slice(kek));
    let mut r = words(key);
    let n = r.len() as u64;
    let mut a: u64 = 0xA6A6A6A6A6A6A6A6;
    for j in 0..6u64 {
        for i in 0..r.len() {
            let mut block = [0u8; 16];
            block[..8].copy_from_slice(&a.to_be_bytes());
            block[8..].copy_from_slice(&r[i].to_be_bytes());
            let mut b = GenericArray::clone_from_slice(&block);
            cipher.encrypt_block(&mut b);
            a = u64::from_be_bytes(b[..8].try_into().unwrap()) ^ (n * j + i as u64 + 1);
            r[i] = u64::from_be_bytes(b[8..].try_into().unwrap());
        }
    }
    let mut out = a.to_be_bytes().to_vec();
    for w in r {
        out.extend(w.to_be_bytes());
    }
    out
}

fn key_of(ws: &[u64]) -> Vec<u8> {
    ws.iter().flat_map(|w| w.to_be_bytes()).collect()
}

#[test]
fn unwrap_rfc_vector() {
    let kek = hex("000102030405060708090A0B0C0D0E0F101112131415161718191A1B1C1D1E1F");
    let wrapped = hex(
        "28C9F404C4B810F4CBCCB35CFB87F8263F5786E2D80ED326CBC7F0E71A99F43BFB988B9B7A02DD21",
    );
    let mut c = words(&wrapped);
    let ok = layer5::unwrap_key(&mut c, &kek, &[0xA6; 8]);
    assert!(ok);
    assert_eq!(
        key_of(&c),
        hex("00112233445566778899AABBCCDDEEFF000102030405060708090A0B0C0D0E0F")
    );
}

#[test]
fn unwrap_zero_kek() {
    let kek = [0u8; 32];
    let key: Vec<u8> = (0..32u8).map(|i| i * 7 + 3).collect();
    let wrapped = wrap(&kek, &key);
    let mut c = words(&wrapped);
    assert!(layer5::unwrap_key(&mut c, &kek, &[0xA6; 8]));
    assert_eq!(key_of(&c), key);
}

#[test]
fn unwrap_reports_other_iv() {
    let kek = [0u8; 32];
    let key = [9u8; 32];
    let mut c = words(&wrap(&kek, &key));
    assert!(!layer5::unwrap_key(&mut c, &kek, &[0xA5; 8]));
}

fn layer5_input(kek_iv: [u8; 8], plain: &[u8]) -> Vec<u8> {
    let kek: Vec<u8> = (0..32u8).map(|i| 255 - i).collect();
    let key: Vec<u8> = (0..32u8).map(|i| i ^ 0x3C).collect();
    let iv: Vec<u8> = (0..16u8).collect();
    let mut out = kek.clone();
    out.extend(kek_iv);
    out.extend(wrap(&kek, &key));
    out.extend(&iv);
    out.extend(Cbc::<Aes256, NoPadding>::new_from_slices(&key, &iv).unwrap().encrypt_vec(plain));
    out
}

#[test]
fn layer5_decrypts_payload() {
    let plain = b"==[ Layer 6/5: done ]=============================\n";
    let padded: Vec<u8> = plain.iter().copied().chain(std::iter::repeat(b' ')).take(64).collect();
    let input = layer5_input([0xA6; 8], &padded);
    assert_eq!(layer5::solve(input), Ok(padded));
}

#[test]
fn layer5_integrity_failure() {
    let input = layer5_input([0x00; 8], &[7u8; 32]);
    assert_eq!(layer5::solve(input), Err(PeelError::IntegrityFailure));
}

#[test]
fn layer5_bad_block_size() {
    let mut input = layer5_input([0xA6; 8], &[7u8; 32]);
    input.pop();
    assert_eq!(layer5::solve(input), Err(PeelError::BadBlockSize));
    let input = layer5_input([0xA6; 8], &[]);
    assert_eq!(input.len(), 96);
    assert_eq!(layer5::solve(input), Err(PeelError::BadBlockSize));
}

#[test]
fn layer5_short_header() {
    assert_eq!(layer5::solve(vec![0; 95]), Err(PeelError::TruncatedStream));
}
