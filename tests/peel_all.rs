use aes::Aes256;
use aes::cipher::generic_array::GenericArray;
use aes::{BlockEncrypt, NewBlockCipher};
use block_modes::block_padding::NoPadding;
use block_modes::{BlockMode, Cbc};
use layer_peel::armor;
use layer_peel::error::PeelError;
use layer_peel::pipeline;

#[test]
fn armor_decodes_last_block() {
    let text = b"old banner <~87cURD]i,\"Ebo80~>\nnew banner <~9jqo^F*2M7/c~>";
    assert_eq!(armor::decode_payload(text), Ok(b"Man sure.".to_vec()));
}

#[test]
fn armor_find_start() {
    assert_eq!(armor::find_armor_start(b"ab<~cd<~ef"), Some(6));
    assert_eq!(armor::find_armor_start(b"ab~<cd<"), None);
    assert_eq!(armor::find_armor_start(b""), None);
}

#[test]
fn armor_missing_start() {
    assert_eq!(armor::decode_payload(b"no armor here"), Err(PeelError::MalformedArmor));
}

#[test]
fn armor_not_utf8() {
    assert_eq!(armor::decode_payload(b"\xFF <~9jqo^~>"), Err(PeelError::MalformedArmor));
}

#[test]
fn armor_bad_digit() {
    assert_eq!(armor::decode_payload(b"<~9j{o^~>"), Err(PeelError::MalformedArmor));
}

#[test]
fn armor_group_out_of_range() {
    assert!(!armor::decodes_without_overflow(b"<~uuuuu~>"));
    assert!(armor::decodes_without_overflow(b"<~s8W-!~>"));
    assert_eq!(armor::decode_payload(b"<~uuuuu~>"), Err(PeelError::MalformedArmor));
    assert_eq!(armor::decode_payload(b"<~s8W-!~>"), Ok(vec![0xFF, 0xFF, 0xFF, 0xFF]));
}

fn armored(banner: &str, body: &[u8]) -> Vec<u8> {
    let mut out = banner.as_bytes().to_vec();
    out.extend(ascii85::encode(body).as_bytes());
    out.push(b'\n');
    out
}

fn twist_inverse(b: &[u8]) -> Vec<u8> {
    let n = b.len();
    (0..n).map(|i| ((b[i] << 1) | (b[(i + 1) % n] >> 7)) ^ 0x55).collect()
}

fn parity_pack(b: &[u8]) -> Vec<u8> {
    assert_eq!(b.len() % 7, 0);
    let mut out = vec![0xFE];
    for chunk in b.chunks(7) {
        let mut v: u64 = 0;
        for &c in chunk {
            v = (v << 8) | c as u64;
        }
        for i in 0..8 {
            let high = ((v >> (7 * (7 - i))) & 0x7F) as u8;
            out.push((high << 1) | (high.count_ones() as u8 & 1));
        }
        out.push(0x01);
    }
    out
}

fn fold(words: &[u16]) -> u16 {
    let mut sum: u32 = words.iter().map(|&w| w as u32).sum();
    sum = (sum >> 16) + (sum & 0xFFFF);
    sum = (sum >> 16) + (sum & 0xFFFF);
    !(sum as u16)
}

fn packet(port: u16, data: &[u8]) -> Vec<u8> {
    let (src, dst): (u32, u32) = (0x0A01010A, 0x0A0101C8);
    let total = (28 + data.len()) as u16;
    let udp_len = (8 + data.len()) as u16;
    let mut ip = vec![0x45, 0x00];
    ip.extend(total.to_be_bytes());
    ip.extend([0, 0, 0, 0, 0x40, 0x11, 0, 0]);
    ip.extend(src.to_be_bytes());
    ip.extend(dst.to_be_bytes());
    let w: Vec<u16> = (0..20)
        .step_by(2)
        .filter(|&i| i != 10)
        .map(|i| u16::from_be_bytes([ip[i], ip[i + 1]]))
        .collect();
    let ck = fold(&w);
    ip[10..12].copy_from_slice(&ck.to_be_bytes());
    let mut words = vec![
        (src >> 16) as u16, src as u16, (dst >> 16) as u16, dst as u16, 0x11, udp_len, 7, port,
        udp_len,
    ];
    for pair in data.chunks(2) {
        words.push(u16::from_be_bytes([pair[0], *pair.get(1).unwrap_or(&0)]));
    }
    let mut out = ip;
    out.extend(7u16.to_be_bytes());
    out.extend(port.to_be_bytes());
    out.extend(udp_len.to_be_bytes());
    out.extend(fold(&words).to_be_bytes());
    out.extend(data);
    out
}

fn wrap(kek: &[u8], key: &[u8]) -> Vec<u8> {
    let cipher = Aes256::new(GenericArray::from_slice(kek));
    let mut r: Vec<u64> =
        key.chunks(8).map(|c| u64::from_be_bytes(c.try_into().unwrap())).collect();
    let n = r.len() as u64;
    let mut a: u64 = 0xA6A6A6A6A6A6A6A6;
    for j in 0..6u64 {
        for i in 0..r.len() {
            let mut block = [0u8; 16];
            block[..8].copy_from_slice(&a.to_be_bytes());
            block[8..].copy_from_slice(&r[i].to_be_bytes());
            let mut b = GenericArray::clone_from_slice(&block);
            cipher.encrypt_block(&mut b);
            a = u64::from_be_bytes(b[..8].try_into().unwrap()) ^ (n * j + i as u64 + 1);
            r[i] = u64::from_be_bytes(b[8..].try_into().unwrap());
        }
    }
    let mut out = a.to_be_bytes().to_vec();
    for w in r {
        out.extend(w.to_be_bytes());
    }
    out
}

const FINAL: &[u8] = b"==[ Layer 6/5: Core ]=========== you made it =====";

fn fixture() -> Vec<u8> {
    // Layer 5 input: header and AES-256-CBC ciphertext.
    let kek = [0x42u8; 32];
    let key: Vec<u8> = (0..32u8).map(|i| i.wrapping_mul(13)).collect();
    let iv = [0x24u8; 16];
    let mut plain = FINAL.to_vec();
    plain.resize(64, b' ');
    let mut l5 = kek.to_vec();
    l5.extend([0xA6; 8]);
    l5.extend(wrap(&kek, &key));
    l5.extend(iv);
    l5.extend(Cbc::<Aes256, NoPadding>::new_from_slices(&key, &iv).unwrap().encrypt_vec(&plain));
    let text4 = armored("==[ Layer 5/5: Advanced Encryption ]==\n", &l5);

    // Layer 4 input: packets, one of them filtered out.
    let mut l4 = Vec::new();
    for (k, part) in text4.chunks(100).enumerate() {
        l4.extend(packet(42069, part));
        if k == 0 {
            l4.extend(packet(42070, b"noise"));
        }
    }
    let text3 = armored("==[ Layer 4/5: Network Traffic ]==\n", &l4);

    // Layer 3 input: the prefix columns under a key, the rest left clear.
    let mut l3 = text3.clone();
    for (j, b) in l3.iter_mut().enumerate() {
        if j % 32 < 15 {
            *b ^= 0x80 | (j % 32) as u8;
        }
    }
    let mut text2 = armored("==[ Layer 3/5: XOR Encryption ]==\n", &l3);
    while text2.len() % 7 != 0 {
        text2.push(b'\n');
    }

    let l2 = parity_pack(&text2);
    let text1 = armored("==[ Layer 2/5: Parity Bit ]==\n", &l2);
    let l1 = twist_inverse(&text1);
    armored("==[ Layer 1/5: Bitshift ]==\n", &l1)
}

#[test]
fn stages_one_at_a_time() {
    let input = fixture();
    let mut current = input;
    for stage in 1..=5 {
        current = pipeline::run_stage(stage, &current).unwrap();
        if stage < 5 {
            assert!(current.starts_with(b"==[ Layer "));
        }
    }
    assert!(current.starts_with(FINAL));
}

#[test]
fn end_to_end_repeatable() {
    let input = fixture();
    let first = pipeline::peel(&input).unwrap();
    assert!(first.starts_with(FINAL));
    assert_eq!(first.len(), 64);
    let second = pipeline::peel(&input).unwrap();
    assert_eq!(first, second);
}

#[test]
fn pipeline_stops_on_error() {
    assert_eq!(pipeline::peel(b"nothing to see"), Err(PeelError::MalformedArmor));
    let empty = armored("banner ", b"");
    assert_eq!(pipeline::run_stage(1, &empty), Err(PeelError::EmptyInput));
}

#[test]
fn apply_layer_dispatches() {
    assert_eq!(pipeline::apply_layer(1, vec![0x00, 0xFF]), Ok(vec![0x2A, 0xD5]));
    assert_eq!(pipeline::apply_layer(2, vec![0x00, 0x01]), Ok(vec![]));
    assert_eq!(pipeline::apply_layer(4, vec![]), Ok(vec![]));
    assert_eq!(pipeline::apply_layer(5, vec![0; 10]), Err(PeelError::TruncatedStream));
}

#[test]
fn armor_stray_byte_fails() {
    assert_eq!(armor::decode_payload(b"<~9j\x01qo^~>"), Err(PeelError::MalformedArmor));
}
