use chacha20poly1305::aead::{Aead, KeyInit};
use rs_linkfusion::accel::{
    join_sealed, split_sealed, AccelBackend, AccelError, PayloadAccelerator, NONCE_LEN, TAG_LEN,
};
use std::io::Write;

fn fixed() -> PayloadAccelerator {
    PayloadAccelerator::new(AccelBackend::Cpu, &[7u8; 32])
}

#[test]
fn cpu_backend_round_trips_and_actually_compresses() {
    let key = PayloadAccelerator::generate_key();
    let accel = PayloadAccelerator::new(AccelBackend::Cpu, &key);
    let plaintext = b"tunnel payload tunnel payload tunnel payload ".repeat(50);
    let sealed = accel.seal(&plaintext).unwrap();
    assert!(sealed.len() < plaintext.len());
    assert_eq!(accel.open(&sealed).unwrap(), plaintext);
}

#[test]
fn unimplemented_backend_falls_back_to_cpu() {
    let key = PayloadAccelerator::generate_key();
    let accel = PayloadAccelerator::new(AccelBackend::Gpu, &key);
    assert_eq!(accel.backend(), AccelBackend::Cpu);
    let sealed = accel.seal(b"still works").unwrap();
    assert_eq!(accel.open(&sealed).unwrap(), b"still works");
}

#[test]
fn tampered_frame_is_rejected() {
    let key = PayloadAccelerator::generate_key();
    let accel = PayloadAccelerator::new(AccelBackend::Cpu, &key);
    let mut sealed = accel.seal(b"secret tunnel data").unwrap();
    let last = sealed.len() - 1;
    sealed[last] ^= 0xFF;
    assert!(accel.open(&sealed).is_err());
}

#[test]
fn every_backend_gives_way_to_cpu() {
    for backend in [
        AccelBackend::Cpu,
        AccelBackend::Gpu,
        AccelBackend::Npu,
        AccelBackend::HardwareAccelerator,
    ] {
        let accel = PayloadAccelerator::new(backend, &[1u8; 32]);
        assert_eq!(accel.backend(), AccelBackend::Cpu);
    }
}

#[test]
fn generated_keys_differ() {
    assert_ne!(PayloadAccelerator::generate_key(), PayloadAccelerator::generate_key());
    assert_ne!(PayloadAccelerator::generate_key(), [0u8; 32]);
}

#[test]
fn nonces_differ_from_one_seal_to_the_next() {
    let accel = fixed();
    let first = accel.seal(b"same").unwrap();
    let second = accel.seal(b"same").unwrap();
    assert_eq!(first.len(), second.len());
    assert_ne!(first[..NONCE_LEN], second[..NONCE_LEN]);
    assert_ne!(first, second);
}

#[test]
fn sealing_with_a_given_nonce_is_reproducible() {
    let accel = fixed();
    let nonce = [9u8; 12];
    let sealed = accel.seal_with_nonce(&nonce, b"payload").unwrap();
    assert_eq!(sealed, accel.seal_with_nonce(&nonce, b"payload").unwrap());
    assert_eq!(&sealed[..NONCE_LEN], &nonce);
    assert_eq!(accel.open(&sealed).unwrap(), b"payload");
}

#[test]
fn sealed_payload_is_nonce_then_the_cipher_of_the_deflated_bytes() {
    let nonce = [3u8; 12];
    let mut encoder =
        flate2::write::DeflateEncoder::new(Vec::new(), flate2::Compression::default());
    encoder.write_all(b"layered").unwrap();
    let compressed = encoder.finish().unwrap();
    let cipher =
        chacha20poly1305::ChaCha20Poly1305::new(chacha20poly1305::Key::from_slice(&[7u8; 32]));
    let ciphertext = cipher
        .encrypt(chacha20poly1305::Nonce::from_slice(&nonce), compressed.as_slice())
        .unwrap();
    let sealed = fixed().seal_with_nonce(&nonce, b"layered").unwrap();
    assert_eq!(sealed.len(), NONCE_LEN + compressed.len() + TAG_LEN);
    assert_eq!(&sealed[..NONCE_LEN], &nonce);
    assert_eq!(&sealed[NONCE_LEN..], ciphertext.as_slice());
}

#[test]
fn empty_payload_round_trips() {
    let accel = fixed();
    let sealed = accel.seal(b"").unwrap();
    assert!(sealed.len() >= NONCE_LEN + TAG_LEN);
    assert_eq!(accel.open(&sealed).unwrap(), b"");
}

#[test]
fn sealing_succeeds_whatever_the_payload() {
    let accel = fixed();
    let mut state = 1u32;
    for len in [1usize, 31, 47, 48, 65_535, 65_536, 300_000] {
        let noise: Vec<u8> = (0..len)
            .map(|_| {
                state = state.wrapping_mul(1_664_525).wrapping_add(1_013_904_223);
                (state >> 24) as u8
            })
            .collect();
        for payload in [noise, vec![0u8; len]] {
            let sealed = accel.seal(&payload).unwrap();
            assert_eq!(accel.open(&sealed).unwrap(), payload);
        }
    }
}

#[test]
fn another_key_does_not_open() {
    let sealed = fixed().seal(b"private").unwrap();
    let other = PayloadAccelerator::new(AccelBackend::Cpu, &[8u8; 32]);
    assert!(matches!(other.open(&sealed), Err(AccelError::Decrypt(_))));
}

#[test]
fn less_than_a_nonce_is_too_short() {
    let accel = fixed();
    assert!(matches!(accel.open(b""), Err(AccelError::FrameTooShort)));
    assert!(matches!(accel.open(&[0u8; 11]), Err(AccelError::FrameTooShort)));
}

#[test]
fn a_nonce_without_a_tag_does_not_decrypt() {
    let accel = fixed();
    for len in 12..28 {
        assert!(matches!(accel.open(&vec![0u8; len]), Err(AccelError::Decrypt(_))));
    }
}

#[test]
fn authentic_bytes_that_are_no_deflate_stream_do_not_decompress() {
    let nonce = [4u8; 12];
    let cipher =
        chacha20poly1305::ChaCha20Poly1305::new(chacha20poly1305::Key::from_slice(&[7u8; 32]));
    let ciphertext = cipher
        .encrypt(chacha20poly1305::Nonce::from_slice(&nonce), [0xFFu8; 16].as_slice())
        .unwrap();
    let data = join_sealed(&nonce, &ciphertext);
    assert!(matches!(fixed().open(&data), Err(AccelError::Decompress(_))));
}

#[test]
fn sealed_bytes_part_into_nonce_and_ciphertext() {
    let data: Vec<u8> = (0u8..20).collect();
    let (nonce, ciphertext) = split_sealed(&data).unwrap();
    assert_eq!(nonce, [0, 1, 2, 3, 4, 5, 6, 7, 8, 9, 10, 11]);
    assert_eq!(ciphertext, &[12, 13, 14, 15, 16, 17, 18, 19]);
    assert_eq!(join_sealed(&nonce, ciphertext), data);
    assert!(split_sealed(&data[..11]).is_none());
}

#[test]
fn any_other_tag_is_rejected() {
    let accel = fixed();
    let sealed = accel.seal(b"authentic").unwrap();
    for i in sealed.len() - TAG_LEN..sealed.len() {
        for bit in 0..8 {
            let mut changed = sealed.clone();
            changed[i] ^= 1 << bit;
            assert!(matches!(accel.open(&changed), Err(AccelError::Decrypt(_))));
        }
    }
}

#[test]
fn errors_are_told_in_words() {
    let accel = fixed();
    let short = accel.open(b"short").unwrap_err();
    assert_eq!(short.message().as_deref(), Some("frame too short to contain nonce"));
    let forged = accel.open(&[0u8; 40]).unwrap_err();
    assert_eq!(
        forged.message().as_deref(),
        Some("decrypt failed (tamper detected?): aead::Error")
    );
    assert_eq!(
        AccelError::Encrypt(chacha20poly1305::aead::Error).message().as_deref(),
        Some("encrypt failed: aead::Error")
    );
    assert_eq!(
        AccelError::TooLarge.message().as_deref(),
        Some("the compressed payload exceeds what the cipher can take")
    );
    let broken = std::io::Error::from(std::io::ErrorKind::InvalidInput);
    assert!(AccelError::Decompress(broken).message().is_none());
    let broken = std::io::Error::from(std::io::ErrorKind::InvalidInput);
    assert!(AccelError::Compress(broken).message().is_none());
}
