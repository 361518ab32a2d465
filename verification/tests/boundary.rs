use aead_boundary::boundary::decrypt_data_wasm;
use aead_boundary::boundary::encrypt_at_boundary;
use aead_boundary::boundary::encrypt_data_wasm;
use aead_boundary::boundary::generate_aes_key_wasm;
use aead_boundary::boundary::PlainBuffer;
use aead_boundary::error::CryptoError;
use aead_boundary::memory::wasm_alloc;
use aead_boundary::memory::wasm_dealloc;
use aead_boundary::memory::BoundaryMemory;

fn staged(mem: &mut BoundaryMemory, bytes: &[u8]) -> usize {
    let addr = wasm_alloc(mem, bytes.len()).unwrap();
    mem.write(addr, bytes).unwrap();
    addr
}

#[test]
fn boundary_round_trip() {
    let mut mem = BoundaryMemory::new(1 << 16);
    let key = generate_aes_key_wasm(&mut mem).unwrap();
    assert_eq!(key.len, 32);
    let plaintext = staged(&mut mem, b"hello world");
    let sealed = encrypt_data_wasm(&mut mem, key.addr, key.len, plaintext, 11).unwrap();
    assert_eq!(sealed.nonce_len, 12);
    assert_eq!(sealed.ciphertext_len, 11 + 16);
    assert_eq!(sealed.ciphertext_addr, sealed.nonce_addr + 1);
    let opened = decrypt_data_wasm(
        &mut mem,
        key.addr,
        key.len,
        sealed.ciphertext_addr,
        sealed.ciphertext_len,
        sealed.nonce_addr,
        sealed.nonce_len,
    )
    .unwrap();
    assert_eq!(opened.len, 11);
    assert_eq!(mem.read(opened.addr, opened.len).unwrap(), b"hello world".to_vec());
    assert_eq!(wasm_dealloc(&mut mem, opened.addr, opened.len), Ok(()));
    assert_eq!(wasm_dealloc(&mut mem, sealed.nonce_addr, sealed.nonce_len), Ok(()));
    assert_eq!(wasm_dealloc(&mut mem, sealed.ciphertext_addr, sealed.ciphertext_len), Ok(()));
    assert_eq!(wasm_dealloc(&mut mem, plaintext, 11), Ok(()));
    assert_eq!(wasm_dealloc(&mut mem, key.addr, key.len), Ok(()));
}

#[test]
fn boundary_known_answer() {
    let mut mem = BoundaryMemory::new(1 << 16);
    let key = staged(&mut mem, &[0u8; 32]);
    let plaintext = staged(&mut mem, &[0u8; 16]);
    let sealed = encrypt_at_boundary(&mut mem, key, 32, plaintext, 16, &[0u8; 12]).unwrap();
    assert_eq!(sealed.nonce_addr, 3);
    assert_eq!(sealed.ciphertext_addr, 4);
    assert_eq!(mem.read(sealed.nonce_addr, 12).unwrap(), vec![0u8; 12]);
    let expected: [u8; 32] = [
        0xce, 0xa7, 0x40, 0x3d, 0x4d, 0x60, 0x6b, 0x6e, 0x07, 0x4e, 0xc5, 0xd3, 0xba, 0xf3, 0x9d,
        0x18, 0xd0, 0xd1, 0xc8, 0xa7, 0x99, 0x99, 0x6b, 0xf0, 0x26, 0x5b, 0x98, 0xb5, 0xd4, 0x8a,
        0xb9, 0x19,
    ];
    assert_eq!(mem.read(sealed.ciphertext_addr, 32).unwrap(), expected.to_vec());
}

#[test]
fn boundary_uses_a_fresh_nonce_each_time() {
    let mut mem = BoundaryMemory::new(1 << 16);
    let key = staged(&mut mem, &[0u8; 32]);
    let plaintext = staged(&mut mem, b"same");
    let a = encrypt_data_wasm(&mut mem, key, 32, plaintext, 4).unwrap();
    let b = encrypt_data_wasm(&mut mem, key, 32, plaintext, 4).unwrap();
    assert_ne!(mem.read(a.nonce_addr, 12).unwrap(), mem.read(b.nonce_addr, 12).unwrap());
    assert_ne!(
        mem.read(a.ciphertext_addr, 20).unwrap(),
        mem.read(b.ciphertext_addr, 20).unwrap()
    );
}

#[test]
fn boundary_rejects_a_malformed_key() {
    let mut mem = BoundaryMemory::new(1 << 16);
    let key = staged(&mut mem, &[0u8; 32]);
    let plaintext = staged(&mut mem, b"data");
    assert_eq!(
        encrypt_data_wasm(&mut mem, key, 31, plaintext, 4),
        Err(CryptoError::InvalidKeyLength)
    );
    assert_eq!(
        encrypt_data_wasm(&mut mem, key, 33, plaintext, 4),
        Err(CryptoError::ContractViolation)
    );
    let short = staged(&mut mem, &[0u8; 16]);
    assert_eq!(
        encrypt_data_wasm(&mut mem, short, 16, plaintext, 4),
        Err(CryptoError::InvalidKeyLength)
    );
    assert_eq!(
        decrypt_data_wasm(&mut mem, short, 16, plaintext, 4, plaintext, 4),
        Err(CryptoError::InvalidKeyLength)
    );
}

#[test]
fn boundary_rejects_descriptors_it_does_not_own() {
    let mut mem = BoundaryMemory::new(1 << 16);
    let key = staged(&mut mem, &[0u8; 32]);
    let plaintext = staged(&mut mem, b"data");
    assert_eq!(
        encrypt_data_wasm(&mut mem, 99, 32, plaintext, 4),
        Err(CryptoError::ContractViolation)
    );
    assert_eq!(
        encrypt_data_wasm(&mut mem, key, 32, plaintext, 5),
        Err(CryptoError::ContractViolation)
    );
    assert_eq!(
        encrypt_data_wasm(&mut mem, key, 32, 0, 0),
        Err(CryptoError::ContractViolation)
    );
    assert_eq!(
        decrypt_data_wasm(&mut mem, key, 32, plaintext, 4, 99, 12),
        Err(CryptoError::ContractViolation)
    );
    assert_eq!(wasm_alloc(&mut mem, 1), Ok(3));
}

#[test]
fn boundary_rejects_a_malformed_nonce() {
    let mut mem = BoundaryMemory::new(1 << 16);
    let key = staged(&mut mem, &[0u8; 32]);
    let plaintext = staged(&mut mem, b"data");
    assert_eq!(
        encrypt_at_boundary(&mut mem, key, 32, plaintext, 4, &[0u8; 8]),
        Err(CryptoError::InvalidNonceLength)
    );
    let sealed = encrypt_data_wasm(&mut mem, key, 32, plaintext, 4).unwrap();
    assert_eq!(
        decrypt_data_wasm(
            &mut mem,
            key,
            32,
            sealed.ciphertext_addr,
            sealed.ciphertext_len,
            sealed.nonce_addr,
            11
        ),
        Err(CryptoError::InvalidNonceLength)
    );
}

#[test]
fn boundary_reports_tampering_as_authentication_failure() {
    let mut mem = BoundaryMemory::new(1 << 16);
    let key = staged(&mut mem, &[0u8; 32]);
    let plaintext = staged(&mut mem, b"data");
    let sealed = encrypt_data_wasm(&mut mem, key, 32, plaintext, 4).unwrap();
    let first = mem.read(sealed.ciphertext_addr, 1).unwrap()[0];
    mem.write(sealed.ciphertext_addr, &[first ^ 1]).unwrap();
    assert_eq!(
        decrypt_data_wasm(
            &mut mem,
            key,
            32,
            sealed.ciphertext_addr,
            sealed.ciphertext_len,
            sealed.nonce_addr,
            sealed.nonce_len
        ),
        Err(CryptoError::AuthenticationFailure)
    );
    assert_eq!(wasm_alloc(&mut mem, 1), Ok(5));
}

#[test]
fn boundary_fails_cleanly_without_room() {
    let mut mem = BoundaryMemory::new(32);
    let key = staged(&mut mem, &[0u8; 32]);
    let plaintext = staged(&mut mem, &[7u8; 17]);
    assert_eq!(
        encrypt_data_wasm(&mut mem, key, 32, plaintext, 17),
        Err(CryptoError::AllocationFailure)
    );
    assert_eq!(wasm_alloc(&mut mem, 1), Ok(3));
    let sealed = encrypt_data_wasm(&mut mem, key, 32, plaintext, 16).unwrap();
    assert_eq!(sealed.ciphertext_len, 32);
    let mut tiny = BoundaryMemory::new(8);
    assert_eq!(generate_aes_key_wasm(&mut tiny), Err(CryptoError::AllocationFailure));
    assert_eq!(wasm_alloc(&mut tiny, 8), Ok(1));
}

#[test]
fn boundary_key_buffers_differ() {
    let mut mem = BoundaryMemory::new(64);
    let a = generate_aes_key_wasm(&mut mem).unwrap();
    let b = generate_aes_key_wasm(&mut mem).unwrap();
    assert_eq!(a, PlainBuffer { addr: 1, len: 32 });
    assert_eq!(b, PlainBuffer { addr: 2, len: 32 });
    assert_ne!(mem.read(a.addr, 32).unwrap(), mem.read(b.addr, 32).unwrap());
}
