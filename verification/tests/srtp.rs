//! SRTP contexts.

use oxlens_sfu::transport::srtp::{SrtpContext, SrtpError};

#[test]
fn new_context_is_not_ready() {
    let ctx = SrtpContext::new();
    assert!(!ctx.is_ready());
}

#[test]
fn key_install_marks_ready() {
    let mut ctx = SrtpContext::new();
    ctx.install_key(&[0u8; 16], &[0u8; 14]);
    assert!(ctx.is_ready());
}

#[test]
fn decrypt_before_key_returns_error() {
    let mut ctx = SrtpContext::new();
    let rtp = [0x80, 0x78, 0x00, 0x01, 0x00, 0x00, 0x00, 0x00, 0x00, 0x01, 0xE2, 0x40];
    assert!(matches!(ctx.decrypt_rtp(&rtp), Err(SrtpError::KeyNotInstalled)));
}

#[test]
fn encrypt_decrypt_roundtrip() {
    let key  = [0x01u8; 16];
    let salt = [0x02u8; 14];

    let plaintext: Vec<u8> = vec![
        0x80, 0x78, 0x00, 0x01,
        0x00, 0x00, 0x00, 0x00,
        0x00, 0x01, 0xE2, 0x40,
        0xDE, 0xAD, 0xBE, 0xEF,
    ];

    let mut enc_ctx = SrtpContext::new();
    enc_ctx.install_key(&key, &salt);

    let mut dec_ctx = SrtpContext::new();
    dec_ctx.install_key(&key, &salt);

    let encrypted = enc_ctx.encrypt_rtp(&plaintext).expect("encrypt failed");
    let decrypted = dec_ctx.decrypt_rtp(&encrypted).expect("decrypt failed");

    assert_eq!(decrypted, plaintext);
}
