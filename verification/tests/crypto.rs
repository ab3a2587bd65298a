use shph::crypto::{IdentityKeyPair, ReceiveCipher, ReplayWindow, SendCipher, SessionKeys};
use shph::error::ShphError;

#[test]
fn replay_window_refuses_repeats_until_it_resets() {
    let mut window = ReplayWindow::new(2);
    assert!(window.check_and_insert(1));
    assert!(!window.check_and_insert(1));
    assert!(window.check_and_insert(2));
    assert!(window.check_and_insert(3));
    assert!(window.check_and_insert(1));
}

#[test]
fn sealed_messages_open_once_with_the_same_key() {
    let key = [7u8; 32];
    let mut sender = SendCipher::new(key);
    let mut receiver = ReceiveCipher::new(key);
    let first = sender.encrypt(b"hello").expect("seal");
    let second = sender.encrypt(b"world").expect("seal");
    assert_eq!(first.len(), 5 + 16);
    assert_eq!(receiver.decrypt(1, &second).expect("open"), b"world");
    assert_eq!(receiver.decrypt(0, &first).expect("open"), b"hello");
    assert!(matches!(receiver.decrypt(0, &first), Err(ShphError::Protocol(m)) if m == "nonce replay detected"));
    let mut tampered = sender.encrypt(b"again").expect("seal");
    tampered[0] ^= 1;
    assert!(matches!(receiver.decrypt(2, &tampered), Err(ShphError::Crypto(_))));
}

#[test]
fn key_agreement_and_session_keys() {
    let a = IdentityKeyPair::from_secrets([1u8; 32], [3u8; 32]);
    let b = IdentityKeyPair::from_secrets([2u8; 32], [4u8; 32]);
    let ab = a.derive_shared(&b.public()).expect("dh");
    let ba = b.derive_shared(&a.public()).expect("dh");
    assert_eq!(ab, ba);
    let keys = SessionKeys::derive(&ab);
    assert_ne!(keys.send_key, keys.recv_key);
    assert_eq!(keys.send_nonce, 0);
    let again = SessionKeys::derive(&ba);
    assert_eq!(keys.send_key, again.send_key);
    let generated = IdentityKeyPair::generate().expect("generate");
    assert_ne!(generated.public(), [0u8; 32]);
}
