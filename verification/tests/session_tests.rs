use jseries::session::{session_from_psk, Error, Session};

#[test]
fn seal_open_roundtrip() {
    let s = session_from_psk(b"shared-secret");
    let framed = s.seal(b"j3.2", b"hello tactical world").unwrap();
    assert_eq!(framed.len(), 20 + 28);
    let opened = s.open(b"j3.2", &framed).unwrap();
    assert_eq!(opened, b"hello tactical world".to_vec());
}

#[test]
fn seal_output_differs_from_plaintext() {
    let s = Session::from_key([7u8; 32]);
    let framed = s.seal(b"", b"plain bytes").unwrap();
    assert_eq!(framed.len(), 11 + 28);
    assert_ne!(&framed[12..12 + 11], b"plain bytes".as_slice());
}

#[test]
fn open_short_frame() {
    let s = Session::from_key([1u8; 32]);
    assert_eq!(s.open(b"", &[0u8; 5]), Err(Error::Decrypt));
    assert_eq!(s.open(b"", &[]), Err(Error::Decrypt));
}

#[test]
fn open_tampered_frame() {
    let s = session_from_psk(b"k");
    let mut framed = s.seal(b"aad", b"payload").unwrap();
    let last = framed.len() - 1;
    framed[last] ^= 0x01;
    assert_eq!(s.open(b"aad", &framed), Err(Error::Decrypt));
}

#[test]
fn open_wrong_aad() {
    let s = session_from_psk(b"k");
    let framed = s.seal(b"aad-one", b"payload").unwrap();
    assert_eq!(s.open(b"aad-two", &framed), Err(Error::Decrypt));
}

#[test]
fn sessions_from_same_psk_interoperate() {
    let a = session_from_psk(b"the same secret");
    let b = session_from_psk(b"the same secret");
    let framed = a.seal(b"x", b"msg").unwrap();
    assert_eq!(b.open(b"x", &framed).unwrap(), b"msg".to_vec());
}

#[test]
fn sessions_from_different_psks_reject() {
    let a = session_from_psk(b"secret one");
    let b = session_from_psk(b"secret two");
    let framed = a.seal(b"x", b"msg").unwrap();
    assert_eq!(b.open(b"x", &framed), Err(Error::Decrypt));
}

#[test]
fn psk_key_is_blake3_digest() {
    let a = session_from_psk(b"interop check");
    let mut key = [0u8; 32];
    key.copy_from_slice(blake3::hash(b"interop check").as_bytes());
    let b = Session::from_key(key);
    let framed = a.seal(b"x", b"msg").unwrap();
    assert_eq!(b.open(b"x", &framed).unwrap(), b"msg".to_vec());
}

#[test]
fn sealed_envelope_roundtrip() {
    let rep = jseries::J3_2AirTrack::from_geo(42, 451234567, -1229876543, 1500000, 220, 27150)
        .unwrap();
    let msg = jseries::JMessage::J3_2(rep);
    let s = session_from_psk(b"link key");
    let framed = s.seal(b"j3.2", &msg.to_bytes()).unwrap();
    let plain = s.open(b"j3.2", &framed).unwrap();
    assert_eq!(jseries::JMessage::from_bytes(&plain), Ok(msg));
}
