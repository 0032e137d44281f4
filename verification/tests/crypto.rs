use mesh::mac::crypto::MeshCrypto;

#[test]
fn public_psk_is_one_padded() {
    let k = MeshCrypto::public_psk();
    assert_eq!(k[0], 1);
    assert!(k[1..].iter().all(|b| *b == 0));
}

#[test]
fn encrypt_matches_aes256_ctr_vector() {
    // AES-256-CTR, key 01 00..00, counter block
    // [78 56 34 12 00 00 00 00 ef be ad de 00 00 00 00].
    let c = MeshCrypto::new(MeshCrypto::public_psk());
    let ct = c.encrypt(0x1234_5678, 0xDEAD_BEEF, b"hello mesh");
    assert_eq!(ct, vec![241, 62, 203, 147, 19, 87, 112, 94, 165, 89]);
}

#[test]
fn decrypt_undoes_encrypt() {
    let mut key = [0u8; 32];
    for (i, b) in key.iter_mut().enumerate() {
        *b = i as u8 * 7;
    }
    let c = MeshCrypto::new(key);
    let pt: Vec<u8> = (0..100u8).collect();
    let ct = c.encrypt(42, 7, &pt);
    assert_eq!(ct.len(), pt.len());
    assert_ne!(ct, pt);
    assert_eq!(c.decrypt(42, 7, &ct), pt);
    // A different nonce gives a different keystream.
    assert_ne!(c.encrypt(43, 7, &pt), ct);
    assert_ne!(c.encrypt(42, 8, &pt), ct);
}

#[test]
fn encrypt_empty_is_empty() {
    let c = MeshCrypto::new([9u8; 32]);
    assert!(c.encrypt(1, 2, &[]).is_empty());
}

#[test]
fn one_keystream_per_packet() {
    let c = MeshCrypto::new([3u8; 32]);
    let p: Vec<u8> = (0..40u8).collect();
    let q: Vec<u8> = (100..130u8).collect();
    let ep = c.encrypt(9, 10, &p);
    let eq = c.encrypt(9, 10, &q);
    for i in 0..q.len() {
        assert_eq!(ep[i] ^ p[i], eq[i] ^ q[i]);
    }
    let mut pq = p.clone();
    pq.extend_from_slice(&q);
    assert_eq!(&c.encrypt(9, 10, &pq)[..p.len()], &ep[..]);
}
