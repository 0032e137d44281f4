//! AES-256-CTR encryption for Meshtastic payloads.
//!
//! Key:   256-bit channel PSK.
//! Nonce: `[packet_id: u32 LE, 0x00 x4, from_node: u32 LE, 0x00 x4]` (128 bits).
//!
//! The header (16 bytes) is always transmitted in plaintext; only the body
//! (Data protobuf) is encrypted.
use vstd::prelude::*;
use aes::Aes256;
use ctr::cipher::{KeyIvInit, StreamCipher};
use ctr::Ctr128BE;
use crate::mac::packet::u32_le_bytes;

verus! {

/// Byte `i` of the AES-256 CTR keystream for `key` (128-bit big-endian
/// counter starting at `iv`).  It depends on the byte's position only, not
/// on how long a buffer it is applied to.
pub uninterp spec fn aes256_ctr_keystream(key: Seq<u8>, iv: Seq<u8>, i: nat) -> u8;

/// `data` XOR the keystream for `key` and `iv`, byte by byte.
pub open spec fn xor_keystream(data: Seq<u8>, key: Seq<u8>, iv: Seq<u8>) -> Seq<u8> {
    Seq::new(data.len(), |i: int| data[i] ^ aes256_ctr_keystream(key, iv, i as nat))
}

/// Encrypts or decrypts `buf` in place with AES-256 in CTR mode.
///
/// Calls `ctr::Ctr128BE::<aes::Aes256>::new(key, iv)` and then
/// `StreamCipher::apply_keystream`, which the `cipher` crate documents as
/// XOR-ing the generated keystream into the buffer, from its first block
/// on.  The keystream bytes themselves are named, not stated:
/// `aes256_ctr_keystream`.
#[verifier::external_body]
fn aes256_ctr_apply(key: &[u8; 32], iv: &[u8; 16], buf: &mut Vec<u8>)
    ensures
        final(buf)@ == Seq::new(
            old(buf)@.len(),
            |i: int| old(buf)@[i] ^ aes256_ctr_keystream(key@, iv@, i as nat),
        ),
{
    let mut cipher = Ctr128BE::<Aes256>::new(key.into(), iv.into());
    cipher.apply_keystream(buf.as_mut_slice());
}

/// The 16-byte CTR nonce of a packet.
pub open spec fn nonce_bytes(packet_id: u32, from_node: u32) -> Seq<u8> {
    u32_le_bytes(packet_id) + seq![0u8, 0u8, 0u8, 0u8] + u32_le_bytes(from_node) + seq![
        0u8,
        0u8,
        0u8,
        0u8,
    ]
}

/// The CTR nonce layout: the packet id little-endian in bytes 0-3, the
/// sender's node number little-endian in bytes 8-11, zeros elsewhere.
pub proof fn lemma_nonce_layout(packet_id: u32, from_node: u32)
    ensures
        nonce_bytes(packet_id, from_node).len() == 16,
        nonce_bytes(packet_id, from_node).subrange(0, 4) == u32_le_bytes(packet_id),
        nonce_bytes(packet_id, from_node).subrange(8, 12) == u32_le_bytes(from_node),
        nonce_bytes(packet_id, from_node)[0] == packet_id % 256,
        nonce_bytes(packet_id, from_node)[3] == packet_id / 16777216,
        nonce_bytes(packet_id, from_node)[8] == from_node % 256,
        nonce_bytes(packet_id, from_node)[11] == from_node / 16777216,
        forall|i: int| (4 <= i < 8 || 12 <= i < 16) ==> nonce_bytes(packet_id, from_node)[i] == 0,
{
    crate::mac::packet::lemma_u32_le_digits(packet_id);
    crate::mac::packet::lemma_u32_le_digits(from_node);
    let n = nonce_bytes(packet_id, from_node);
    assert(n.subrange(0, 4) =~= u32_le_bytes(packet_id));
    assert(n.subrange(8, 12) =~= u32_le_bytes(from_node));
}

/// What `encrypt` (and `decrypt`) turns `data` into.
pub open spec fn ctr_cipher(psk: Seq<u8>, packet_id: u32, from_node: u32, data: Seq<u8>) -> Seq<
    u8,
> {
    xor_keystream(data, psk, nonce_bytes(packet_id, from_node))
}

/// The default public channel PSK: `0x01` followed by 31 zero bytes.
pub open spec fn public_psk_bytes() -> Seq<u8> {
    Seq::new(32, |i: int| if i == 0 { 1u8 } else { 0u8 })
}

/// Holds a channel PSK and provides encrypt/decrypt operations.
pub struct MeshCrypto {
    psk: [u8; 32],
}

impl MeshCrypto {
    /// The channel PSK.
    pub closed spec fn key(&self) -> Seq<u8> {
        self.psk@
    }

    /// Create from a 256-bit PSK.
    pub fn new(psk: [u8; 32]) -> (c: Self)
        ensures
            c.key() == psk@,
    {
        MeshCrypto { psk }
    }

    /// The default public channel PSK (`0x01` padded to 32 bytes).
    pub fn public_psk() -> (k: [u8; 32])
        ensures
            k@ == public_psk_bytes(),
    {
        let k: [u8; 32] = [
            0x01, 0, 0, 0, 0, 0, 0, 0, 0, 0, 0, 0, 0, 0, 0, 0, 0, 0, 0, 0, 0, 0, 0, 0, 0, 0, 0, 0, 0, 0, 0, 0,
        ];
        assert(k@ =~= public_psk_bytes());
        k
    }

    fn nonce(packet_id: u32, from_node: u32) -> (n: [u8; 16])
        ensures
            n@ == nonce_bytes(packet_id, from_node),
    {
        let n: [u8; 16] = [
            (packet_id & 0xff) as u8,
            ((packet_id >> 8u32) & 0xff) as u8,
            ((packet_id >> 16u32) & 0xff) as u8,
            ((packet_id >> 24u32) & 0xff) as u8,
            0,
            0,
            0,
            0,
            (from_node & 0xff) as u8,
            ((from_node >> 8u32) & 0xff) as u8,
            ((from_node >> 16u32) & 0xff) as u8,
            ((from_node >> 24u32) & 0xff) as u8,
            0,
            0,
            0,
            0,
        ];
        assert(n@ =~= nonce_bytes(packet_id, from_node));
        n
    }

    /// Encrypt `plaintext` using the packet header fields as the nonce.
    pub fn encrypt(&self, packet_id: u32, from_node: u32, plaintext: &[u8]) -> (c: Vec<u8>)
        ensures
            c@ == ctr_cipher(self.key(), packet_id, from_node, plaintext@),
    {
        let mut buf: Vec<u8> = Vec::new();
        crate::mac::packet::extend_bytes(&mut buf, plaintext);
        self.apply_keystream(packet_id, from_node, &mut buf);
        buf
    }

    /// Decrypt `ciphertext` (CTR mode: the same operation as encrypt).
    pub fn decrypt(&self, packet_id: u32, from_node: u32, ciphertext: &[u8]) -> (p: Vec<u8>)
        ensures
            p@ == ctr_cipher(self.key(), packet_id, from_node, ciphertext@),
    {
        self.encrypt(packet_id, from_node, ciphertext)
    }

    fn apply_keystream(&self, packet_id: u32, from_node: u32, buf: &mut Vec<u8>)
        ensures
            final(buf)@ == ctr_cipher(self.key(), packet_id, from_node, old(buf)@),
    {
        let nonce = Self::nonce(packet_id, from_node);
        let ghost before = buf@;
        aes256_ctr_apply(&self.psk, &nonce, buf);
        assert(buf@ =~= ctr_cipher(self.key(), packet_id, from_node, before));
    }
}

/// Decrypting with the same key and header fields gives back the plaintext.
pub proof fn lemma_decrypt_encrypt(psk: Seq<u8>, packet_id: u32, from_node: u32, data: Seq<u8>)
    ensures
        ctr_cipher(psk, packet_id, from_node, ctr_cipher(psk, packet_id, from_node, data)) == data,
        ctr_cipher(psk, packet_id, from_node, data).len() == data.len(),
{
    let iv = nonce_bytes(packet_id, from_node);
    let c = ctr_cipher(psk, packet_id, from_node, data);
    assert forall|i: int| 0 <= i < data.len() implies #[trigger] ctr_cipher(psk, packet_id, from_node, c)[i] == data[i] by {
        let a = data[i];
        let k = aes256_ctr_keystream(psk, iv, i as nat);
        assert((a ^ k) ^ k == a) by (bit_vector);
    }
    assert(ctr_cipher(psk, packet_id, from_node, c) =~= data);
}

/// One keystream serves every message of a packet: under the same key,
/// packet ID and sender, ciphertext XOR plaintext is the same at every
/// position for any two messages, so encrypting a longer message extends
/// the encryption of its prefix, and the empty message encrypts to nothing.
pub proof fn lemma_one_keystream(psk: Seq<u8>, packet_id: u32, from_node: u32, p: Seq<u8>, q: Seq<u8>)
    ensures
        forall|i: int|
            0 <= i < p.len() && i < q.len() ==> #[trigger] ctr_cipher(psk, packet_id, from_node, p)[i] ^ p[i]
                == #[trigger] ctr_cipher(psk, packet_id, from_node, q)[i] ^ q[i],
        ctr_cipher(psk, packet_id, from_node, p + q).subrange(0, p.len() as int) == ctr_cipher(psk, packet_id, from_node, p),
        ctr_cipher(psk, packet_id, from_node, Seq::<u8>::empty()) == Seq::<u8>::empty(),
{
    let iv = nonce_bytes(packet_id, from_node);
    assert forall|i: int| 0 <= i < p.len() && i < q.len() implies #[trigger] ctr_cipher(psk, packet_id, from_node, p)[i] ^ p[i]
        == #[trigger] ctr_cipher(psk, packet_id, from_node, q)[i] ^ q[i] by {
        let a = p[i];
        let b = q[i];
        let k = aes256_ctr_keystream(psk, iv, i as nat);
        assert((a ^ k) ^ a == k && (b ^ k) ^ b == k) by (bit_vector);
    }
    assert(ctr_cipher(psk, packet_id, from_node, p + q).subrange(0, p.len() as int) =~= ctr_cipher(psk, packet_id, from_node, p));
    assert(ctr_cipher(psk, packet_id, from_node, Seq::<u8>::empty()) =~= Seq::<u8>::empty());
}

} // verus!
