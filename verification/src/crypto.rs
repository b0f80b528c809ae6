use vstd::prelude::*;

use aes::cipher::{BlockDecrypt, BlockEncrypt, KeyInit, KeyIvInit, StreamCipher};
use ghash::universal_hash::UniversalHash;
use hmac::Mac;
use sha2::Digest;

use crate::util::{
    append_bytes, be32, be32_spec, be64, be64_spec, bytes_eq, filled_vec, sub_vec, xor_bytes,
    xor_seq, zeros,
};

verus! {

// ---------------------------------------------------------------------------
// Names for what the outside primitives return. Each is a pure function of
// its arguments; the trusted wrappers below tie the run-time calls to them.
// ---------------------------------------------------------------------------

pub uninterp spec fn aes256_block_of(key: Seq<u8>, block: Seq<u8>) -> Seq<u8>;

pub uninterp spec fn aes256_unblock_of(key: Seq<u8>, block: Seq<u8>) -> Seq<u8>;

pub uninterp spec fn ghash_of(key: Seq<u8>, data: Seq<u8>) -> Seq<u8>;

pub uninterp spec fn salsa12_ks_of(key: Seq<u8>, nonce: Seq<u8>, n: nat) -> Seq<u8>;

pub uninterp spec fn poly1305_of(key: Seq<u8>, msg: Seq<u8>) -> Seq<u8>;

pub uninterp spec fn hmac_sha384_of(key: Seq<u8>, msg: Seq<u8>) -> Seq<u8>;

pub uninterp spec fn sha384_of(msg: Seq<u8>) -> Seq<u8>;

// ---------------------------------------------------------------------------
// Trusted wrappers around the outside primitives
// ---------------------------------------------------------------------------

/// Relies on aes::Aes256 (cipher::BlockEncrypt::encrypt_block): one AES-256
/// block encryption, a pure function of key and block, 16 bytes out.
#[verifier::external_body]
pub fn aes256_encrypt_block(key: &Vec<u8>, block: &Vec<u8>) -> (r: Vec<u8>)
    requires
        key@.len() == 32,
        block@.len() == 16,
    ensures
        r@ == aes256_block_of(key@, block@),
        r@.len() == 16,
{
    let cipher = aes::Aes256::new(aes::cipher::generic_array::GenericArray::from_slice(&key[..]));
    let mut b = aes::cipher::generic_array::GenericArray::clone_from_slice(&block[..]);
    cipher.encrypt_block(&mut b);
    b.to_vec()
}

/// Relies on aes::Aes256 (cipher::BlockDecrypt::decrypt_block): the inverse
/// permutation of the block encryption under the same key.
#[verifier::external_body]
pub fn aes256_decrypt_block(key: &Vec<u8>, block: &Vec<u8>) -> (r: Vec<u8>)
    requires
        key@.len() == 32,
        block@.len() == 16,
    ensures
        r@ == aes256_unblock_of(key@, block@),
        r@.len() == 16,
        forall|p: Seq<u8>| p.len() == 16 && block@ == aes256_block_of(key@, p) ==> r@ == p,
{
    let cipher = aes::Aes256::new(aes::cipher::generic_array::GenericArray::from_slice(&key[..]));
    let mut b = aes::cipher::generic_array::GenericArray::clone_from_slice(&block[..]);
    cipher.decrypt_block(&mut b);
    b.to_vec()
}

/// Relies on ghash::GHash (update_padded, then finalize): the GHASH universal
/// hash over the zero-padded data, a pure function of key and data, 16 bytes.
#[verifier::external_body]
pub fn ghash_tag(key: &Vec<u8>, data: &Vec<u8>) -> (r: Vec<u8>)
    requires
        key@.len() == 16,
    ensures
        r@ == ghash_of(key@, data@),
        r@.len() == 16,
{
    let mut gh = ghash::GHash::new(ghash::Key::from_slice(&key[..]));
    gh.update_padded(&data[..]);
    gh.finalize().to_vec()
}

/// Relies on salsa20::Salsa12 (apply_keystream over zeros): the first `n`
/// bytes of the Salsa20/12 keystream for a 32-byte key and 8-byte nonce.
#[verifier::external_body]
pub fn salsa12_keystream(key: &Vec<u8>, nonce: &Vec<u8>, n: usize) -> (r: Vec<u8>)
    requires
        key@.len() == 32,
        nonce@.len() == 8,
    ensures
        r@ == salsa12_ks_of(key@, nonce@, n as nat),
        r@.len() == n,
{
    let mut buf = vec![0u8; n];
    let mut cipher = salsa20::Salsa12::new(
        salsa20::cipher::generic_array::GenericArray::from_slice(&key[..]),
        salsa20::cipher::generic_array::GenericArray::from_slice(&nonce[..]),
    );
    cipher.apply_keystream(&mut buf);
    buf
}

/// Relies on poly1305::Poly1305::compute_unpadded: the one-time Poly1305
/// authenticator, a pure function of the 32-byte key and the message.
#[verifier::external_body]
pub fn poly1305_tag(key: &Vec<u8>, msg: &Vec<u8>) -> (r: Vec<u8>)
    requires
        key@.len() == 32,
    ensures
        r@ == poly1305_of(key@, msg@),
        r@.len() == 16,
{
    let mac = poly1305::Poly1305::new(poly1305::Key::from_slice(&key[..]));
    mac.compute_unpadded(&msg[..]).to_vec()
}

/// Relies on hmac::Hmac over sha2::Sha384: HMAC-SHA-384, a pure function of
/// key and message, 48 bytes out. Any key length is accepted.
#[verifier::external_body]
pub fn hmac_sha384(key: &Vec<u8>, msg: &Vec<u8>) -> (r: Vec<u8>)
    ensures
        r@ == hmac_sha384_of(key@, msg@),
        r@.len() == 48,
{
    let mut mac = <hmac::Hmac<sha2::Sha384> as hmac::Mac>::new_from_slice(&key[..])
        .expect("HMAC accepts any key length");
    mac.update(&msg[..]);
    mac.finalize().into_bytes().to_vec()
}

/// Relies on sha2::Sha384::digest: the SHA-384 hash, 48 bytes out.
#[verifier::external_body]
pub fn sha384(msg: &Vec<u8>) -> (r: Vec<u8>)
    ensures
        r@ == sha384_of(msg@),
        r@.len() == 48,
{
    sha2::Sha384::digest(&msg[..]).to_vec()
}

/// Relies on getrandom::getrandom: fills a buffer from the system entropy
/// source, aborting if that source fails. Nothing is promised of the
/// contents, only the length.
#[verifier::external_body]
pub fn random_bytes(n: usize) -> (r: Vec<u8>)
    ensures
        r@.len() == n,
{
    let mut buf = vec![0u8; n];
    getrandom::getrandom(&mut buf).expect("system entropy source failed");
    buf
}

// ---------------------------------------------------------------------------
// Key-based key derivation (counter-mode KBKDF over HMAC-SHA-384)
// ---------------------------------------------------------------------------

pub const KBKDF_KEY_USAGE_LABEL_AES_GMAC_SIV_K0: u8 = 0x30;

pub const KBKDF_KEY_USAGE_LABEL_AES_GMAC_SIV_K1: u8 = 0x31;

pub const KBKDF_KEY_USAGE_LABEL_HELLO_DICTIONARY_ENCRYPT: u8 = 0x48;

pub const KBKDF_KEY_USAGE_LABEL_PACKET_HMAC: u8 = 0x4d;

/// The fixed KBKDF input block for a usage label: a big-endian counter of 1,
/// the label, a zero separator, a zero context, and the output length in bits.
pub open spec fn kbkdf_input_spec(label: u8) -> Seq<u8> {
    seq![0u8, 0u8, 0u8, 1u8, label, 0u8, 0u8, 0x01u8, 0x80u8]
}

/// The 48-byte sub-key derived from a parent secret under a usage label.
pub open spec fn kbkdf_spec(key: Seq<u8>, label: u8) -> Seq<u8> {
    hmac_sha384_of(key, kbkdf_input_spec(label))
}

/// Derive a labeled 48-byte sub-key from a parent secret.
pub fn zt_kbkdf_hmac_sha384(key: &Vec<u8>, label: u8) -> (r: Vec<u8>)
    ensures
        r@ == kbkdf_spec(key@, label),
        r@.len() == 48,
{
    let mut input: Vec<u8> = Vec::new();
    input.push(0);
    input.push(0);
    input.push(0);
    input.push(1);
    input.push(label);
    input.push(0);
    input.push(0);
    input.push(0x01);
    input.push(0x80);
    proof {
        assert(input@ =~= kbkdf_input_spec(label));
    }
    hmac_sha384(key, &input)
}

// ---------------------------------------------------------------------------
// AES-CTR keystream (verified composition over the AES block wrapper)
// ---------------------------------------------------------------------------

/// The counter-mode keystream: AES blocks of the 12-byte IV followed by a
/// big-endian 32-bit block counter starting at zero.
pub open spec fn ctr_ks_blocks_spec(key: Seq<u8>, iv: Seq<u8>, nblocks: nat) -> Seq<u8>
    decreases nblocks,
{
    if nblocks == 0 {
        Seq::empty()
    } else {
        ctr_ks_blocks_spec(key, iv, (nblocks - 1) as nat)
            + aes256_block_of(key, iv + be32_spec((nblocks - 1) as u32))
    }
}

/// The first `n` bytes of the counter-mode keystream.
pub open spec fn ctr_ks_spec(key: Seq<u8>, iv: Seq<u8>, n: nat) -> Seq<u8> {
    ctr_ks_blocks_spec(key, iv, ((n + 15) / 16) as nat).take(n as int)
}

/// Produce the first `n` bytes of the AES-256 counter-mode keystream.
pub fn aes_ctr_keystream(key: &Vec<u8>, iv: &Vec<u8>, n: usize) -> (r: Vec<u8>)
    requires
        key@.len() == 32,
        iv@.len() == 12,
        n <= 0x100_0000,
    ensures
        r@ == ctr_ks_spec(key@, iv@, n as nat),
        r@.len() == n,
{
    let nblocks: usize = (n + 15) / 16;
    let mut ks: Vec<u8> = Vec::new();
    let mut i: usize = 0;
    while i < nblocks
        invariant
            i <= nblocks,
            nblocks == (n + 15) / 16,
            n <= 0x100_0000,
            key@.len() == 32,
            iv@.len() == 12,
            ks@ == ctr_ks_blocks_spec(key@, iv@, i as nat),
            ks@.len() == 16 * i,
        decreases nblocks - i,
    {
        let mut block_in = iv.clone();
        let ctr = be32(i as u32);
        append_bytes(&mut block_in, &ctr);
        proof {
            assert(block_in@ =~= iv@ + be32_spec(i as u32));
        }
        let block = aes256_encrypt_block(key, &block_in);
        proof {
            assert(ks@ + block@
                =~= ctr_ks_blocks_spec(key@, iv@, (i + 1) as nat));
        }
        append_bytes(&mut ks, &block);
        i = i + 1;
    }
    ks.truncate(n);
    proof {
        assert(16 * nblocks >= n);
        assert(ks@ =~= ctr_ks_spec(key@, iv@, n as nat));
    }
    ks
}

// ---------------------------------------------------------------------------
// GMAC (verified composition of GHASH and one AES block)
// ---------------------------------------------------------------------------

/// Zero padding up to the next 16-byte boundary.
pub open spec fn pad16_spec(d: Seq<u8>) -> Seq<u8> {
    d + zeros(((16 - d.len() % 16) % 16) as nat)
}

/// Extend a byte vector with zeros to the next 16-byte boundary.
pub fn pad16_vec(d: &Vec<u8>) -> (r: Vec<u8>)
    requires
        d@.len() <= 0x100_0000,
    ensures
        r@ == pad16_spec(d@),
        r@.len() % 16 == 0,
        r@.len() <= d@.len() + 15,
{
    let pad: usize = (16 - (d.len() % 16)) % 16;
    let mut r = d.clone();
    let z = filled_vec(0, pad);
    append_bytes(&mut r, &z);
    proof {
        assert(z@ =~= zeros(pad as nat));
        assert(r@ =~= pad16_spec(d@));
    }
    r
}

/// The GCM length block for a message of `alen` bytes hashed as extra data.
pub open spec fn gmac_len_block_spec(alen: nat) -> Seq<u8> {
    be64_spec((8 * alen) as u64) + zeros(8)
}

/// GMAC of `data` under `key` with a 12-byte nonce: GHASH keyed by the
/// encryption of the zero block, over the padded data and the length block,
/// masked with the encryption of the initial counter block.
pub open spec fn gmac_spec(key: Seq<u8>, nonce: Seq<u8>, data: Seq<u8>) -> Seq<u8> {
    let h = aes256_block_of(key, zeros(16));
    let j0 = nonce + seq![0u8, 0u8, 0u8, 1u8];
    xor_seq(
        ghash_of(h, pad16_spec(data) + gmac_len_block_spec(data.len())),
        aes256_block_of(key, j0),
    )
}

/// Compute the GMAC of `data` under `key` and a 12-byte `nonce`.
pub fn gmac(key: &Vec<u8>, nonce: &Vec<u8>, data: &Vec<u8>) -> (r: Vec<u8>)
    requires
        key@.len() == 32,
        nonce@.len() == 12,
        data@.len() <= 0x100_0000,
    ensures
        r@ == gmac_spec(key@, nonce@, data@),
        r@.len() == 16,
{
    let zero_block = filled_vec(0, 16);
    proof {
        assert(zero_block@ =~= zeros(16));
    }
    let h = aes256_encrypt_block(key, &zero_block);
    let mut msg = pad16_vec(data);
    let bitlen = be64((8 * data.len()) as u64);
    append_bytes(&mut msg, &bitlen);
    let z8 = filled_vec(0, 8);
    append_bytes(&mut msg, &z8);
    proof {
        assert(z8@ =~= zeros(8));
        assert(msg@ =~= pad16_spec(data@) + gmac_len_block_spec(data@.len()));
    }
    let gh = ghash_tag(&h, &msg);
    let mut j0 = nonce.clone();
    j0.push(0);
    j0.push(0);
    j0.push(0);
    j0.push(1);
    proof {
        assert(j0@ =~= nonce@ + seq![0u8, 0u8, 0u8, 1u8]);
    }
    let ek = aes256_encrypt_block(key, &j0);
    let r = xor_bytes(&gh, &ek);
    r
}

// ---------------------------------------------------------------------------
// AES-GMAC-SIV: a misuse-resistant AEAD whose 16-byte tag doubles as the
// packet identifier. Sealing: GMAC over the padded additional data and the
// plaintext keyed by the first sub-key, folded to 64 bits, prefixed with the
// 8-byte IV, and encrypted as one block under the second sub-key to form the
// tag; the payload is then counter-mode encrypted under the second sub-key
// with the first 12 tag bytes as IV. Opening decrypts the tag block to
// recover IV and folded GMAC, and recomputes the GMAC over the decrypted
// payload.
// ---------------------------------------------------------------------------

pub open spec fn siv_gmac_fold_spec(g: Seq<u8>) -> Seq<u8> {
    Seq::new(8, |i: int| g[i] ^ g[i + 8])
}

/// The sealed tag for keys, an 8-byte IV, additional data, and a plaintext.
pub open spec fn siv_tag_spec(
    k0: Seq<u8>,
    k1: Seq<u8>,
    iv: Seq<u8>,
    aad: Seq<u8>,
    pt: Seq<u8>,
) -> Seq<u8> {
    let g = gmac_spec(k0, iv + seq![0u8, 0u8, 0u8, 0u8], pad16_spec(aad) + pt);
    aes256_block_of(k1, iv + siv_gmac_fold_spec(g))
}

/// The sealed ciphertext: the plaintext under the counter-mode keystream
/// whose IV is the first 12 bytes of the tag.
pub open spec fn siv_ct_spec(
    k0: Seq<u8>,
    k1: Seq<u8>,
    iv: Seq<u8>,
    aad: Seq<u8>,
    pt: Seq<u8>,
) -> Seq<u8> {
    xor_seq(pt, ctr_ks_spec(k1, siv_tag_spec(k0, k1, iv, aad, pt).take(12), pt.len()))
}

/// Seal a payload: returns the 16-byte tag and the ciphertext.
pub fn gmac_siv_seal(
    k0: &Vec<u8>,
    k1: &Vec<u8>,
    iv: &Vec<u8>,
    aad: &Vec<u8>,
    pt: &Vec<u8>,
) -> (r: (Vec<u8>, Vec<u8>))
    requires
        k0@.len() == 32,
        k1@.len() == 32,
        iv@.len() == 8,
        aad@.len() <= 64,
        pt@.len() <= 0x80_0000,
    ensures
        r.0@ == siv_tag_spec(k0@, k1@, iv@, aad@, pt@),
        r.0@.len() == 16,
        r.1@ == siv_ct_spec(k0@, k1@, iv@, aad@, pt@),
        r.1@.len() == pt@.len(),
{
    let mut nonce = iv.clone();
    nonce.push(0);
    nonce.push(0);
    nonce.push(0);
    nonce.push(0);
    proof {
        assert(nonce@ =~= iv@ + seq![0u8, 0u8, 0u8, 0u8]);
    }
    let mut m = pad16_vec(aad);
    append_bytes(&mut m, pt);
    proof {
        assert(m@ =~= pad16_spec(aad@) + pt@);
    }
    let g = gmac(k0, &nonce, &m);
    let g_lo = sub_vec(&g, 0, 8);
    let g_hi = sub_vec(&g, 8, 16);
    let fold = xor_bytes(&g_lo, &g_hi);
    proof {
        assert(fold@ =~= siv_gmac_fold_spec(g@));
    }
    let mut tag_in = iv.clone();
    append_bytes(&mut tag_in, &fold);
    proof {
        assert(tag_in@ =~= iv@ + siv_gmac_fold_spec(g@));
    }
    let tag = aes256_encrypt_block(k1, &tag_in);
    let ctr_iv = sub_vec(&tag, 0, 12);
    proof {
        assert(ctr_iv@ =~= tag@.take(12));
    }
    let ks = aes_ctr_keystream(k1, &ctr_iv, pt.len());
    let ct = xor_bytes(pt, &ks);
    (tag, ct)
}

/// What opening yields: the counter-mode decryption of the ciphertext,
/// provided the decrypted tag block's second half matches the folded GMAC
/// recomputed over that plaintext.
pub open spec fn siv_open_spec(
    k0: Seq<u8>,
    k1: Seq<u8>,
    tag: Seq<u8>,
    aad: Seq<u8>,
    ct: Seq<u8>,
) -> Option<Seq<u8>> {
    let pt = xor_seq(ct, ctr_ks_spec(k1, tag.take(12), ct.len()));
    let dec = aes256_unblock_of(k1, tag);
    let g = gmac_spec(k0, dec.take(8) + seq![0u8, 0u8, 0u8, 0u8], pad16_spec(aad) + pt);
    if siv_gmac_fold_spec(g) == dec.subrange(8, 16) {
        Some(pt)
    } else {
        None
    }
}

/// Open a sealed payload: authenticate and decrypt, or yield nothing.
///
/// Whatever was sealed under the same keys and additional data opens to the
/// original plaintext.
pub fn gmac_siv_open(
    k0: &Vec<u8>,
    k1: &Vec<u8>,
    tag: &Vec<u8>,
    aad: &Vec<u8>,
    ct: &Vec<u8>,
) -> (r: Option<Vec<u8>>)
    requires
        k0@.len() == 32,
        k1@.len() == 32,
        tag@.len() == 16,
        aad@.len() <= 64,
        ct@.len() <= 0x80_0000,
    ensures
        r matches Some(p) ==> p@.len() == ct@.len(),
        r matches Some(p) ==> siv_open_spec(k0@, k1@, tag@, aad@, ct@) == Some(p@),
        r is None ==> siv_open_spec(k0@, k1@, tag@, aad@, ct@) is None,
        forall|ivv: Seq<u8>, ptv: Seq<u8>|
            ivv.len() == 8 && ptv.len() == ct@.len()
                && tag@ == siv_tag_spec(k0@, k1@, ivv, aad@, ptv)
                && ct@ == siv_ct_spec(k0@, k1@, ivv, aad@, ptv)
                ==> (r matches Some(p) && p@ == ptv),
{
    let ctr_iv = sub_vec(tag, 0, 12);
    proof {
        assert(ctr_iv@ =~= tag@.take(12));
    }
    let ks = aes_ctr_keystream(k1, &ctr_iv, ct.len());
    let pt = xor_bytes(ct, &ks);
    let dec = aes256_decrypt_block(k1, tag);
    let mut nonce = sub_vec(&dec, 0, 8);
    nonce.push(0);
    nonce.push(0);
    nonce.push(0);
    nonce.push(0);
    proof {
        assert(dec@.subrange(0, 8) =~= dec@.take(8));
        assert(nonce@ =~= dec@.take(8) + seq![0u8, 0u8, 0u8, 0u8]);
    }
    let mut m = pad16_vec(aad);
    append_bytes(&mut m, &pt);
    proof {
        assert(m@ =~= pad16_spec(aad@) + pt@);
    }
    let g = gmac(k0, &nonce, &m);
    let g_lo = sub_vec(&g, 0, 8);
    let g_hi = sub_vec(&g, 8, 16);
    let fold = xor_bytes(&g_lo, &g_hi);
    proof {
        assert(fold@ =~= siv_gmac_fold_spec(g@));
    }
    let expect = sub_vec(&dec, 8, 16);
    let ok = bytes_eq(&fold, &expect);
    proof {
        assert(expect@ =~= dec@.subrange(8, 16));
        assert forall|ivv: Seq<u8>, ptv: Seq<u8>|
            ivv.len() == 8 && ptv.len() == ct@.len()
                && tag@ == siv_tag_spec(k0@, k1@, ivv, aad@, ptv)
                && ct@ == siv_ct_spec(k0@, k1@, ivv, aad@, ptv)
                implies (ok && pt@ == ptv) by {
            let gv = gmac_spec(k0@, ivv + seq![0u8, 0u8, 0u8, 0u8], pad16_spec(aad@) + ptv);
            let pre = ivv + siv_gmac_fold_spec(gv);
            assert(pre.len() == 16);
            assert(tag@ == aes256_block_of(k1@, pre));
            assert(dec@ == pre);
            assert(dec@.take(8) =~= ivv);
            assert(dec@.subrange(8, 16) =~= siv_gmac_fold_spec(gv));
            crate::util::lemma_xor_involutive(
                ptv,
                ctr_ks_spec(k1@, siv_tag_spec(k0@, k1@, ivv, aad@, ptv).take(12), ptv.len()),
            );
            assert(pt@ =~= ptv);
            assert(fold@ == siv_gmac_fold_spec(gv));
        }
    }
    if ok {
        Some(pt)
    } else {
        None
    }
}

} // verus!
