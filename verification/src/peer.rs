use vstd::prelude::*;

use crate::crypto::{
    aes_ctr_keystream, ctr_ks_spec, gmac_siv_open, gmac_siv_seal, hmac_sha384, hmac_sha384_of,
    kbkdf_spec, poly1305_of, poly1305_tag, random_bytes, salsa12_keystream, salsa12_ks_of, sha384,
    sha384_of, siv_ct_spec, siv_open_spec, siv_tag_spec, zt_kbkdf_hmac_sha384,
    KBKDF_KEY_USAGE_LABEL_AES_GMAC_SIV_K0, KBKDF_KEY_USAGE_LABEL_AES_GMAC_SIV_K1,
    KBKDF_KEY_USAGE_LABEL_HELLO_DICTIONARY_ENCRYPT, KBKDF_KEY_USAGE_LABEL_PACKET_HMAC,
};
use crate::dictionary::{
    dict_bytes_spec, entry_bytes_spec, i64_to_u64, i64_to_u64_spec, key1, key2,
    lemma_key_safe1, lemma_key_safe2, Dictionary,
};
use crate::inet::Endpoint;
use crate::protocol::{
    header_aad_spec, header_bytes_spec, salsa_key_spec, FragmentHeader, PacketHeader,
    PacketHeaderV, CIPHER_AES_GMAC_SIV, CIPHER_NOCRYPT_POLY1305, CIPHER_SALSA2012_POLY1305,
    FRAGMENT_COUNT_MAX, FRAGMENT_HEADER_SIZE, FRAGMENT_INDICATOR, HEADER_FLAGS_FIELD_MASK_CIPHER,
    HEADER_FLAGS_FIELD_MASK_HIDE_HOPS, PACKET_HEADER_SIZE, PACKET_VERB_INDEX,
    PEER_SERVICE_INTERVAL, UDP_DEFAULT_MTU, VERB_FLAG_HMAC, VERB_MASK, VERB_VL1_ECHO,
    VERB_VL1_ERROR, VERB_VL1_HELLO, VERB_VL1_OK, VERB_VL1_PUSH_DIRECT_PATHS,
    VERB_VL1_RENDEZVOUS, VERB_VL1_USER_MESSAGE, VERB_VL1_WHOIS, VERSION_MAJOR, VERSION_MINOR,
    VERSION_PROTO, VERSION_REVISION,
};
use crate::util::{
    addr_to_bytes, addr_bytes_spec, append_bytes, be16, be64, be64_spec, bytes_eq_range,
    hex_min_spec, sub_vec, u64_from_be, wrapping_add_u64, xor_bytes, xor_seq, zeros,
};
use crate::PACKET_SIZE_MAX;

verus! {

// ---------------------------------------------------------------------------
// Identity: a peer's public identity. Key agreement with the local identity
// yields the 48-byte static session secret; the derivation is symmetric in
// the two public identities, and only a party holding its secret half may
// perform it.
// ---------------------------------------------------------------------------

/// Lexicographic order on byte strings, used to orient the agreement.
pub open spec fn lex_le(a: Seq<u8>, b: Seq<u8>) -> bool
    decreases a.len(),
{
    if a.len() == 0 {
        true
    } else if b.len() == 0 {
        false
    } else if a[0] < b[0] {
        true
    } else if a[0] > b[0] {
        false
    } else {
        lex_le(a.drop_first(), b.drop_first())
    }
}

proof fn lemma_lex_total(a: Seq<u8>, b: Seq<u8>)
    ensures
        lex_le(a, b) || lex_le(b, a),
        lex_le(a, b) && lex_le(b, a) ==> a == b,
    decreases a.len(),
{
    if a.len() == 0 {
        if lex_le(a, b) && lex_le(b, a) {
            assert(b.len() == 0);
            assert(a =~= b);
        }
    } else if b.len() == 0 {
    } else if a[0] == b[0] {
        lemma_lex_total(a.drop_first(), b.drop_first());
        if lex_le(a, b) && lex_le(b, a) {
            assert(a.drop_first() == b.drop_first());
            assert(a.len() == b.len());
            assert forall|i: int| 0 <= i < a.len() implies a[i] == b[i] by {
                if i > 0 {
                    assert(a.drop_first()[i - 1] == a[i]);
                    assert(b.drop_first()[i - 1] == b[i]);
                }
            }
            assert(a =~= b);
        }
    }
}

/// The shared secret two identities agree on: an HMAC-SHA-384 keyed by the
/// lexicographically smaller public identity over the larger one.
pub open spec fn agree_spec(a: Seq<u8>, b: Seq<u8>) -> Seq<u8> {
    if lex_le(a, b) {
        hmac_sha384_of(a, b)
    } else {
        hmac_sha384_of(b, a)
    }
}

/// Key agreement does not depend on which side computes it.
pub proof fn lemma_agreement_symmetric(a: Seq<u8>, b: Seq<u8>)
    ensures
        agree_spec(a, b) == agree_spec(b, a),
{
    lemma_lex_total(a, b);
}

pub fn lex_le_vec(a: &Vec<u8>, b: &Vec<u8>) -> (r: bool)
    ensures
        r == lex_le(a@, b@),
{
    let n = if a.len() < b.len() {
        a.len()
    } else {
        b.len()
    };
    let mut i: usize = 0;
    proof {
        assert(a@.skip(0) =~= a@);
        assert(b@.skip(0) =~= b@);
    }
    while i < n
        invariant
            i <= n,
            n == (if a@.len() < b@.len() {
                a@.len()
            } else {
                b@.len()
            }),
            forall|j: int| 0 <= j < i ==> a@[j] == b@[j],
            lex_le(a@, b@) == lex_le(a@.skip(i as int), b@.skip(i as int)),
        decreases n - i,
    {
        proof {
            assert(a@.skip(i as int)[0] == a@[i as int]);
            assert(b@.skip(i as int)[0] == b@[i as int]);
            assert(a@.skip(i as int).drop_first() =~= a@.skip(i as int + 1));
            assert(b@.skip(i as int).drop_first() =~= b@.skip(i as int + 1));
        }
        if a[i] < b[i] {
            return true;
        }
        if a[i] > b[i] {
            return false;
        }
        i = i + 1;
    }
    proof {
        if a@.len() <= b@.len() {
            assert(a@.skip(i as int).len() == a@.len() - i);
        } else {
            assert(b@.skip(i as int) =~= Seq::<u8>::empty());
            assert(a@.skip(i as int).len() > 0);
        }
    }
    a.len() <= b.len()
}

/// A remote peer's public identity: its 40-bit address, its public key
/// material, and, for the local node only, the secret half.
#[derive(Clone, PartialEq, Eq, Debug)]
pub struct Identity {
    pub address: u64,
    pub public: Vec<u8>,
    pub secret: Option<Vec<u8>>,
}

impl Identity {
    pub open spec fn wf(self) -> bool {
        self.address < 0x100_0000_0000
    }

    /// Agree on the 48-byte shared secret with another identity. Yields
    /// nothing when this identity does not hold its secret half.
    pub fn agree(&self, other: &Identity) -> (r: Option<Vec<u8>>)
        ensures
            match r {
                Some(s) => {
                    &&& self.secret is Some
                    &&& s@ == agree_spec(self.public@, other.public@)
                    &&& s@.len() == 48
                },
                None => self.secret is None,
            },
    {
        match &self.secret {
            None => None,
            Some(_) => {
                if lex_le_vec(&self.public, &other.public) {
                    Some(hmac_sha384(&self.public, &other.public))
                } else {
                    Some(hmac_sha384(&other.public, &self.public))
                }
            },
        }
    }
}

// ---------------------------------------------------------------------------
// Paths, the node context, and the caller-supplied interfaces
// ---------------------------------------------------------------------------

/// One transport path to a peer: its endpoint, the local socket and
/// interface it arrived on, and per-path statistics.
#[derive(Clone, PartialEq, Eq, Debug)]
pub struct Path {
    pub endpoint: Endpoint,
    pub local_socket: Option<i64>,
    pub local_interface: Option<i64>,
    pub last_receive_time_ticks: i64,
    pub quality: i64,
}

/// What the peer layer needs to know of the local node.
pub struct Node {
    pub address: u64,
    pub instance_id: u64,
    pub fips_mode: bool,
    pub wimp: bool,
    pub locator: Option<Vec<u8>>,
    pub root_path: Option<Path>,
    pub roots: Vec<u64>,
    pub sys_arch: Vec<u8>,
    pub sys_bits: u64,
    pub os_name: Vec<u8>,
}

impl Node {
    /// Whether an address belongs to one of this node's roots.
    pub fn is_root_address(&self, address: u64) -> (r: bool)
        ensures
            r == self.roots@.contains(address),
    {
        let mut i: usize = 0;
        while i < self.roots.len()
            invariant
                i <= self.roots@.len(),
                forall|j: int| 0 <= j < i ==> self.roots@[j] != address,
            decreases self.roots@.len() - i,
        {
            if self.roots[i] == address {
                return true;
            }
            i = i + 1;
        }
        false
    }
}

/// The transport and clock the caller supplies.
pub trait VL1CallerInterface {
    fn wire_send(
        &mut self,
        endpoint: &Endpoint,
        local_socket: Option<i64>,
        local_interface: Option<i64>,
        data: &Vec<Vec<u8>>,
        ttl: u8,
    ) -> bool;

    fn time_ticks(&mut self) -> i64;

    fn time_clock(&mut self) -> i64;
}

/// The higher-layer packet handler consulted before VL1 verb dispatch.
pub trait VL1PacketHandler {
    fn handle_packet(
        &mut self,
        peer_address: u64,
        source_path: &Path,
        forward_secrecy: bool,
        verb: u8,
        payload: &Vec<u8>,
    ) -> bool;
}

// ---------------------------------------------------------------------------
// Session secrets
// ---------------------------------------------------------------------------

/// A 48-byte session secret with its creation time (-1 for the static,
/// non-expiring secret), its encryption-use counter, and the two AES-GMAC-SIV
/// sub-keys derived from it under distinct labels.
pub struct PeerSecret {
    pub create_time_ticks: i64,
    pub encrypt_count: u64,
    pub secret: Vec<u8>,
    pub gmac_siv_k0: Vec<u8>,
    pub gmac_siv_k1: Vec<u8>,
}

impl PeerSecret {
    pub open spec fn wf(self) -> bool {
        &&& self.secret@.len() == 48
        &&& self.gmac_siv_k0@ == kbkdf_spec(self.secret@, KBKDF_KEY_USAGE_LABEL_AES_GMAC_SIV_K0)
            .take(32)
        &&& self.gmac_siv_k1@ == kbkdf_spec(self.secret@, KBKDF_KEY_USAGE_LABEL_AES_GMAC_SIV_K1)
            .take(32)
        &&& self.gmac_siv_k0@.len() == 32
        &&& self.gmac_siv_k1@.len() == 32
    }

    /// Key a session secret: derive the AEAD sub-keys under the two labels.
    pub fn new(create_time_ticks: i64, secret: Vec<u8>) -> (r: PeerSecret)
        requires
            secret@.len() == 48,
        ensures
            r.wf(),
            r.create_time_ticks == create_time_ticks,
            r.encrypt_count == 0,
            r.secret@ == secret@,
    {
        let k0full = zt_kbkdf_hmac_sha384(&secret, KBKDF_KEY_USAGE_LABEL_AES_GMAC_SIV_K0);
        let k1full = zt_kbkdf_hmac_sha384(&secret, KBKDF_KEY_USAGE_LABEL_AES_GMAC_SIV_K1);
        let gmac_siv_k0 = sub_vec(&k0full, 0, 32);
        let gmac_siv_k1 = sub_vec(&k1full, 0, 32);
        proof {
            assert(gmac_siv_k0@ =~= kbkdf_spec(secret@, KBKDF_KEY_USAGE_LABEL_AES_GMAC_SIV_K0)
                .take(32));
            assert(gmac_siv_k1@ =~= kbkdf_spec(secret@, KBKDF_KEY_USAGE_LABEL_AES_GMAC_SIV_K1)
                .take(32));
        }
        PeerSecret { create_time_ticks, encrypt_count: 0, secret, gmac_siv_k0, gmac_siv_k1 }
    }
}

/// An offered ephemeral key pair: its creation time, the two public keys on
/// offer, and the hash of their concatenation.
pub struct EphemeralKeyPair {
    pub create_time_ticks: i64,
    pub public_keys_hash: Vec<u8>,
    pub c25519_public: Vec<u8>,
    pub p521_public: Vec<u8>,
}

impl EphemeralKeyPair {
    pub open spec fn wf(self) -> bool {
        self.public_keys_hash@ == sha384_of(self.c25519_public@ + self.p521_public@)
    }

    pub fn new(create_time_ticks: i64, c25519_public: Vec<u8>, p521_public: Vec<u8>) -> (r:
        EphemeralKeyPair)
        ensures
            r.wf(),
            r.create_time_ticks == create_time_ticks,
            r.c25519_public@ == c25519_public@,
            r.p521_public@ == p521_public@,
    {
        let mut cat = c25519_public.clone();
        append_bytes(&mut cat, &p521_public);
        let public_keys_hash = sha384(&cat);
        EphemeralKeyPair { create_time_ticks, public_keys_hash, c25519_public, p521_public }
    }
}

// ---------------------------------------------------------------------------
// The peer session
// ---------------------------------------------------------------------------

/// A remote peer known to this node: its identity, the static secret from
/// identity agreement with the derived HELLO-dictionary and packet-HMAC
/// sub-keys, the optional ephemeral secret and offered key pair, the path
/// list in ascending order of quality, and the session counters.
pub struct Peer {
    pub identity: Identity,
    pub static_secret: PeerSecret,
    pub static_secret_hello_dictionary_key: Vec<u8>,
    pub static_secret_packet_hmac: Vec<u8>,
    pub ephemeral_secret: Option<PeerSecret>,
    pub ephemeral_pair: Option<EphemeralKeyPair>,
    pub paths: Vec<Path>,
    pub reported_local_ip: Option<crate::inet::InetAddress>,
    pub last_send_time_ticks: i64,
    pub last_receive_time_ticks: i64,
    pub last_forward_time_ticks: i64,
    pub total_bytes_sent: u64,
    pub total_bytes_sent_indirect: u64,
    pub total_bytes_received: u64,
    pub total_bytes_received_indirect: u64,
    pub total_bytes_forwarded: u64,
    pub packet_iv_counter: u64,
    pub remote_version: u64,
    pub remote_protocol_version: u8,
}

/// Which payload a trial of one secret against one packet yields. The result
/// is pinned exactly: the Salsa and Poly1305 modes by the named primitive
/// results, the AES-GMAC-SIV mode by the AEAD's opening function.
pub open spec fn try_decrypt_spec(
    secret: PeerSecret,
    h: PacketHeaderV,
    pieces: Seq<u8>,
    head_len: nat,
    cipher: u8,
) -> Option<Seq<u8>> {
    if cipher == CIPHER_NOCRYPT_POLY1305 {
        let dk = salsa_key_spec(secret.secret@, h, head_len);
        let pk = salsa12_ks_of(dk.take(32), h.id, 32);
        if poly1305_of(pk, pieces).take(8) == h.mac {
            Some(pieces)
        } else {
            None
        }
    } else if cipher == CIPHER_SALSA2012_POLY1305 {
        let dk = salsa_key_spec(secret.secret@, h, head_len);
        let ks = salsa12_ks_of(dk.take(32), h.id, (32 + pieces.len()) as nat);
        if poly1305_of(ks.take(32), pieces).take(8) == h.mac {
            Some(xor_seq(pieces, ks.skip(32)))
        } else {
            None
        }
    } else if cipher == CIPHER_AES_GMAC_SIV {
        siv_open_spec(secret.gmac_siv_k0@, secret.gmac_siv_k1@, h.id + h.mac, header_aad_spec(h),
            pieces)
    } else {
        None
    }
}

/// That a packet's header and payload were produced by sealing `pt` with IV
/// `iv` under a secret's AES-GMAC-SIV sub-keys.
pub open spec fn gmac_sealed(
    secret: PeerSecret,
    h: PacketHeaderV,
    ct: Seq<u8>,
    iv: Seq<u8>,
    pt: Seq<u8>,
) -> bool {
    &&& iv.len() == 8
    &&& pt.len() == ct.len()
    &&& h.id + h.mac == siv_tag_spec(secret.gmac_siv_k0@, secret.gmac_siv_k1@, iv,
        header_aad_spec(h), pt)
    &&& ct == siv_ct_spec(secret.gmac_siv_k0@, secret.gmac_siv_k1@, iv, header_aad_spec(h), pt)
}

/// That the ephemeral secret, when one is installed, sealed this packet.
pub open spec fn eph_gmac_sealed(
    p: Peer,
    h: PacketHeaderV,
    ct: Seq<u8>,
    iv: Seq<u8>,
    pt: Seq<u8>,
) -> bool {
    match p.ephemeral_secret {
        Some(e) => gmac_sealed(e, h, ct, iv, pt),
        None => false,
    }
}

/// Try one secret against one packet.
fn try_decrypt(
    secret: &PeerSecret,
    header: &PacketHeader,
    pieces: &Vec<u8>,
    head_len: usize,
    cipher: u8,
) -> (r: Option<Vec<u8>>)
    requires
        secret.wf(),
        header.wf(),
        pieces@.len() <= 0x80_0000,
        pieces@.len() >= 1,
    ensures
        match r {
            Some(p) => try_decrypt_spec(*secret, header@, pieces@, head_len as nat, cipher)
                == Some(p@) && p@.len() == pieces@.len(),
            None => try_decrypt_spec(*secret, header@, pieces@, head_len as nat, cipher) is None,
        },
        forall|ivv: Seq<u8>, ptv: Seq<u8>|
            cipher == CIPHER_AES_GMAC_SIV && gmac_sealed(*secret, header@, pieces@, ivv, ptv)
                ==> (r matches Some(p) && p@ == ptv),
{
    if cipher == CIPHER_NOCRYPT_POLY1305 {
        let dk = crate::protocol::salsa_derive_per_packet_key(&secret.secret, header, head_len);
        let dk32 = sub_vec(&dk, 0, 32);
        proof {
            assert(dk32@ =~= salsa_key_spec(secret.secret@, header@, head_len as nat).take(32));
        }
        let pk = salsa12_keystream(&dk32, &header.id, 32);
        let tag = poly1305_tag(&pk, pieces);
        let ok = bytes_eq_range(&tag, &header.mac, 0, 8);
        proof {
            assert(header.mac@.subrange(0, 8) =~= header@.mac);
        }
        if ok {
            proof {
                assert(tag@.take(8) =~= header@.mac);
            }
            Some(pieces.clone())
        } else {
            proof {
                assert(!(tag@.take(8) =~= header@.mac));
            }
            None
        }
    } else if cipher == CIPHER_SALSA2012_POLY1305 {
        let dk = crate::protocol::salsa_derive_per_packet_key(&secret.secret, header, head_len);
        let dk32 = sub_vec(&dk, 0, 32);
        proof {
            assert(dk32@ =~= salsa_key_spec(secret.secret@, header@, head_len as nat).take(32));
        }
        let ks = salsa12_keystream(&dk32, &header.id, 32 + pieces.len());
        let pk = sub_vec(&ks, 0, 32);
        proof {
            assert(pk@ =~= ks@.take(32));
        }
        let tag = poly1305_tag(&pk, pieces);
        let ok = bytes_eq_range(&tag, &header.mac, 0, 8);
        proof {
            assert(header.mac@.subrange(0, 8) =~= header@.mac);
        }
        if ok {
            let ks_tail = sub_vec(&ks, 32, 32 + pieces.len());
            proof {
                assert(ks_tail@ =~= ks@.skip(32));
                assert(tag@.take(8) =~= header@.mac);
            }
            Some(xor_bytes(pieces, &ks_tail))
        } else {
            proof {
                assert(!(tag@.take(8) =~= header@.mac));
            }
            None
        }
    } else if cipher == CIPHER_AES_GMAC_SIV {
        let tag16 = header.aes_gmac_siv_tag();
        let aad = header.aad_bytes();
        let r = gmac_siv_open(&secret.gmac_siv_k0, &secret.gmac_siv_k1, &tag16, &aad, pieces);
        proof {
            assert forall|ivv: Seq<u8>, ptv: Seq<u8>|
                gmac_sealed(*secret, header@, pieces@, ivv, ptv) implies (r matches Some(p)
                && p@ == ptv) by {
                assert(tag16@ == siv_tag_spec(secret.gmac_siv_k0@, secret.gmac_siv_k1@, ivv,
                    aad@, ptv));
                assert(pieces@ == siv_ct_spec(secret.gmac_siv_k0@, secret.gmac_siv_k1@, ivv,
                    aad@, ptv));
            }
        }
        r
    } else {
        None
    }
}

/// The payload bytes the trailing fragments contribute: everything after
/// each 16-byte fragment header; too-short fragments contribute nothing.
pub open spec fn frag_piece_spec(o: Option<Vec<u8>>) -> Seq<u8> {
    match o {
        Some(f) => if f@.len() >= FRAGMENT_HEADER_SIZE {
            f@.skip(FRAGMENT_HEADER_SIZE as int)
        } else {
            Seq::<u8>::empty()
        },
        None => Seq::<u8>::empty(),
    }
}

pub open spec fn frags_payload_spec(s: Seq<Option<Vec<u8>>>) -> Seq<u8>
    decreases s.len(),
{
    if s.len() == 0 {
        Seq::<u8>::empty()
    } else {
        frags_payload_spec(s.drop_last()) + frag_piece_spec(s.last())
    }
}

/// What receiving a packet yields: the forward-secrecy flag, the verb, and
/// the plaintext payload; or nothing when the packet is malformed, uses an
/// unknown cipher, is cleartext but not a HELLO, or fails to authenticate
/// under both the ephemeral (tried first) and the static secret.
pub open spec fn receive_spec(
    peer: Peer,
    h: PacketHeaderV,
    packet: Seq<u8>,
    pieces: Seq<u8>,
) -> Option<(bool, u8, Seq<u8>)> {
    if packet.len() < 28 {
        None
    } else {
        let cipher = h.flags_cipher_hops & HEADER_FLAGS_FIELD_MASK_CIPHER;
        if cipher == CIPHER_NOCRYPT_POLY1305 && (packet[27] & VERB_MASK) != VERB_VL1_HELLO {
            None
        } else {
            let eph_r = match peer.ephemeral_secret {
                Some(e) => try_decrypt_spec(e, h, pieces, packet.len(), cipher),
                None => None,
            };
            match eph_r {
                Some(pl) => Some((true, pl[0], pl)),
                None => match try_decrypt_spec(peer.static_secret, h, pieces, packet.len(),
                    cipher) {
                    Some(pl) => Some((false, pl[0], pl)),
                    None => None,
                },
            }
        }
    }
}

impl Peer {
    pub const INTERVAL: i64 = PEER_SERVICE_INTERVAL;

    pub open spec fn wf(self) -> bool {
        &&& self.identity.wf()
        &&& self.static_secret.wf()
        &&& self.static_secret.create_time_ticks == -1
        &&& self.static_secret_hello_dictionary_key@ == kbkdf_spec(self.static_secret.secret@,
            KBKDF_KEY_USAGE_LABEL_HELLO_DICTIONARY_ENCRYPT).take(32)
        &&& self.static_secret_hello_dictionary_key@.len() == 32
        &&& self.static_secret_packet_hmac@ == kbkdf_spec(self.static_secret.secret@,
            KBKDF_KEY_USAGE_LABEL_PACKET_HMAC)
        &&& match self.ephemeral_secret {
            Some(e) => e.wf(),
            None => true,
        }
    }

    /// Create a new peer from identity agreement. Yields nothing exactly
    /// when the local identity does not hold its secret half.
    pub fn new(this_node_identity: &Identity, id: Identity) -> (r: Option<Peer>)
        requires
            id.wf(),
        ensures
            match r {
                Some(p) => {
                    &&& this_node_identity.secret is Some
                    &&& p.wf()
                    &&& p.identity == id
                    &&& p.static_secret.secret@ == agree_spec(
                        this_node_identity.public@,
                        id.public@,
                    )
                    &&& p.ephemeral_secret is None
                    &&& p.ephemeral_pair is None
                    &&& p.paths@.len() == 0
                    &&& p.last_send_time_ticks == 0
                    &&& p.last_receive_time_ticks == 0
                    &&& p.last_forward_time_ticks == 0
                    &&& p.static_secret.encrypt_count == 0
                    &&& p.total_bytes_sent == 0
                    &&& p.total_bytes_sent_indirect == 0
                    &&& p.total_bytes_received == 0
                    &&& p.total_bytes_received_indirect == 0
                    &&& p.total_bytes_forwarded == 0
                    &&& p.remote_version == 0
                    &&& p.remote_protocol_version == 0
                },
                None => this_node_identity.secret is None,
            },
    {
        match this_node_identity.agree(&id) {
            None => None,
            Some(static_secret) => {
                let hello_full = zt_kbkdf_hmac_sha384(
                    &static_secret,
                    KBKDF_KEY_USAGE_LABEL_HELLO_DICTIONARY_ENCRYPT,
                );
                let static_secret_hello_dictionary_key = sub_vec(&hello_full, 0, 32);
                let static_secret_packet_hmac = zt_kbkdf_hmac_sha384(
                    &static_secret,
                    KBKDF_KEY_USAGE_LABEL_PACKET_HMAC,
                );
                let iv_seed = random_bytes(8);
                let packet_iv_counter = u64_from_be(&iv_seed);
                let sec = PeerSecret::new(-1, static_secret);
                proof {
                    assert(static_secret_hello_dictionary_key@ =~= kbkdf_spec(
                        sec.secret@,
                        KBKDF_KEY_USAGE_LABEL_HELLO_DICTIONARY_ENCRYPT,
                    ).take(32));
                }
                Some(
                    Peer {
                        identity: id,
                        static_secret: sec,
                        static_secret_hello_dictionary_key,
                        static_secret_packet_hmac,
                        ephemeral_secret: None,
                        ephemeral_pair: None,
                        paths: Vec::new(),
                        reported_local_ip: None,
                        last_send_time_ticks: 0,
                        last_receive_time_ticks: 0,
                        last_forward_time_ticks: 0,
                        total_bytes_sent: 0,
                        total_bytes_sent_indirect: 0,
                        total_bytes_received: 0,
                        total_bytes_received_indirect: 0,
                        total_bytes_forwarded: 0,
                        packet_iv_counter,
                        remote_version: 0,
                        remote_protocol_version: 0,
                    },
                )
            },
        }
    }

    /// The next packet initialization vector: the counter's current value.
    /// Successive calls return strictly increasing values.
    pub fn next_packet_iv(&mut self) -> (r: u64)
        requires
            old(self).packet_iv_counter < u64::MAX,
        ensures
            r == old(self).packet_iv_counter,
            *final(self) == (Peer {
                packet_iv_counter: (old(self).packet_iv_counter + 1) as u64,
                ..*old(self)
            }),
    {
        let r = self.packet_iv_counter;
        self.packet_iv_counter = r + 1;
        r
    }

    /// The current best path: the last of the quality-ordered list.
    pub fn best_path(&self) -> (r: Option<&Path>)
        ensures
            match r {
                Some(p) => self.paths@.len() > 0 && *p == self.paths@.last(),
                None => self.paths@.len() == 0,
            },
    {
        if self.paths.len() == 0 {
            None
        } else {
            Some(&self.paths[self.paths.len() - 1])
        }
    }

    /// The remote version of this peer, or nothing if not yet known.
    pub fn version(&self) -> (r: Option<[u16; 4]>)
        ensures
            match r {
                Some(v) => self.remote_version != 0 && v[0] == ((self.remote_version >> 48)
                    & 0xffff) as u16 && v[1] == ((self.remote_version >> 32) & 0xffff) as u16
                    && v[2] == ((self.remote_version >> 16) & 0xffff) as u16 && v[3]
                    == (self.remote_version & 0xffff) as u16,
                None => self.remote_version == 0,
            },
    {
        let rv = self.remote_version;
        if rv != 0 {
            Some(
                [
                    ((rv >> 48) & 0xffff) as u16,
                    ((rv >> 32) & 0xffff) as u16,
                    ((rv >> 16) & 0xffff) as u16,
                    (rv & 0xffff) as u16,
                ],
            )
        } else {
            None
        }
    }

    /// The remote protocol version of this peer, or nothing if not yet known.
    pub fn protocol_version(&self) -> (r: Option<u8>)
        ensures
            match r {
                Some(v) => self.remote_protocol_version != 0 && v == self.remote_protocol_version,
                None => self.remote_protocol_version == 0,
            },
    {
        let pv = self.remote_protocol_version;
        if pv != 0 {
            Some(pv)
        } else {
            None
        }
    }
}

impl Peer {
    /// Receive, authenticate, decrypt and dispatch one inbound packet. The
    /// fragments list holds every trailing fragment of the packet, in order.
    /// Yields the forward-secrecy flag, the verb, and the plaintext payload;
    /// nothing on any malformed or unauthenticated packet, with the peer
    /// unchanged. A packet sealed under this peer's AES-GMAC-SIV keys is
    /// always accepted and yields the original plaintext.
    pub fn receive<CI: VL1CallerInterface, PH: VL1PacketHandler>(
        &mut self,
        node: &Node,
        ci: &mut CI,
        ph: &mut PH,
        time_ticks: i64,
        source_path: &Path,
        header: &PacketHeader,
        packet: &Vec<u8>,
        fragments: &Vec<Option<Vec<u8>>>,
    ) -> (r: Option<(bool, u8, Vec<u8>)>)
        requires
            old(self).wf(),
            header.wf(),
            packet@.len() <= PACKET_SIZE_MAX,
            fragments@.len() <= FRAGMENT_COUNT_MAX,
            forall|i: int|
                0 <= i < fragments@.len() ==> (#[trigger] frag_piece_spec(fragments@[i])).len()
                    <= PACKET_SIZE_MAX,
        ensures
            match r {
                Some((fs, verb, payload)) => {
                    &&& receive_spec(*old(self), header@, packet@,
                        packet@.skip(27) + frags_payload_spec(fragments@)) == Some((fs, verb,
                        payload@))
                    &&& *final(self) == (Peer {
                        last_receive_time_ticks: time_ticks,
                        total_bytes_received: ((old(self).total_bytes_received + payload@.len()
                            + 27) % 0x1_0000_0000_0000_0000) as u64,
                        ..*old(self)
                    })
                },
                None => {
                    &&& receive_spec(*old(self), header@, packet@,
                        packet@.skip(27) + frags_payload_spec(fragments@)) is None
                    &&& *final(self) == *old(self)
                },
            },
            forall|ivv: Seq<u8>, ptv: Seq<u8>|
                {
                    &&& packet@.len() >= 28
                    &&& (header@.flags_cipher_hops & HEADER_FLAGS_FIELD_MASK_CIPHER)
                        == CIPHER_AES_GMAC_SIV
                    &&& #[trigger] eph_gmac_sealed(*old(self), header@,
                        packet@.skip(27) + frags_payload_spec(fragments@), ivv, ptv)
                } ==> (r matches Some(t) && t.0 == true && t.2@ == ptv),
            forall|ivv: Seq<u8>, ptv: Seq<u8>|
                {
                    &&& packet@.len() >= 28
                    &&& (header@.flags_cipher_hops & HEADER_FLAGS_FIELD_MASK_CIPHER)
                        == CIPHER_AES_GMAC_SIV
                    &&& old(self).ephemeral_secret is None
                    &&& #[trigger] gmac_sealed(old(self).static_secret, header@,
                        packet@.skip(27) + frags_payload_spec(fragments@), ivv, ptv)
                } ==> (r matches Some(t) && t.0 == false && t.2@ == ptv),
    {
        if packet.len() < 28 {
            return None;
        }
        let cipher = header.cipher();
        if cipher == CIPHER_NOCRYPT_POLY1305 && (packet[27] & VERB_MASK) != VERB_VL1_HELLO {
            return None;
        }
        let mut pieces = sub_vec(packet, 27, packet.len());
        proof {
            assert(pieces@ =~= packet@.skip(27) + frags_payload_spec(fragments@.take(0)));
        }
        let mut i: usize = 0;
        while i < fragments.len()
            invariant
                i <= fragments@.len() <= FRAGMENT_COUNT_MAX,
                packet@.len() <= PACKET_SIZE_MAX,
                forall|k: int|
                    0 <= k < fragments@.len() ==> (#[trigger] frag_piece_spec(
                        fragments@[k],
                    )).len() <= PACKET_SIZE_MAX,
                pieces@ == packet@.skip(27) + frags_payload_spec(fragments@.take(i as int)),
                pieces@.len() <= packet@.len() + i * PACKET_SIZE_MAX,
            decreases fragments@.len() - i,
        {
            let ghost old_pieces = pieces@;
            match &fragments[i] {
                Some(f) => {
                    if f.len() >= FRAGMENT_HEADER_SIZE {
                        let piece = sub_vec(f, FRAGMENT_HEADER_SIZE, f.len());
                        append_bytes(&mut pieces, &piece);
                        proof {
                            assert(piece@ == frag_piece_spec(fragments@[i as int]));
                        }
                    }
                },
                None => {},
            }
            proof {
                let t1 = fragments@.take(i as int + 1);
                assert(t1.drop_last() =~= fragments@.take(i as int));
                assert(t1.last() == fragments@[i as int]);
                assert(pieces@ =~= packet@.skip(27) + frags_payload_spec(t1));
            }
            i = i + 1;
        }
        proof {
            assert(fragments@.take(fragments@.len() as int) =~= fragments@);
            assert(pieces@.len() >= 1) by {
                assert(packet@.skip(27).len() >= 1);
            }
        }
        let eph_r = match &self.ephemeral_secret {
            Some(e) => try_decrypt(e, header, &pieces, packet.len(), cipher),
            None => None,
        };
        let (fs, payload) = match eph_r {
            Some(p) => (true, p),
            None => match try_decrypt(&self.static_secret, header, &pieces, packet.len(),
                cipher) {
                Some(p) => (false, p),
                None => {
                    return None;
                },
            },
        };
        self.last_receive_time_ticks = time_ticks;
        self.total_bytes_received = wrapping_add_u64(
            self.total_bytes_received,
            (payload.len() + PACKET_HEADER_SIZE) as u64,
        );
        let verb = payload[0];
        if !ph.handle_packet(self.identity.address, source_path, fs, verb, &payload) {
            if verb == VERB_VL1_HELLO {
                self.receive_hello(ci, node, time_ticks, source_path, &payload);
            } else if verb == VERB_VL1_ERROR {
                self.receive_error(ci, node, time_ticks, source_path, &payload);
            } else if verb == VERB_VL1_OK {
                self.receive_ok(ci, node, time_ticks, source_path, &payload);
            } else if verb == VERB_VL1_WHOIS {
                self.receive_whois(ci, node, time_ticks, source_path, &payload);
            } else if verb == VERB_VL1_RENDEZVOUS {
                self.receive_rendezvous(ci, node, time_ticks, source_path, &payload);
            } else if verb == VERB_VL1_ECHO {
                self.receive_echo(ci, node, time_ticks, source_path, &payload);
            } else if verb == VERB_VL1_PUSH_DIRECT_PATHS {
                self.receive_push_direct_paths(ci, node, time_ticks, source_path, &payload);
            } else if verb == VERB_VL1_USER_MESSAGE {
                self.receive_user_message(ci, node, time_ticks, source_path, &payload);
            }
        }
        Some((fs, verb, payload))
    }

    /// Send a packet as one wire datagram, or as a head datagram followed by
    /// fragments when it exceeds the transport MTU. A failed wire send
    /// aborts the rest; nothing is retried here.
    /// Send a packet as one wire datagram, or as a head datagram followed by
    /// fragments when it exceeds the transport MTU. The datagrams handed to
    /// `wire_send` are exactly those of `fragment_packet`, whose contract
    /// pins their count and bytes; a failed wire send aborts the rest, and
    /// nothing is retried here.
    pub fn send_udp<CI: VL1CallerInterface>(
        &self,
        ci: &mut CI,
        endpoint: &Endpoint,
        local_socket: Option<i64>,
        local_interface: Option<i64>,
        packet_id: u64,
        data: &Vec<u8>,
    ) -> (r: bool)
        requires
            data@.len() >= 28,
            data@.len() <= PACKET_SIZE_MAX,
    {
        let frames = crate::protocol::fragment_packet(packet_id, data);
        let mut i: usize = 0;
        while i < frames.len()
            invariant
                i <= frames@.len(),
            decreases frames@.len() - i,
        {
            let mut bufs: Vec<Vec<u8>> = Vec::new();
            bufs.push(frames[i].clone());
            if !ci.wire_send(endpoint, local_socket, local_interface, &bufs, 0) {
                return false;
            }
            i = i + 1;
        }
        true
    }

    /// Seal a payload into a full on-wire packet under a session secret with
    /// AES-GMAC-SIV: the first eight tag bytes become the packet identifier,
    /// the rest the message authentication field.
    pub fn seal_packet_gmac_siv(
        secret: &PeerSecret,
        packet_iv: u64,
        dest: u64,
        src: u64,
        payload: &Vec<u8>,
    ) -> (r: Vec<u8>)
        requires
            secret.wf(),
            1 <= payload@.len() <= PACKET_SIZE_MAX - 27,
        ensures
            r@.len() == 27 + payload@.len(),
            ({
                let hv = PacketHeaderV {
                    id: r@.subrange(0, 8),
                    dest: r@.subrange(8, 13),
                    src: r@.subrange(13, 18),
                    flags_cipher_hops: r@[18],
                    mac: r@.subrange(19, 27),
                };
                &&& r@[18] == CIPHER_AES_GMAC_SIV
                &&& hv.dest == addr_bytes_spec(dest)
                &&& hv.src == addr_bytes_spec(src)
                &&& gmac_sealed(*secret, hv, r@.skip(27), be64_spec(packet_iv), payload@)
            }),
    {
        let ivb = be64(packet_iv);
        let dest_b = addr_to_bytes(dest);
        let src_b = addr_to_bytes(src);
        let mut aad = dest_b.clone();
        append_bytes(&mut aad, &src_b);
        aad.push(CIPHER_AES_GMAC_SIV & HEADER_FLAGS_FIELD_MASK_HIDE_HOPS);
        let (tag, ct) = gmac_siv_seal(
            &secret.gmac_siv_k0,
            &secret.gmac_siv_k1,
            &ivb,
            &aad,
            payload,
        );
        let mut out = sub_vec(&tag, 0, 8);
        append_bytes(&mut out, &dest_b);
        append_bytes(&mut out, &src_b);
        out.push(CIPHER_AES_GMAC_SIV);
        let mac = sub_vec(&tag, 8, 16);
        append_bytes(&mut out, &mac);
        append_bytes(&mut out, &ct);
        proof {
            let hv = PacketHeaderV {
                id: out@.subrange(0, 8),
                dest: out@.subrange(8, 13),
                src: out@.subrange(13, 18),
                flags_cipher_hops: out@[18],
                mac: out@.subrange(19, 27),
            };
            assert(out@.subrange(0, 8) =~= tag@.take(8));
            assert(out@.subrange(8, 13) =~= dest_b@);
            assert(out@.subrange(13, 18) =~= src_b@);
            assert(out@.subrange(19, 27) =~= tag@.subrange(8, 16));
            assert(out@.skip(27) =~= ct@);
            assert(hv.id + hv.mac =~= tag@);
            assert(header_aad_spec(hv) =~= aad@);
        }
        out
    }

    /// Send a payload to this peer: seal it under the ephemeral secret when
    /// one is installed, else under the static secret, and transmit over the
    /// best direct path, or the node's root path when none is known.
    pub fn send<CI: VL1CallerInterface>(
        &mut self,
        ci: &mut CI,
        node: &Node,
        time_ticks: i64,
        payload: &Vec<u8>,
    ) -> (r: bool)
        requires
            old(self).wf(),
            1 <= payload@.len() <= PACKET_SIZE_MAX - 27,
            old(self).packet_iv_counter < u64::MAX,
        ensures
            *final(self) == (Peer {
                last_send_time_ticks: time_ticks,
                total_bytes_sent: ((old(self).total_bytes_sent + payload@.len() + 27)
                    % 0x1_0000_0000_0000_0000) as u64,
                packet_iv_counter: (old(self).packet_iv_counter + 1) as u64,
                ..*old(self)
            }),
            old(self).paths@.len() == 0 && node.root_path is None ==> r == false,
    {
        let piv = self.next_packet_iv();
        let packet = {
            let secret = match &self.ephemeral_secret {
                Some(e) => e,
                None => &self.static_secret,
            };
            Peer::seal_packet_gmac_siv(secret, piv, self.identity.address, node.address, payload)
        };
        self.last_send_time_ticks = time_ticks;
        self.total_bytes_sent = wrapping_add_u64(self.total_bytes_sent, packet.len() as u64);
        let sent: bool;
        match self.best_path() {
            Some(p) => {
                sent = self.send_udp(ci, &p.endpoint, p.local_socket, p.local_interface, piv,
                    &packet);
            },
            None => match &node.root_path {
                Some(p) => {
                    sent = self.send_udp(ci, &p.endpoint, p.local_socket, p.local_interface, piv,
                        &packet);
                },
                None => {
                    sent = false;
                },
            },
        }
        sent
    }

    /// Forward a packet to this peer as received, without re-fragmenting.
    pub fn forward<CI: VL1CallerInterface>(
        &mut self,
        ci: &mut CI,
        time_ticks: i64,
        data: &Vec<u8>,
    ) -> (r: bool)
        ensures
            *final(self) == (Peer {
                last_forward_time_ticks: time_ticks,
                total_bytes_forwarded: ((old(self).total_bytes_forwarded + data@.len())
                    % 0x1_0000_0000_0000_0000) as u64,
                ..*old(self)
            }),
            old(self).paths@.len() == 0 ==> r == false,
    {
        self.last_forward_time_ticks = time_ticks;
        self.total_bytes_forwarded = wrapping_add_u64(self.total_bytes_forwarded,
            data.len() as u64);
        match self.best_path() {
            Some(p) => {
                let mut bufs: Vec<Vec<u8>> = Vec::new();
                bufs.push(data.clone());
                ci.wire_send(&p.endpoint, p.local_socket, p.local_interface, &bufs, 0)
            },
            None => false,
        }
    }

    /// Build a HELLO packet: cleartext with Poly1305 integrity, carrying the
    /// verb with the HMAC flag, the protocol versions, the big-endian
    /// revision and monotonic timestamp, the local identity, the chosen
    /// endpoint, the fresh 12-byte counter-mode IV with six reserved zero
    /// bytes, the dictionary encrypted in place under the HELLO sub-key, and
    /// an HMAC-SHA-384 trailer. Yields nothing exactly when the dictionary
    /// or the whole packet would not fit.
    /// Start the HELLO dictionary: the node instance id, the wall clock,
    /// and the marshaled locator when the node has one.
    #[verifier::rlimit(100)]
    fn hello_dict_base(node: &Node, time_clock_v: i64) -> (d: Dictionary)
        ensures
            d.wf(),
            dict_bytes_spec(d.entries@) == hello_dict_base_bytes_spec(*node, time_clock_v),
            d.spec_get(seq![0x65u8, 0x30u8]) is None,
            d.spec_get(seq![0x65u8, 0x31u8]) is None,
            d.spec_get(seq![0x61u8]) is None,
            d.spec_get(seq![0x62u8]) is None,
            d.spec_get(seq![0x6fu8]) is None,
            d.spec_get(seq![0x66u8]) is None,
    {
        let mut d = Dictionary::new();
        let ghost mut acc: Seq<u8> = Seq::<u8>::empty();
        proof {
            lemma_key_safe1(0x69);
            lemma_key_safe1(0x63);
            lemma_key_safe1(0x6c);
            lemma_hello_keys_distinct();
            assert(dict_bytes_spec(d.entries@) =~= acc);
        }
        let ghost pre0 = d.entries@;
        d.set_u64(&key1(0x69), node.instance_id);
        proof {
            assert(d.entries@.drop_last() =~= pre0);
            acc = acc + entry_bytes_spec(seq![0x69u8], hex_min_spec(node.instance_id as nat));
            assert(dict_bytes_spec(d.entries@) =~= acc);
        }
        let ghost pre1 = d.entries@;
        d.set_u64(&key1(0x63), i64_to_u64(time_clock_v));
        proof {
            assert(d.entries@.drop_last() =~= pre1);
            acc = acc + entry_bytes_spec(
                seq![0x63u8],
                hex_min_spec(i64_to_u64_spec(time_clock_v) as nat),
            );
            assert(dict_bytes_spec(d.entries@) =~= acc);
        }
        match &node.locator {
            Some(l) => {
                let ghost pre = d.entries@;
                d.set(&key1(0x6c), l.clone());
                proof {
                    assert(d.entries@.drop_last() =~= pre);
                    acc = acc + entry_bytes_spec(seq![0x6cu8], l@);
                    assert(dict_bytes_spec(d.entries@) =~= acc);
                }
            },
            None => {},
        }
        proof {
            assert(acc =~= hello_dict_base_bytes_spec(*node, time_clock_v));
        }
        d
    }

    /// Finish the HELLO dictionary: the offered ephemeral public keys when a
    /// pair is on offer, the system fields for a root, and the flags string.
    #[verifier::rlimit(100)]
    fn hello_dict_finish(&self, d: &mut Dictionary, node: &Node, is_root: bool)
        requires
            old(d).wf(),
            old(d).spec_get(seq![0x65u8, 0x30u8]) is None,
            old(d).spec_get(seq![0x65u8, 0x31u8]) is None,
            old(d).spec_get(seq![0x61u8]) is None,
            old(d).spec_get(seq![0x62u8]) is None,
            old(d).spec_get(seq![0x6fu8]) is None,
            old(d).spec_get(seq![0x66u8]) is None,
        ensures
            final(d).wf(),
            dict_bytes_spec(final(d).entries@) == dict_bytes_spec(old(d).entries@)
                + hello_dict_tail_bytes_spec(self.ephemeral_pair, *node, is_root),
    {
        let ghost mut acc: Seq<u8> = dict_bytes_spec(d.entries@);
        proof {
            lemma_key_safe2(0x65, 0x30);
            lemma_key_safe2(0x65, 0x31);
            lemma_key_safe1(0x61);
            lemma_key_safe1(0x62);
            lemma_key_safe1(0x6f);
            lemma_key_safe1(0x66);
            lemma_hello_keys_distinct();
        }
        match &self.ephemeral_pair {
            Some(ep) => {
                let ghost pre = d.entries@;
                d.set(&key2(0x65, 0x30), ep.c25519_public.clone());
                proof {
                    assert(d.entries@.drop_last() =~= pre);
                    acc = acc + entry_bytes_spec(seq![0x65u8, 0x30u8], ep.c25519_public@);
                    assert(dict_bytes_spec(d.entries@) =~= acc);
                }
                let ghost pre2 = d.entries@;
                d.set(&key2(0x65, 0x31), ep.p521_public.clone());
                proof {
                    assert(d.entries@.drop_last() =~= pre2);
                    acc = acc + entry_bytes_spec(seq![0x65u8, 0x31u8], ep.p521_public@);
                    assert(dict_bytes_spec(d.entries@) =~= acc);
                }
            },
            None => {},
        }
        if is_root {
            let ghost pre = d.entries@;
            d.set(&key1(0x61), node.sys_arch.clone());
            proof {
                assert(d.entries@.drop_last() =~= pre);
                acc = acc + entry_bytes_spec(seq![0x61u8], node.sys_arch@);
                assert(dict_bytes_spec(d.entries@) =~= acc);
            }
            let ghost pre2 = d.entries@;
            d.set_u64(&key1(0x62), node.sys_bits);
            proof {
                assert(d.entries@.drop_last() =~= pre2);
                acc = acc + entry_bytes_spec(seq![0x62u8], hex_min_spec(node.sys_bits as nat));
                assert(dict_bytes_spec(d.entries@) =~= acc);
            }
            let ghost pre3 = d.entries@;
            d.set(&key1(0x6f), node.os_name.clone());
            proof {
                assert(d.entries@.drop_last() =~= pre3);
                acc = acc + entry_bytes_spec(seq![0x6fu8], node.os_name@);
                assert(dict_bytes_spec(d.entries@) =~= acc);
            }
        }
        let mut flags: Vec<u8> = Vec::new();
        if node.fips_mode {
            flags.push(0x46);
        }
        if node.wimp {
            flags.push(0x77);
        }
        proof {
            assert(flags@ =~= flags_bytes_spec(node.fips_mode, node.wimp));
        }
        let ghost pre_f = d.entries@;
        let ghost flags_v = flags@;
        d.set(&key1(0x66), flags);
        proof {
            assert(d.entries@.drop_last() =~= pre_f);
            acc = acc + entry_bytes_spec(seq![0x66u8], flags_v);
            assert(dict_bytes_spec(d.entries@) =~= acc);
            assert(acc =~= dict_bytes_spec(old(d).entries@) + hello_dict_tail_bytes_spec(
                self.ephemeral_pair,
                *node,
                is_root,
            ));
        }
    }

    /// Build the HELLO dictionary; its canonical encoding is exactly
    /// `hello_dict_bytes_spec`.
    fn build_hello_dictionary(&self, node: &Node, time_clock_v: i64, is_root: bool) -> (d:
        Dictionary)
        ensures
            d.wf(),
            dict_bytes_spec(d.entries@) == hello_dict_bytes_spec(self.ephemeral_pair, *node,
                time_clock_v, is_root),
    {
        let mut d = Peer::hello_dict_base(node, time_clock_v);
        self.hello_dict_finish(&mut d, node, is_root);
        proof {
            assert(hello_dict_base_bytes_spec(*node, time_clock_v)
                + hello_dict_tail_bytes_spec(self.ephemeral_pair, *node, is_root)
                =~= hello_dict_bytes_spec(self.ephemeral_pair, *node, time_clock_v, is_root));
        }
        d
    }

    #[verifier::rlimit(100)]
    #[verifier::spinoff_prover]
    pub fn build_hello(
        &mut self,
        node: &Node,
        endpoint: &Endpoint,
        is_root: bool,
        time_ticks_v: i64,
        time_clock_v: i64,
        ctr_iv: &Vec<u8>,
    ) -> (r: Option<HelloPacket>)
        requires
            old(self).wf(),
            endpoint.wf(),
            ctr_iv@.len() == 12,
            old(self).packet_iv_counter < u64::MAX,
            old(self).identity.public@.len() <= 1024,
            (match node.locator {
                Some(l) => l@.len() <= 1024,
                None => true,
            }),
            (match old(self).ephemeral_pair {
                Some(ep) => ep.c25519_public@.len() <= 1024 && ep.p521_public@.len() <= 1024,
                None => true,
            }),
            node.sys_arch@.len() <= 64,
            node.os_name@.len() <= 64,
        ensures
            *final(self) == (Peer {
                packet_iv_counter: (old(self).packet_iv_counter + 1) as u64,
                ..*old(self)
            }),
            (r is Some) == ({
                let dl = hello_dict_bytes_spec(old(self).ephemeral_pair, *node, time_clock_v, is_root).len();
                dl <= 0x10_0000 && 66 + old(self).identity.public@.len()
                    + crate::inet::endpoint_bytes_spec(endpoint@).len() + dl + 48
                    <= PACKET_SIZE_MAX
            }),
            r matches Some(hp) ==> {
                &&& hp.iv_position + 18 == hp.dictionary_position
                &&& hp.dictionary_position + hp.dictionary_plaintext@.len() + 48
                    == hp.packet@.len()
                &&& hp.packet@.len() <= PACKET_SIZE_MAX
                &&& hp.packet@.len() >= 41
                &&& hp.packet@.subrange(0, 8) == be64_spec(old(self).packet_iv_counter)
                &&& hp.packet@.subrange(8, 13) == addr_bytes_spec(old(self).identity.address)
                &&& hp.packet@.subrange(13, 18) == addr_bytes_spec(node.address)
                &&& hp.packet@[18] == CIPHER_NOCRYPT_POLY1305
                &&& hp.packet@[27] == (VERB_VL1_HELLO | VERB_FLAG_HMAC)
                &&& hp.packet@[28] == VERSION_PROTO
                &&& hp.packet@[29] == VERSION_MAJOR
                &&& hp.packet@[30] == VERSION_MINOR
                &&& hp.packet@.subrange(31, 33) == crate::util::be16_spec(VERSION_REVISION)
                &&& hp.packet@.subrange(33, 41) == be64_spec(i64_to_u64_spec(time_ticks_v))
                &&& hp.packet@.subrange(hp.iv_position as int, hp.iv_position + 12) == ctr_iv@
                &&& hp.packet@.subrange(hp.iv_position + 12, hp.iv_position + 18) == zeros(6)
                &&& hp.dictionary_plaintext@ == hello_dict_bytes_spec(
                    old(self).ephemeral_pair, *node, time_clock_v, is_root)
                &&& hp.packet@.subrange(hp.dictionary_position as int, hp.packet@.len() - 48)
                    == xor_seq(
                    hp.dictionary_plaintext@,
                    ctr_ks_spec(old(self).static_secret_hello_dictionary_key@, ctr_iv@,
                        hp.dictionary_plaintext@.len()),
                )
                &&& hp.packet@.subrange(hp.packet@.len() - 48, hp.packet@.len() as int)
                    == hmac_sha384_of(
                    old(self).static_secret_packet_hmac@,
                    hp.packet@.subrange(28, hp.packet@.len() - 48),
                )
            },
    {
        let piv = self.next_packet_iv();
        let mut packet = be64(piv);
        let dest_b = addr_to_bytes(self.identity.address);
        let src_b = addr_to_bytes(node.address);
        append_bytes(&mut packet, &dest_b);
        append_bytes(&mut packet, &src_b);
        packet.push(CIPHER_NOCRYPT_POLY1305);
        let zmac = crate::util::filled_vec(0, 8);
        append_bytes(&mut packet, &zmac);
        packet.push(VERB_VL1_HELLO | VERB_FLAG_HMAC);
        packet.push(VERSION_PROTO);
        packet.push(VERSION_MAJOR);
        packet.push(VERSION_MINOR);
        let rev = be16(VERSION_REVISION);
        append_bytes(&mut packet, &rev);
        let tt = be64(i64_to_u64(time_ticks_v));
        append_bytes(&mut packet, &tt);
        proof {
            assert(packet@.len() == 41);
            assert(packet@.subrange(0, 8) =~= be64_spec(piv));
            assert(packet@.subrange(8, 13) =~= addr_bytes_spec(old(self).identity.address));
            assert(packet@.subrange(13, 18) =~= addr_bytes_spec(node.address));
            assert(packet@.subrange(31, 33) =~= crate::util::be16_spec(VERSION_REVISION));
            assert(packet@.subrange(33, 41) =~= be64_spec(i64_to_u64_spec(time_ticks_v)));
        }
        let ghost head41 = packet@;
        append_bytes(&mut packet, &dest_b);
        let pub_len = be16(self.identity.public.len() as u16);
        append_bytes(&mut packet, &pub_len);
        append_bytes(&mut packet, &self.identity.public);
        endpoint.marshal(&mut packet);
        let iv_position = packet.len();
        append_bytes(&mut packet, ctr_iv);
        let reserved = crate::util::filled_vec(0, 6);
        append_bytes(&mut packet, &reserved);
        let dictionary_position = packet.len();
        proof {
            assert(dictionary_position == 66 + old(self).identity.public@.len()
                + crate::inet::endpoint_bytes_spec(endpoint@).len());
        }
        let d = self.build_hello_dictionary(node, time_clock_v, is_root);
        proof {
            assert(self.ephemeral_pair == old(self).ephemeral_pair);
        }
        let dictionary_plaintext = d.to_bytes();
        if dictionary_plaintext.len() > 0x10_0000 {
            return None;
        }
        if packet.len() + dictionary_plaintext.len() + 48 > PACKET_SIZE_MAX {
            return None;
        }
        let ks = aes_ctr_keystream(
            &self.static_secret_hello_dictionary_key,
            ctr_iv,
            dictionary_plaintext.len(),
        );
        let enc = xor_bytes(&dictionary_plaintext, &ks);
        append_bytes(&mut packet, &enc);
        let body = sub_vec(&packet, 28, packet.len());
        let hm = hmac_sha384(&self.static_secret_packet_hmac, &body);
        append_bytes(&mut packet, &hm);
        let header = PacketHeader {
            id: be64(piv),
            dest: dest_b,
            src: src_b,
            flags_cipher_hops: CIPHER_NOCRYPT_POLY1305,
            mac: zmac,
        };
        proof {
            assert(header@.id =~= be64_spec(piv));
            assert(header@.mac =~= zeros(8));
        }
        let dk = crate::protocol::salsa_derive_per_packet_key(
            &self.static_secret.secret,
            &header,
            packet.len(),
        );
        let dk32 = sub_vec(&dk, 0, 32);
        proof {
            assert(dk32@ =~= salsa_key_spec(old(self).static_secret.secret@, header@,
                packet@.len() as nat).take(32));
        }
        let pk = salsa12_keystream(&dk32, &header.id, 32);
        let after_header = sub_vec(&packet, 27, packet.len());
        let tag = poly1305_tag(&pk, &after_header);
        let mac8 = sub_vec(&tag, 0, 8);
        let prefix = sub_vec(&packet, 0, 19);
        let suffix = sub_vec(&packet, 27, packet.len());
        let mut sealed = prefix;
        append_bytes(&mut sealed, &mac8);
        append_bytes(&mut sealed, &suffix);
        proof {
            assert(sealed@.len() == packet@.len());
            assert forall|j: int| 0 <= j < 19 implies sealed@[j] == packet@[j] by {
                assert(sealed@[j] == packet@.subrange(0, 19)[j]);
            }
            assert forall|j: int| 27 <= j < packet@.len() implies sealed@[j] == packet@[j] by {
                assert(sealed@[j] == packet@.subrange(27, packet@.len() as int)[j - 27]);
            }
            assert(packet@.take(41) =~= head41);
            assert(sealed@.subrange(0, 8) =~= head41.subrange(0, 8));
            assert(sealed@.subrange(8, 13) =~= head41.subrange(8, 13));
            assert(sealed@.subrange(13, 18) =~= head41.subrange(13, 18));
            assert(sealed@[18] == head41[18]);
            assert(sealed@[27] == packet@[27]);
            assert(packet@[27] == head41[27]);
            assert(packet@[28] == head41[28]);
            assert(packet@[29] == head41[29]);
            assert(packet@[30] == head41[30]);
            assert(sealed@.subrange(31, 33) =~= head41.subrange(31, 33));
            assert(sealed@.subrange(33, 41) =~= head41.subrange(33, 41));
            assert(head41.subrange(0, 8) =~= be64_spec(piv));
            assert(head41.subrange(8, 13) =~= addr_bytes_spec(old(self).identity.address));
            assert(head41.subrange(13, 18) =~= addr_bytes_spec(node.address));
            assert(head41.subrange(31, 33) =~= crate::util::be16_spec(VERSION_REVISION));
            assert(head41.subrange(33, 41) =~= be64_spec(i64_to_u64_spec(time_ticks_v)));
            assert(sealed@.subrange(iv_position as int, iv_position + 12) =~= packet@.subrange(
                iv_position as int, iv_position + 12));
            assert(sealed@.subrange(iv_position + 12, iv_position + 18) =~= packet@.subrange(
                iv_position + 12, iv_position + 18));
            assert(sealed@.subrange(dictionary_position as int, sealed@.len() - 48)
                =~= packet@.subrange(dictionary_position as int, packet@.len() - 48));
            assert(packet@.subrange(iv_position as int, iv_position + 12) =~= ctr_iv@);
            assert(packet@.subrange(iv_position + 12, iv_position + 18) =~= zeros(6));
            assert(packet@.subrange(dictionary_position as int, packet@.len() - 48) =~= enc@);
            assert(sealed@.subrange(sealed@.len() - 48, sealed@.len() as int) =~= hm@);
            assert(sealed@.subrange(28, sealed@.len() - 48) =~= body@);
            assert(sealed@.subrange(19, 27) =~= mac8@);
            assert(mac8@ =~= tag@.take(8));
            assert(sealed@.skip(27) =~= after_header@);
        }
        Some(HelloPacket {
            packet: sealed,
            iv_position,
            dictionary_position,
            dictionary_plaintext,
        })
    }

    /// Construct and transmit a HELLO to this peer, directly to the given
    /// endpoint when one is supplied, else over the best or root path. The
    /// packet-IV counter advances exactly when a HELLO was built; the send
    /// fails with the peer unchanged when no endpoint or path is known or
    /// the given endpoint is malformed, and fails after drawing the IV when
    /// the dictionary would not fit or the transport declines a datagram.
    pub fn send_hello<CI: VL1CallerInterface>(
        &mut self,
        ci: &mut CI,
        node: &Node,
        try_new_endpoint: Option<Endpoint>,
    ) -> (r: bool)
        requires
            old(self).wf(),
            old(self).packet_iv_counter < u64::MAX,
            old(self).identity.public@.len() <= 1024,
            (match node.locator {
                Some(l) => l@.len() <= 1024,
                None => true,
            }),
            (match old(self).ephemeral_pair {
                Some(ep) => ep.c25519_public@.len() <= 1024 && ep.p521_public@.len() <= 1024,
                None => true,
            }),
            node.sys_arch@.len() <= 64,
            node.os_name@.len() <= 64,
        ensures
            *final(self) == *old(self) || *final(self) == (Peer {
                packet_iv_counter: (old(self).packet_iv_counter + 1) as u64,
                ..*old(self)
            }),
            (try_new_endpoint is None && old(self).paths@.len() == 0 && node.root_path is None)
                ==> (r == false && *final(self) == *old(self)),
            (match try_new_endpoint {
                Some(e) => !e.wf(),
                None => false,
            }) ==> (r == false && *final(self) == *old(self)),
    {
        let is_root = node.is_root_address(self.identity.address);
        let tt = ci.time_ticks();
        let tc = ci.time_clock();
        let iv = random_bytes(12);
        let (endpoint, ls, li): (Endpoint, Option<i64>, Option<i64>) = match try_new_endpoint {
            Some(e) => {
                if !e.wf_exec() {
                    return false;
                }
                (e, None, None)
            },
            None => match self.best_path() {
                Some(p) => (p.endpoint.clone(), p.local_socket, p.local_interface),
                None => match &node.root_path {
                    Some(p) => (p.endpoint.clone(), p.local_socket, p.local_interface),
                    None => {
                        return false;
                    },
                },
            },
        };
        if !endpoint.wf_exec() {
            return false;
        }
        let hp = match self.build_hello(node, &endpoint, is_root, tt, tc, &iv) {
            Some(h) => h,
            None => {
                return false;
            },
        };
        if hp.packet.len() < 28 || hp.packet.len() > PACKET_SIZE_MAX {
            return false;
        }
        let idb = sub_vec(&hp.packet, 0, 8);
        let piv = u64_from_be(&idb);
        self.send_udp(ci, &endpoint, ls, li, piv, &hp.packet)
    }

    /// Called every INTERVAL by the external scheduler; housekeeping hooks.
    pub fn on_interval<CI: VL1CallerInterface>(&self, ci: &mut CI, time_ticks: i64) {
    }

    fn receive_hello<CI: VL1CallerInterface>(&self, ci: &mut CI, node: &Node, time_ticks: i64, source_path: &Path, payload: &Vec<u8>) {
    }

    fn receive_error<CI: VL1CallerInterface>(&self, ci: &mut CI, node: &Node, time_ticks: i64, source_path: &Path, payload: &Vec<u8>) {
    }

    fn receive_ok<CI: VL1CallerInterface>(&self, ci: &mut CI, node: &Node, time_ticks: i64, source_path: &Path, payload: &Vec<u8>) {
    }

    fn receive_whois<CI: VL1CallerInterface>(&self, ci: &mut CI, node: &Node, time_ticks: i64, source_path: &Path, payload: &Vec<u8>) {
    }

    fn receive_rendezvous<CI: VL1CallerInterface>(&self, ci: &mut CI, node: &Node, time_ticks: i64, source_path: &Path, payload: &Vec<u8>) {
    }

    fn receive_echo<CI: VL1CallerInterface>(&self, ci: &mut CI, node: &Node, time_ticks: i64, source_path: &Path, payload: &Vec<u8>) {
    }

    fn receive_push_direct_paths<CI: VL1CallerInterface>(&self, ci: &mut CI, node: &Node, time_ticks: i64, source_path: &Path, payload: &Vec<u8>) {
    }

    fn receive_user_message<CI: VL1CallerInterface>(&self, ci: &mut CI, node: &Node, time_ticks: i64, source_path: &Path, payload: &Vec<u8>) {
    }
}

/// The HELLO flags string: `F` when FIPS mode is on, `w` in low-power mode.
pub open spec fn flags_bytes_spec(fips: bool, wimp: bool) -> Seq<u8> {
    (if fips {
        seq![0x46u8]
    } else {
        Seq::<u8>::empty()
    }) + (if wimp {
        seq![0x77u8]
    } else {
        Seq::<u8>::empty()
    })
}

/// The first entries of the HELLO dictionary: instance id, wall clock, and
/// the locator when the node has one.
pub open spec fn hello_dict_base_bytes_spec(node: Node, time_clock_v: i64) -> Seq<u8> {
    entry_bytes_spec(seq![0x69u8], hex_min_spec(node.instance_id as nat))
        + entry_bytes_spec(
        seq![0x63u8],
        hex_min_spec(i64_to_u64_spec(time_clock_v) as nat),
    ) + (match node.locator {
        Some(l) => entry_bytes_spec(seq![0x6cu8], l@),
        None => Seq::<u8>::empty(),
    })
}

/// The trailing entries of the HELLO dictionary: the offered ephemeral
/// public keys, the root-only system fields, and the flags string.
pub open spec fn hello_dict_tail_bytes_spec(
    ep: Option<EphemeralKeyPair>,
    node: Node,
    is_root: bool,
) -> Seq<u8> {
    (match ep {
        Some(e) => entry_bytes_spec(seq![0x65u8, 0x30u8], e.c25519_public@) + entry_bytes_spec(
            seq![0x65u8, 0x31u8],
            e.p521_public@,
        ),
        None => Seq::<u8>::empty(),
    }) + (if is_root {
        entry_bytes_spec(seq![0x61u8], node.sys_arch@) + entry_bytes_spec(
            seq![0x62u8],
            hex_min_spec(node.sys_bits as nat),
        ) + entry_bytes_spec(seq![0x6fu8], node.os_name@)
    } else {
        Seq::<u8>::empty()
    }) + entry_bytes_spec(seq![0x66u8], flags_bytes_spec(node.fips_mode, node.wimp))
}

/// The canonical bytes of the HELLO dictionary: the node instance id and
/// wall clock, the locator when the node has one, the offered ephemeral
/// public keys when a pair is on offer, the system fields when the
/// destination is a root, and the flags string.
pub open spec fn hello_dict_bytes_spec(
    ep: Option<EphemeralKeyPair>,
    node: Node,
    time_clock_v: i64,
    is_root: bool,
) -> Seq<u8> {
    entry_bytes_spec(seq![0x69u8], hex_min_spec(node.instance_id as nat))
        + entry_bytes_spec(
        seq![0x63u8],
        hex_min_spec(i64_to_u64_spec(time_clock_v) as nat),
    ) + (match node.locator {
        Some(l) => entry_bytes_spec(seq![0x6cu8], l@),
        None => Seq::<u8>::empty(),
    }) + (match ep {
        Some(e) => entry_bytes_spec(seq![0x65u8, 0x30u8], e.c25519_public@)
            + entry_bytes_spec(seq![0x65u8, 0x31u8], e.p521_public@),
        None => Seq::<u8>::empty(),
    }) + (if is_root {
        entry_bytes_spec(seq![0x61u8], node.sys_arch@) + entry_bytes_spec(
            seq![0x62u8],
            hex_min_spec(node.sys_bits as nat),
        ) + entry_bytes_spec(seq![0x6fu8], node.os_name@)
    } else {
        Seq::<u8>::empty()
    }) + entry_bytes_spec(seq![0x66u8], flags_bytes_spec(node.fips_mode, node.wimp))
}

/// A built HELLO: the packet and where its IV and encrypted dictionary sit.
pub struct HelloPacket {
    pub packet: Vec<u8>,
    pub iv_position: usize,
    pub dictionary_position: usize,
    pub dictionary_plaintext: Vec<u8>,
}

/// The HELLO dictionary keys are pairwise distinct.
proof fn lemma_hello_keys_distinct()
    ensures
        seq![0x69u8] != seq![0x63u8],
        seq![0x69u8] != seq![0x6cu8],
        seq![0x69u8] != seq![0x61u8],
        seq![0x69u8] != seq![0x62u8],
        seq![0x69u8] != seq![0x6fu8],
        seq![0x69u8] != seq![0x66u8],
        seq![0x63u8] != seq![0x6cu8],
        seq![0x63u8] != seq![0x61u8],
        seq![0x63u8] != seq![0x62u8],
        seq![0x63u8] != seq![0x6fu8],
        seq![0x63u8] != seq![0x66u8],
        seq![0x6cu8] != seq![0x61u8],
        seq![0x6cu8] != seq![0x62u8],
        seq![0x6cu8] != seq![0x6fu8],
        seq![0x6cu8] != seq![0x66u8],
        seq![0x61u8] != seq![0x62u8],
        seq![0x61u8] != seq![0x6fu8],
        seq![0x61u8] != seq![0x66u8],
        seq![0x62u8] != seq![0x6fu8],
        seq![0x62u8] != seq![0x66u8],
        seq![0x6fu8] != seq![0x66u8],
        seq![0x65u8, 0x30u8] != seq![0x65u8, 0x31u8],
{
    lemma_one_byte_keys_neq(0x69, 0x63);
    lemma_one_byte_keys_neq(0x69, 0x6c);
    lemma_one_byte_keys_neq(0x69, 0x61);
    lemma_one_byte_keys_neq(0x69, 0x62);
    lemma_one_byte_keys_neq(0x69, 0x6f);
    lemma_one_byte_keys_neq(0x69, 0x66);
    lemma_one_byte_keys_neq(0x63, 0x6c);
    lemma_one_byte_keys_neq(0x63, 0x61);
    lemma_one_byte_keys_neq(0x63, 0x62);
    lemma_one_byte_keys_neq(0x63, 0x6f);
    lemma_one_byte_keys_neq(0x63, 0x66);
    lemma_one_byte_keys_neq(0x6c, 0x61);
    lemma_one_byte_keys_neq(0x6c, 0x62);
    lemma_one_byte_keys_neq(0x6c, 0x6f);
    lemma_one_byte_keys_neq(0x6c, 0x66);
    lemma_one_byte_keys_neq(0x61, 0x62);
    lemma_one_byte_keys_neq(0x61, 0x6f);
    lemma_one_byte_keys_neq(0x61, 0x66);
    lemma_one_byte_keys_neq(0x62, 0x6f);
    lemma_one_byte_keys_neq(0x62, 0x66);
    lemma_one_byte_keys_neq(0x6f, 0x66);
    if seq![0x65u8, 0x30u8] == seq![0x65u8, 0x31u8] {
        assert(seq![0x65u8, 0x30u8][1] == seq![0x65u8, 0x31u8][1]);
    }
}

proof fn lemma_one_byte_keys_neq(a: u8, b: u8)
    requires
        a != b,
    ensures
        seq![a] != seq![b],
{
    if seq![a] == seq![b] {
        assert(seq![a][0] == seq![b][0]);
    }
}

/// Unmasking the HELLO dictionary region with the same counter-mode
/// keystream that encrypted it restores the canonical dictionary bytes the
/// sender produced.
pub proof fn lemma_hello_dictionary_decrypts(region: Seq<u8>, dict_bytes: Seq<u8>, ks: Seq<u8>)
    requires
        region == xor_seq(dict_bytes, ks),
    ensures
        xor_seq(region, ks) == dict_bytes,
{
    assert forall|i: int| 0 <= i < dict_bytes.len() implies xor_seq(region, ks)[i]
        == dict_bytes[i] by {
        let x = dict_bytes[i];
        let y = ks[i];
        assert(((x ^ y) ^ y) == x) by (bit_vector);
    }
    assert(xor_seq(region, ks) =~= dict_bytes);
}

/// Packet IVs drawn from a strictly increasing counter are pairwise
/// distinct: no two packets of one peer share an identifier.
pub proof fn lemma_packet_ivs_distinct(ids: Seq<u64>, i: int, j: int)
    requires
        forall|k: int| 0 <= k < ids.len() - 1 ==> #[trigger] ids[k] < ids[k + 1],
        0 <= i < ids.len(),
        0 <= j < ids.len(),
        i != j,
    ensures
        ids[i] != ids[j],
{
    if i < j {
        lemma_inc_lt(ids, i, j);
    } else {
        lemma_inc_lt(ids, j, i);
    }
}

proof fn lemma_inc_lt(ids: Seq<u64>, i: int, j: int)
    requires
        forall|k: int| 0 <= k < ids.len() - 1 ==> #[trigger] ids[k] < ids[k + 1],
        0 <= i < j < ids.len(),
    ensures
        ids[i] < ids[j],
    decreases j - i,
{
    if j == i + 1 {
    } else {
        lemma_inc_lt(ids, i, j - 1);
    }
}

} // verus!
