use vstd::prelude::*;

use crate::util::{append_bytes, sub_vec};
use crate::PACKET_SIZE_MAX;

verus! {

// ---------------------------------------------------------------------------
// On-wire packet and fragment framing, and the per-packet Salsa key
// derivation that binds header and length into the cipher key.
// ---------------------------------------------------------------------------

pub type PacketID = u64;

pub const PACKET_HEADER_SIZE: usize = 27;

pub const PACKET_VERB_INDEX: usize = 27;

pub const HEADER_FLAGS_FIELD_INDEX: usize = 18;

pub const HEADER_MAC_FIELD_INDEX: usize = 19;

pub const HEADER_FLAGS_FIELD_MASK_CIPHER: u8 = 0x38;

pub const HEADER_FLAGS_FIELD_MASK_HOPS: u8 = 0x07;

pub const HEADER_FLAGS_FIELD_MASK_HIDE_HOPS: u8 = 0xf8;

pub const CIPHER_NOCRYPT_POLY1305: u8 = 0x00;

pub const CIPHER_SALSA2012_POLY1305: u8 = 0x08;

pub const CIPHER_AES_GMAC_SIV: u8 = 0x18;

pub const FRAGMENT_HEADER_SIZE: usize = 16;

pub const FRAGMENT_INDICATOR: u8 = 0xff;

pub const FRAGMENT_COUNT_MAX: usize = 15;

pub const UDP_DEFAULT_MTU: usize = 1400;

pub const VERB_MASK: u8 = 0x1f;

pub const VERB_FLAG_HMAC: u8 = 0x40;

pub const VERB_VL1_NOP: u8 = 0;

pub const VERB_VL1_HELLO: u8 = 1;

pub const VERB_VL1_ERROR: u8 = 2;

pub const VERB_VL1_OK: u8 = 3;

pub const VERB_VL1_WHOIS: u8 = 4;

pub const VERB_VL1_RENDEZVOUS: u8 = 5;

pub const VERB_VL1_ECHO: u8 = 8;

pub const VERB_VL1_PUSH_DIRECT_PATHS: u8 = 16;

pub const VERB_VL1_USER_MESSAGE: u8 = 20;

pub const VERSION_PROTO: u8 = 20;

pub const VERSION_MAJOR: u8 = 1;

pub const VERSION_MINOR: u8 = 90;

pub const VERSION_REVISION: u16 = 1;

pub const PEER_SERVICE_INTERVAL: i64 = 30000;

#[verifier::ext_equal]
pub ghost struct PacketHeaderV {
    pub id: Seq<u8>,
    pub dest: Seq<u8>,
    pub src: Seq<u8>,
    pub flags_cipher_hops: u8,
    pub mac: Seq<u8>,
}

/// The fixed packet header: an 8-byte packet identifier, 5-byte destination
/// and source addresses, a flags/cipher/hops byte, and the 8-byte message
/// authentication field.
#[derive(Clone, PartialEq, Eq, Debug)]
pub struct PacketHeader {
    pub id: Vec<u8>,
    pub dest: Vec<u8>,
    pub src: Vec<u8>,
    pub flags_cipher_hops: u8,
    pub mac: Vec<u8>,
}

impl View for PacketHeader {
    type V = PacketHeaderV;

    open spec fn view(&self) -> PacketHeaderV {
        PacketHeaderV {
            id: self.id@,
            dest: self.dest@,
            src: self.src@,
            flags_cipher_hops: self.flags_cipher_hops,
            mac: self.mac@,
        }
    }
}

pub open spec fn header_wf(h: PacketHeaderV) -> bool {
    h.id.len() == 8 && h.dest.len() == 5 && h.src.len() == 5 && h.mac.len() == 8
}

/// The 27 header bytes in wire order.
pub open spec fn header_bytes_spec(h: PacketHeaderV) -> Seq<u8> {
    h.id + h.dest + h.src + seq![h.flags_cipher_hops] + h.mac
}

/// The bytes the AEAD authenticates besides the payload: destination,
/// source, and the flags byte with the mutable hop bits masked out.
pub open spec fn header_aad_spec(h: PacketHeaderV) -> Seq<u8> {
    h.dest + h.src + seq![(h.flags_cipher_hops & HEADER_FLAGS_FIELD_MASK_HIDE_HOPS) as u8]
}

impl PacketHeader {
    pub open spec fn wf(self) -> bool {
        header_wf(self@)
    }

    /// The cipher selector bits of the flags byte.
    pub fn cipher(&self) -> (r: u8)
        ensures
            r == (self.flags_cipher_hops & HEADER_FLAGS_FIELD_MASK_CIPHER),
    {
        self.flags_cipher_hops & HEADER_FLAGS_FIELD_MASK_CIPHER
    }

    /// The header bytes in wire order.
    pub fn as_bytes(&self) -> (r: Vec<u8>)
        requires
            self.wf(),
        ensures
            r@ == header_bytes_spec(self@),
            r@.len() == 27,
    {
        let mut out = self.id.clone();
        append_bytes(&mut out, &self.dest);
        append_bytes(&mut out, &self.src);
        out.push(self.flags_cipher_hops);
        append_bytes(&mut out, &self.mac);
        proof {
            assert(out@ =~= header_bytes_spec(self@));
        }
        out
    }

    /// The additional authenticated bytes for AES-GMAC-SIV.
    pub fn aad_bytes(&self) -> (r: Vec<u8>)
        requires
            self.wf(),
        ensures
            r@ == header_aad_spec(self@),
            r@.len() == 11,
    {
        let mut out = self.dest.clone();
        append_bytes(&mut out, &self.src);
        out.push(self.flags_cipher_hops & HEADER_FLAGS_FIELD_MASK_HIDE_HOPS);
        proof {
            assert(out@ =~= header_aad_spec(self@));
        }
        out
    }

    /// The 16-byte SIV tag carried split across the id and mac fields.
    pub fn aes_gmac_siv_tag(&self) -> (r: Vec<u8>)
        requires
            self.wf(),
        ensures
            r@ == self@.id + self@.mac,
            r@.len() == 16,
    {
        let mut out = self.id.clone();
        append_bytes(&mut out, &self.mac);
        out
    }

    /// Read a header from the first 27 bytes of a packet.
    pub fn from_bytes(b: &Vec<u8>) -> (r: Option<PacketHeader>)
        ensures
            match r {
                Some(h) => {
                    &&& h.wf()
                    &&& b@.len() >= 27
                    &&& h@.id == b@.subrange(0, 8)
                    &&& h@.dest == b@.subrange(8, 13)
                    &&& h@.src == b@.subrange(13, 18)
                    &&& h@.flags_cipher_hops == b@[18]
                    &&& h@.mac == b@.subrange(19, 27)
                    &&& header_bytes_spec(h@) == b@.take(27)
                },
                None => b@.len() < 27,
            },
    {
        if b.len() < 27 {
            return None;
        }
        let h = PacketHeader {
            id: sub_vec(b, 0, 8),
            dest: sub_vec(b, 8, 13),
            src: sub_vec(b, 13, 18),
            flags_cipher_hops: b[18],
            mac: sub_vec(b, 19, 27),
        };
        proof {
            assert(header_bytes_spec(h@) =~= b@.take(27));
        }
        Some(h)
    }
}

/// The fragment header: the packet identifier, the destination, the
/// fragment indicator byte, a total-count/fragment-number nibble pair, and a
/// reserved hops byte.
#[derive(Clone, PartialEq, Eq, Debug)]
pub struct FragmentHeader {
    pub id: Vec<u8>,
    pub dest: Vec<u8>,
    pub fragment_indicator: u8,
    pub total_and_fragment_no: u8,
    pub reserved_hops: u8,
}

pub open spec fn fragment_header_bytes_spec(
    id: Seq<u8>,
    dest: Seq<u8>,
    total_and_fragment_no: u8,
) -> Seq<u8> {
    id + dest + seq![FRAGMENT_INDICATOR, total_and_fragment_no, 0u8]
}

impl FragmentHeader {
    pub open spec fn wf(self) -> bool {
        self.id@.len() == 8 && self.dest@.len() == 5
    }

    /// The 16 fragment header bytes in wire order.
    pub fn as_bytes(&self) -> (r: Vec<u8>)
        requires
            self.wf(),
            self.fragment_indicator == FRAGMENT_INDICATOR,
            self.reserved_hops == 0,
        ensures
            r@ == fragment_header_bytes_spec(self.id@, self.dest@, self.total_and_fragment_no),
            r@.len() == 16,
    {
        let mut out = self.id.clone();
        append_bytes(&mut out, &self.dest);
        out.push(self.fragment_indicator);
        out.push(self.total_and_fragment_no);
        out.push(self.reserved_hops);
        proof {
            assert(out@ =~= fragment_header_bytes_spec(
                self.id@,
                self.dest@,
                self.total_and_fragment_no,
            ));
        }
        out
    }
}

/// The per-packet Salsa20/12 key: the session secret with the first 18
/// header bytes XORed in, the masked flags byte XORed into byte 18, and the
/// packet size XORed into bytes 19 and 20. A wrong header or length gives a
/// wrong key, so the authenticator fails.
pub open spec fn salsa_key_spec(key: Seq<u8>, h: PacketHeaderV, size: nat) -> Seq<u8> {
    let hb = h.id + h.dest + h.src;
    Seq::new(
        key.len(),
        |i: int|
            if i < 18 {
                key[i] ^ hb[i]
            } else if i == 18 {
                key[18] ^ (h.flags_cipher_hops & HEADER_FLAGS_FIELD_MASK_HIDE_HOPS)
            } else if i == 19 {
                key[19] ^ (((size / 256) % 256) as u8)
            } else if i == 20 {
                key[20] ^ ((size % 256) as u8)
            } else {
                key[i]
            },
    )
}

/// Derive the per-packet key for Salsa20/12 encryption and Poly1305
/// authentication from the session secret, the header, and the packet size.
pub fn salsa_derive_per_packet_key(key: &Vec<u8>, header: &PacketHeader, packet_size: usize) -> (r:
    Vec<u8>)
    requires
        key@.len() == 48,
        header.wf(),
    ensures
        r@ == salsa_key_spec(key@, header@, packet_size as nat),
        r@.len() == 48,
{
    let mut hb = header.id.clone();
    append_bytes(&mut hb, &header.dest);
    append_bytes(&mut hb, &header.src);
    proof {
        assert(hb@ =~= header@.id + header@.dest + header@.src);
    }
    let mut r: Vec<u8> = Vec::new();
    let mut i: usize = 0;
    while i < key.len()
        invariant
            i <= key@.len() == 48,
            hb@ == header@.id + header@.dest + header@.src,
            hb@.len() == 18,
            r@.len() == i,
            forall|j: int|
                0 <= j < i ==> r@[j] == salsa_key_spec(key@, header@, packet_size as nat)[j],
        decreases key@.len() - i,
    {
        let b = key[i];
        let x: u8 = if i < 18 {
            b ^ hb[i]
        } else if i == 18 {
            b ^ (header.flags_cipher_hops & HEADER_FLAGS_FIELD_MASK_HIDE_HOPS)
        } else if i == 19 {
            b ^ (((packet_size / 256) % 256) as u8)
        } else if i == 20 {
            b ^ ((packet_size % 256) as u8)
        } else {
            b
        };
        r.push(x);
        i = i + 1;
    }
    proof {
        assert(r@ =~= salsa_key_spec(key@, header@, packet_size as nat));
    }
    r
}


// ---------------------------------------------------------------------------
// The datagram plan: how one packet goes on the wire at the default MTU.
// A packet within the MTU is one datagram. A larger one is its first MTU
// bytes followed by fragments, each a 16-byte fragment header and the next
// chunk of at most MTU - 16 payload bytes.
// ---------------------------------------------------------------------------

/// How many datagrams a packet of `len` bytes occupies: one, or the head
/// plus the ceiling of the remainder over the per-fragment capacity.
pub open spec fn datagram_count_spec(len: int) -> int {
    if len <= UDP_DEFAULT_MTU {
        1
    } else {
        1 + ((len - UDP_DEFAULT_MTU) + (UDP_DEFAULT_MTU - FRAGMENT_HEADER_SIZE) - 1) / ((
        UDP_DEFAULT_MTU - FRAGMENT_HEADER_SIZE) as int)
    }
}

/// Where the chunk of trailing fragment `i` (counted from 1) starts.
pub open spec fn chunk_start_spec(i: int) -> int {
    UDP_DEFAULT_MTU + (i - 1) * ((UDP_DEFAULT_MTU - FRAGMENT_HEADER_SIZE) as int)
}

/// Where the chunk of trailing fragment `i` ends.
pub open spec fn chunk_end_spec(len: int, i: int) -> int {
    if chunk_start_spec(i) + ((UDP_DEFAULT_MTU - FRAGMENT_HEADER_SIZE) as int) <= len {
        chunk_start_spec(i) + ((UDP_DEFAULT_MTU - FRAGMENT_HEADER_SIZE) as int)
    } else {
        len
    }
}

/// The exact bytes of datagram `i` of a packet: the head, or a fragment
/// header (total count in the high nibble, fragment number in the low one)
/// followed by the chunk.
pub open spec fn datagram_spec(packet_id: u64, data: Seq<u8>, i: int) -> Seq<u8> {
    if i == 0 {
        if data.len() <= UDP_DEFAULT_MTU {
            data
        } else {
            data.take(UDP_DEFAULT_MTU as int)
        }
    } else {
        crate::util::be64_spec(packet_id).add(data.subrange(8, 13)).add(
            seq![
                FRAGMENT_INDICATOR,
                ((datagram_count_spec(data.len() as int) * 16) + i) as u8,
                0u8,
            ],
        ) + data.subrange(chunk_start_spec(i), chunk_end_spec(data.len() as int, i))
    }
}

/// The payload bytes datagram `i` carries: the head bytes, or its chunk.
pub open spec fn datagram_payload_spec(data: Seq<u8>, i: int) -> Seq<u8> {
    if i == 0 {
        if data.len() <= UDP_DEFAULT_MTU {
            data
        } else {
            data.take(UDP_DEFAULT_MTU as int)
        }
    } else {
        data.subrange(chunk_start_spec(i), chunk_end_spec(data.len() as int, i))
    }
}

/// The payloads of datagrams `i..n`, concatenated in order.
pub open spec fn payloads_concat_spec(data: Seq<u8>, i: int, n: int) -> Seq<u8>
    decreases n - i,
    when i <= n
{
    if i >= n {
        Seq::<u8>::empty()
    } else {
        datagram_payload_spec(data, i) + payloads_concat_spec(data, i + 1, n)
    }
}

/// Ceiling-division bounds for the trailing-fragment count.
proof fn lemma_trailing_count_bounds(rem: int)
    requires
        1 <= rem <= PACKET_SIZE_MAX - UDP_DEFAULT_MTU,
    ensures
        ({
            let cap = (UDP_DEFAULT_MTU - FRAGMENT_HEADER_SIZE) as int;
            let n = (rem + cap - 1) / cap;
            &&& (n - 1) * cap < rem <= n * cap
            &&& 1 <= n <= 11
        }),
{
    let cap = (UDP_DEFAULT_MTU - FRAGMENT_HEADER_SIZE) as int;
    let x = rem + cap - 1;
    vstd::arithmetic::div_mod::lemma_fundamental_div_mod(x, cap);
    vstd::arithmetic::div_mod::lemma_mod_bound(x, cap);
    let n = x / cap;
    let m = x % cap;
    assert(x == cap * n + m);
    assert(0 <= m < cap);
    assert((n - 1) * cap < rem) by (nonlinear_arith)
        requires
            x == cap * n + m,
            0 <= m < cap,
            x == rem + cap - 1,
    ;
    assert(rem <= n * cap) by (nonlinear_arith)
        requires
            x == cap * n + m,
            0 <= m < cap,
            x == rem + cap - 1,
    ;
    assert(1 <= n) by (nonlinear_arith)
        requires
            x == cap * n + m,
            0 <= m < cap,
            x >= cap,
            cap > 0,
    ;
    assert(n <= 11) by (nonlinear_arith)
        requires
            (n - 1) * cap < rem,
            rem <= 14984,
            cap == 1384,
    ;
}

/// The head bytes plus the fragment chunks, in order, are exactly the
/// packet: fragmentation loses and reorders nothing.
pub proof fn lemma_datagram_payloads_cover(data: Seq<u8>)
    requires
        28 <= data.len() <= PACKET_SIZE_MAX,
    ensures
        payloads_concat_spec(data, 0, datagram_count_spec(data.len() as int)) == data,
{
    let len = data.len() as int;
    let cnt = datagram_count_spec(len);
    if len <= UDP_DEFAULT_MTU {
        assert(payloads_concat_spec(data, 1, 1) =~= Seq::<u8>::empty());
        assert(payloads_concat_spec(data, 0, 1) =~= data);
    } else {
        let cap = (UDP_DEFAULT_MTU - FRAGMENT_HEADER_SIZE) as int;
        let rem = len - UDP_DEFAULT_MTU;
        lemma_trailing_count_bounds(rem);
        let n = cnt - 1;
        assert(n == (rem + cap - 1) / cap);
        lemma_chunks_cover_from(data, 1);
        assert(chunk_start_spec(1) == UDP_DEFAULT_MTU);
        assert(payloads_concat_spec(data, 1, cnt) == data.subrange(
            UDP_DEFAULT_MTU as int,
            len,
        ));
        assert(data.take(UDP_DEFAULT_MTU as int) + data.subrange(UDP_DEFAULT_MTU as int, len)
            =~= data);
        assert(payloads_concat_spec(data, 0, cnt) == datagram_payload_spec(data, 0)
            + payloads_concat_spec(data, 1, cnt));
    }
}

/// The chunks of trailing fragments `i..` concatenate to the packet's tail
/// from the start of chunk `i`.
proof fn lemma_chunks_cover_from(data: Seq<u8>, i: int)
    requires
        UDP_DEFAULT_MTU < data.len() <= PACKET_SIZE_MAX,
        1 <= i <= datagram_count_spec(data.len() as int) - 1,
    ensures
        payloads_concat_spec(data, i, datagram_count_spec(data.len() as int)) == data.subrange(
            chunk_start_spec(i),
            data.len() as int,
        ),
    decreases datagram_count_spec(data.len() as int) - i,
{
    let len = data.len() as int;
    let cap = (UDP_DEFAULT_MTU - FRAGMENT_HEADER_SIZE) as int;
    let rem = len - UDP_DEFAULT_MTU;
    lemma_trailing_count_bounds(rem);
    let cnt = datagram_count_spec(len);
    let n = cnt - 1;
    assert((n - 1) * cap < rem <= n * cap);
    if i == n {
        assert(chunk_end_spec(len, i) == len) by {
            assert(chunk_start_spec(n) + cap == UDP_DEFAULT_MTU + n * cap) by {
                assert((n - 1) * cap + cap == n * cap) by (nonlinear_arith);
            }
        }
        assert(payloads_concat_spec(data, i + 1, cnt) =~= Seq::<u8>::empty());
        assert(payloads_concat_spec(data, i, cnt) =~= data.subrange(chunk_start_spec(i), len));
    } else {
        assert(i * cap <= (n - 1) * cap) by (nonlinear_arith)
            requires
                i <= n - 1,
                cap > 0,
        ;
        assert((i - 1) * cap + cap == i * cap) by (nonlinear_arith);
        assert(chunk_start_spec(i) + cap == UDP_DEFAULT_MTU + i * cap);
        assert(chunk_start_spec(i) + cap < len);
        assert(chunk_start_spec(i + 1) == UDP_DEFAULT_MTU + i * cap);
        assert(chunk_end_spec(len, i) == chunk_start_spec(i + 1));
        lemma_chunks_cover_from(data, i + 1);
        assert(data.subrange(chunk_start_spec(i), chunk_start_spec(i + 1)) + data.subrange(
            chunk_start_spec(i + 1),
            len,
        ) =~= data.subrange(chunk_start_spec(i), len));
    }
}

/// Compute the datagrams for one packet: the head, then each fragment as a
/// 16-byte header plus its chunk, numbered 1 upward with the total count
/// (head included) in the high nibble.
pub fn fragment_packet(packet_id: u64, data: &Vec<u8>) -> (r: Vec<Vec<u8>>)
    requires
        28 <= data@.len() <= PACKET_SIZE_MAX,
    ensures
        r@.len() == datagram_count_spec(data@.len() as int),
        forall|i: int|
            0 <= i < r@.len() ==> (#[trigger] r@[i])@ == datagram_spec(packet_id, data@, i),
        1 <= r@.len() <= 12,
{
    let len = data.len();
    let mut out: Vec<Vec<u8>> = Vec::new();
    if len <= UDP_DEFAULT_MTU {
        out.push(data.clone());
        return out;
    }
    let cap = UDP_DEFAULT_MTU - FRAGMENT_HEADER_SIZE;
    let rem = len - UDP_DEFAULT_MTU;
    let n_trail = (rem + cap - 1) / cap;
    proof {
        lemma_trailing_count_bounds(rem as int);
        assert(datagram_count_spec(len as int) == 1 + n_trail);
    }
    let head = sub_vec(data, 0, UDP_DEFAULT_MTU);
    proof {
        assert(head@ =~= datagram_spec(packet_id, data@, 0));
    }
    out.push(head);
    let id_bytes = crate::util::be64(packet_id);
    let dest = sub_vec(data, 8, 13);
    let mut i: usize = 1;
    while i <= n_trail
        invariant
            1 <= i <= n_trail + 1,
            1 <= n_trail <= 11,
            cap == UDP_DEFAULT_MTU - FRAGMENT_HEADER_SIZE,
            rem == data@.len() - UDP_DEFAULT_MTU,
            len == data@.len(),
            UDP_DEFAULT_MTU < data@.len() <= PACKET_SIZE_MAX,
            (n_trail - 1) * (cap as int) < rem as int <= n_trail * (cap as int),
            datagram_count_spec(data@.len() as int) == 1 + n_trail,
            id_bytes@ == crate::util::be64_spec(packet_id),
            dest@ == data@.subrange(8, 13),
            dest@.len() == 5,
            out@.len() == i,
            forall|j: int|
                0 <= j < i ==> (#[trigger] out@[j])@ == datagram_spec(packet_id, data@, j),
        decreases n_trail + 1 - i,
    {
        proof {
            assert((i - 1) * (cap as int) <= (n_trail - 1) * (cap as int)) by (nonlinear_arith)
                requires
                    i <= n_trail,
                    cap > 0,
            ;
        }
        let start = UDP_DEFAULT_MTU + (i - 1) * cap;
        let end = if len - start > cap {
            start + cap
        } else {
            len
        };
        proof {
            assert(start as int == chunk_start_spec(i as int));
            assert(end as int == chunk_end_spec(len as int, i as int));
        }
        let nib: u8 = (((n_trail + 1) * 16) + i) as u8;
        let fh = FragmentHeader {
            id: id_bytes.clone(),
            dest: dest.clone(),
            fragment_indicator: FRAGMENT_INDICATOR,
            total_and_fragment_no: nib,
            reserved_hops: 0,
        };
        let mut dg = fh.as_bytes();
        let chunk = sub_vec(data, start, end);
        crate::util::append_bytes(&mut dg, &chunk);
        proof {
            assert(dg@ =~= datagram_spec(packet_id, data@, i as int));
        }
        out.push(dg);
        i = i + 1;
    }
    out
}

} // verus!
