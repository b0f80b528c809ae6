use vstd::prelude::*;

use crate::util::{append_bytes, be16, be16_spec, sub_vec, u16_from_be, u16_from_be_spec,
    lemma_be16_roundtrip};

verus! {

// ---------------------------------------------------------------------------
// InetAddress: an IP/UDP transport endpoint address, and its fixed wire form
// (a type byte, the address octets, and a big-endian port).
// ---------------------------------------------------------------------------

pub ghost enum InetAddressV {
    Nil,
    Ipv4 { octets: Seq<u8>, port: u16 },
    Ipv6 { octets: Seq<u8>, port: u16 },
}

#[derive(Clone, PartialEq, Eq, Debug, Hash)]
pub enum InetAddress {
    Nil,
    Ipv4 { octets: Vec<u8>, port: u16 },
    Ipv6 { octets: Vec<u8>, port: u16 },
}

impl View for InetAddress {
    type V = InetAddressV;

    open spec fn view(&self) -> InetAddressV {
        match self {
            InetAddress::Nil => InetAddressV::Nil,
            InetAddress::Ipv4 { octets, port } => InetAddressV::Ipv4 {
                octets: octets@,
                port: *port,
            },
            InetAddress::Ipv6 { octets, port } => InetAddressV::Ipv6 {
                octets: octets@,
                port: *port,
            },
        }
    }
}

pub open spec fn inet_wf(a: InetAddressV) -> bool {
    match a {
        InetAddressV::Nil => true,
        InetAddressV::Ipv4 { octets, .. } => octets.len() == 4,
        InetAddressV::Ipv6 { octets, .. } => octets.len() == 16,
    }
}

impl InetAddress {
    pub open spec fn wf(self) -> bool {
        inet_wf(self@)
    }

    pub fn is_nil(&self) -> (r: bool)
        ensures
            r == (self@ is Nil),
    {
        match self {
            InetAddress::Nil => true,
            _ => false,
        }
    }

    /// Append the wire form of this address.
    pub fn marshal(&self, out: &mut Vec<u8>)
        requires
            self.wf(),
        ensures
            final(out)@ == old(out)@ + inet_bytes_spec(self@),
    {
        match self {
            InetAddress::Nil => {
                out.push(0);
                proof {
                    assert(final(out)@ =~= old(out)@ + inet_bytes_spec(self@));
                }
            },
            InetAddress::Ipv4 { octets, port } => {
                out.push(4);
                append_bytes(out, octets);
                let p = be16(*port);
                append_bytes(out, &p);
                proof {
                    assert(final(out)@ =~= old(out)@ + inet_bytes_spec(self@));
                }
            },
            InetAddress::Ipv6 { octets, port } => {
                out.push(6);
                append_bytes(out, octets);
                let p = be16(*port);
                append_bytes(out, &p);
                proof {
                    assert(final(out)@ =~= old(out)@ + inet_bytes_spec(self@));
                }
            },
        }
    }

    /// Read one address from the wire, advancing the cursor.
    pub fn unmarshal(buf: &Vec<u8>, cursor: &mut usize) -> (r: Option<InetAddress>)
        requires
            *old(cursor) <= buf@.len(),
        ensures
            match r {
                Some(a) => {
                    &&& a.wf()
                    &&& inet_unmarshal_spec(buf@, *old(cursor) as int)
                        == Some((a@, *final(cursor) as int))
                    &&& *old(cursor) < *final(cursor) <= buf@.len()
                },
                None => {
                    &&& inet_unmarshal_spec(buf@, *old(cursor) as int) is None
                    &&& *final(cursor) == *old(cursor)
                },
            },
    {
        let pos = *cursor;
        if pos >= buf.len() {
            return None;
        }
        let t = buf[pos];
        if t == 0 {
            *cursor = pos + 1;
            Some(InetAddress::Nil)
        } else if t == 4 {
            if buf.len() - pos < 7 {
                return None;
            }
            let octets = sub_vec(buf, pos + 1, pos + 5);
            let port = u16_from_be(buf[pos + 5], buf[pos + 6]);
            *cursor = pos + 7;
            Some(InetAddress::Ipv4 { octets, port })
        } else if t == 6 {
            if buf.len() - pos < 19 {
                return None;
            }
            let octets = sub_vec(buf, pos + 1, pos + 17);
            let port = u16_from_be(buf[pos + 17], buf[pos + 18]);
            *cursor = pos + 19;
            Some(InetAddress::Ipv6 { octets, port })
        } else {
            None
        }
    }
}

/// The wire form of one address.
pub open spec fn inet_bytes_spec(a: InetAddressV) -> Seq<u8> {
    match a {
        InetAddressV::Nil => seq![0u8],
        InetAddressV::Ipv4 { octets, port } => seq![4u8] + octets + be16_spec(port),
        InetAddressV::Ipv6 { octets, port } => seq![6u8] + octets + be16_spec(port),
    }
}

/// Reading one address at `pos`: the address and the cursor after it.
pub open spec fn inet_unmarshal_spec(b: Seq<u8>, pos: int) -> Option<(InetAddressV, int)> {
    if pos < 0 || pos >= b.len() {
        None
    } else if b[pos] == 0 {
        Some((InetAddressV::Nil, pos + 1))
    } else if b[pos] == 4 {
        if pos + 7 > b.len() {
            None
        } else {
            Some((
                InetAddressV::Ipv4 { octets: b.subrange(pos + 1, pos + 5), port: u16_from_be_spec(
                    b[pos + 5],
                    b[pos + 6],
                ) },
                pos + 7,
            ))
        }
    } else if b[pos] == 6 {
        if pos + 19 > b.len() {
            None
        } else {
            Some((
                InetAddressV::Ipv6 { octets: b.subrange(pos + 1, pos + 17), port: u16_from_be_spec(
                    b[pos + 17],
                    b[pos + 18],
                ) },
                pos + 19,
            ))
        }
    } else {
        None
    }
}

/// An address written at `pos` reads back as itself, whatever follows it.
pub proof fn lemma_inet_roundtrip(a: InetAddressV, b: Seq<u8>, pos: int)
    requires
        inet_wf(a),
        0 <= pos,
        pos + inet_bytes_spec(a).len() <= b.len(),
        b.subrange(pos, pos + inet_bytes_spec(a).len() as int) == inet_bytes_spec(a),
    ensures
        inet_unmarshal_spec(b, pos) == Some((a, pos + inet_bytes_spec(a).len() as int)),
{
    let e = inet_bytes_spec(a);
    let sub = b.subrange(pos, pos + e.len() as int);
    assert forall|i: int| 0 <= i < e.len() implies b[pos + i] == e[i] by {
        assert(sub[i] == b[pos + i]);
        assert(sub[i] == e[i]);
    }
    match a {
        InetAddressV::Nil => {
            assert(e[0] == 0);
            assert(b[pos + 0] == e[0]);
            assert(b[pos] == 0);
        },
        InetAddressV::Ipv4 { octets, port } => {
            assert(e[0] == 4);
            assert(b[pos + 0] == e[0]);
            assert(b[pos] == 4);
            assert(e.len() == 7);
            assert forall|i: int| 0 <= i < 4 implies b[pos + 1 + i] == octets[i] by {
                assert(e[1 + i] == octets[i]);
                assert(b[pos + (1 + i)] == e[1 + i]);
            }
            assert(b.subrange(pos + 1, pos + 5) =~= octets);
            assert(e[5] == be16_spec(port)[0]);
            assert(e[6] == be16_spec(port)[1]);
            assert(b[pos + 5] == be16_spec(port)[0]);
            assert(b[pos + 6] == be16_spec(port)[1]);
            lemma_be16_roundtrip(port);
        },
        InetAddressV::Ipv6 { octets, port } => {
            assert(e[0] == 6);
            assert(b[pos + 0] == e[0]);
            assert(b[pos] == 6);
            assert(e.len() == 19);
            assert forall|i: int| 0 <= i < 16 implies b[pos + 1 + i] == octets[i] by {
                assert(e[1 + i] == octets[i]);
                assert(b[pos + (1 + i)] == e[1 + i]);
            }
            assert(b.subrange(pos + 1, pos + 17) =~= octets);
            assert(e[17] == be16_spec(port)[0]);
            assert(e[18] == be16_spec(port)[1]);
            assert(b[pos + 17] == be16_spec(port)[0]);
            assert(b[pos + 18] == be16_spec(port)[1]);
            lemma_be16_roundtrip(port);
        },
    }
}

// ---------------------------------------------------------------------------
// Lists of addresses: length-delimited concatenation of the per-element form.
// ---------------------------------------------------------------------------

pub open spec fn inets_view(s: Seq<InetAddress>) -> Seq<InetAddressV> {
    Seq::new(s.len(), |i: int| s[i]@)
}

pub open spec fn inets_wf(s: Seq<InetAddressV>) -> bool {
    forall|i: int| 0 <= i < s.len() ==> inet_wf(#[trigger] s[i])
}

/// The concatenated wire form of a list of addresses.
pub open spec fn inets_bytes_spec(s: Seq<InetAddressV>) -> Seq<u8>
    decreases s.len(),
{
    if s.len() == 0 {
        Seq::empty()
    } else {
        inet_bytes_spec(s[0]) + inets_bytes_spec(s.drop_first())
    }
}

pub proof fn lemma_inets_bytes_snoc(s: Seq<InetAddressV>, e: InetAddressV)
    ensures
        inets_bytes_spec(s.push(e)) == inets_bytes_spec(s) + inet_bytes_spec(e),
    decreases s.len(),
{
    if s.len() == 0 {
        assert(s.push(e)[0] == e);
        assert(s.push(e).drop_first() =~= Seq::<InetAddressV>::empty());
        assert(inets_bytes_spec(Seq::<InetAddressV>::empty()) =~= Seq::<u8>::empty());
        assert(inets_bytes_spec(s.push(e)) =~= inets_bytes_spec(s) + inet_bytes_spec(e));
    } else {
        assert(s.push(e)[0] == s[0]);
        assert(s.push(e).drop_first() =~= s.drop_first().push(e));
        lemma_inets_bytes_snoc(s.drop_first(), e);
        assert(inets_bytes_spec(s.push(e))
            == inet_bytes_spec(s[0]) + (inets_bytes_spec(s.drop_first()) + inet_bytes_spec(e)));
        assert(inet_bytes_spec(s[0]) + (inets_bytes_spec(s.drop_first()) + inet_bytes_spec(e))
            =~= (inet_bytes_spec(s[0]) + inets_bytes_spec(s.drop_first())) + inet_bytes_spec(e));
    }
}

/// Strict parse of addresses from `pos` to the end of the buffer.
pub open spec fn inets_parse_from(b: Seq<u8>, pos: int) -> Option<Seq<InetAddressV>>
    decreases b.len() - pos,
    when 0 <= pos <= b.len()
{
    if pos == b.len() {
        Some(Seq::<InetAddressV>::empty())
    } else {
        match inet_unmarshal_spec(b, pos) {
            None => None,
            Some((a, c)) => if pos < c <= b.len() {
                match inets_parse_from(b, c) {
                    None => None,
                    Some(rest) => Some(seq![a] + rest),
                }
            } else {
                None
            },
        }
    }
}

/// Greedy parse: addresses from `pos` until the first byte that does not
/// begin one (the tolerant reading used for DNS server lists).
pub open spec fn inets_parse_greedy(b: Seq<u8>, pos: int) -> Seq<InetAddressV>
    decreases b.len() - pos,
    when 0 <= pos <= b.len()
{
    if pos == b.len() {
        Seq::<InetAddressV>::empty()
    } else {
        match inet_unmarshal_spec(b, pos) {
            None => Seq::<InetAddressV>::empty(),
            Some((a, c)) => if pos < c <= b.len() {
                seq![a] + inets_parse_greedy(b, c)
            } else {
                Seq::<InetAddressV>::empty()
            },
        }
    }
}

/// A written list reads back as itself, strictly and greedily.
pub proof fn lemma_inets_roundtrip(s: Seq<InetAddressV>, b: Seq<u8>, pos: int)
    requires
        inets_wf(s),
        0 <= pos <= b.len(),
        b.subrange(pos, b.len() as int) == inets_bytes_spec(s),
    ensures
        inets_parse_from(b, pos) == Some(s),
        inets_parse_greedy(b, pos) == s,
    decreases s.len(),
{
    if s.len() == 0 {
        assert(pos == b.len());
    } else {
        let e = inet_bytes_spec(s[0]);
        let rest = inets_bytes_spec(s.drop_first());
        crate::util::lemma_subrange_split(b, pos, b.len() as int, e, rest);
        lemma_inet_roundtrip(s[0], b, pos);
        let c = pos + e.len() as int;
        assert(inets_wf(s.drop_first())) by {
            assert(forall|i: int|
                0 <= i < s.drop_first().len() ==> #[trigger] s.drop_first()[i] == s[i + 1]);
        }
        lemma_inets_roundtrip(s.drop_first(), b, c);
        assert(c > pos) by {
            assert(e.len() >= 1);
        }
        assert(seq![s[0]] + s.drop_first() =~= s);
    }
}

impl InetAddress {
    /// Concatenate the wire forms of a list of addresses.
    pub fn marshal_multiple_to_bytes(list: &Vec<InetAddress>) -> (r: Vec<u8>)
        requires
            inets_wf(inets_view(list@)),
        ensures
            r@ == inets_bytes_spec(inets_view(list@)),
    {
        let mut out: Vec<u8> = Vec::new();
        let mut i: usize = 0;
        proof {
            assert(inets_view(list@.take(0)) =~= Seq::<InetAddressV>::empty());
        }
        while i < list.len()
            invariant
                i <= list@.len(),
                inets_wf(inets_view(list@)),
                out@ == inets_bytes_spec(inets_view(list@.take(i as int))),
            decreases list@.len() - i,
        {
            proof {
                assert(inets_view(list@)[i as int] == list@[i as int]@);
                assert(inet_wf(list@[i as int]@));
            }
            list[i].marshal(&mut out);
            proof {
                lemma_inets_bytes_snoc(inets_view(list@.take(i as int)), list@[i as int]@);
                assert(inets_view(list@.take(i as int + 1))
                    =~= inets_view(list@.take(i as int)).push(list@[i as int]@));
            }
            i = i + 1;
        }
        proof {
            assert(inets_view(list@.take(list@.len() as int)) =~= inets_view(list@));
        }
        out
    }

    /// Parse a whole buffer as a list of addresses; any malformed element
    /// rejects the whole list.
    pub fn unmarshal_multiple_from_bytes(b: &Vec<u8>) -> (r: Option<Vec<InetAddress>>)
        ensures
            match r {
                Some(v) => inets_parse_from(b@, 0) == Some(inets_view(v@)) && inets_wf(
                    inets_view(v@),
                ),
                None => inets_parse_from(b@, 0) is None,
            },
    {
        let mut acc: Vec<InetAddress> = Vec::new();
        let mut cursor: usize = 0;
        proof {
            assert(inets_view(acc@) =~= Seq::<InetAddressV>::empty());
        }
        while cursor < b.len()
            invariant
                0 <= cursor <= b@.len(),
                inets_wf(inets_view(acc@)),
                forall|rest: Seq<InetAddressV>|
                    inets_parse_from(b@, cursor as int) == Some(rest) ==> inets_parse_from(b@, 0)
                        == Some(inets_view(acc@) + rest),
                inets_parse_from(b@, cursor as int) is None ==> inets_parse_from(b@, 0) is None,
            decreases b@.len() - cursor,
        {
            let ghost c0 = cursor as int;
            let ghost acc0 = acc@;
            match InetAddress::unmarshal(b, &mut cursor) {
                None => {
                    return None;
                },
                Some(a) => {
                    proof {
                        assert(inet_unmarshal_spec(b@, c0) == Some((a@, cursor as int)));
                    }
                    acc.push(a);
                    proof {
                        assert(inets_view(acc@) =~= inets_view(acc0).push(a@));
                        assert forall|rest: Seq<InetAddressV>|
                            inets_parse_from(b@, cursor as int) == Some(rest)
                                implies inets_parse_from(b@, 0) == Some(
                            inets_view(acc@) + rest,
                        ) by {
                            assert(inets_parse_from(b@, c0) == Some(seq![a@] + rest));
                            assert(inets_view(acc0) + (seq![a@] + rest)
                                =~= inets_view(acc@) + rest);
                        }
                        if inets_parse_from(b@, cursor as int) is None {
                            assert(inets_parse_from(b@, c0) is None);
                        }
                    }
                },
            }
        }
        proof {
            assert(inets_parse_from(b@, cursor as int) == Some(Seq::<InetAddressV>::empty()));
            assert(inets_view(acc@) + Seq::<InetAddressV>::empty() =~= inets_view(acc@));
        }
        Some(acc)
    }

    /// Parse addresses from `start` until one fails to parse (DNS servers).
    pub fn unmarshal_greedy(b: &Vec<u8>, start: usize) -> (r: Vec<InetAddress>)
        requires
            start <= b@.len(),
        ensures
            inets_view(r@) == inets_parse_greedy(b@, start as int),
            inets_wf(inets_view(r@)),
    {
        let mut acc: Vec<InetAddress> = Vec::new();
        let mut cursor: usize = start;
        proof {
            assert(inets_view(acc@) =~= Seq::<InetAddressV>::empty());
        }
        while cursor < b.len()
            invariant
                start <= cursor <= b@.len(),
                inets_wf(inets_view(acc@)),
                inets_parse_greedy(b@, start as int) == inets_view(acc@) + inets_parse_greedy(
                    b@,
                    cursor as int,
                ),
            decreases b@.len() - cursor,
        {
            let ghost c0 = cursor as int;
            let ghost acc0 = acc@;
            match InetAddress::unmarshal(b, &mut cursor) {
                None => {
                    proof {
                        assert(inets_parse_greedy(b@, c0) =~= Seq::<InetAddressV>::empty());
                        assert(inets_view(acc@) + Seq::<InetAddressV>::empty()
                            =~= inets_view(acc@));
                    }
                    return acc;
                },
                Some(a) => {
                    acc.push(a);
                    proof {
                        assert(inets_view(acc@) =~= inets_view(acc0).push(a@));
                        assert(inets_parse_greedy(b@, c0)
                            == seq![a@] + inets_parse_greedy(b@, cursor as int));
                        assert(inets_view(acc0) + (seq![a@] + inets_parse_greedy(
                            b@,
                            cursor as int,
                        )) =~= inets_view(acc@) + inets_parse_greedy(b@, cursor as int));
                    }
                },
            }
        }
        proof {
            assert(inets_parse_greedy(b@, cursor as int) =~= Seq::<InetAddressV>::empty());
            assert(inets_view(acc@) + Seq::<InetAddressV>::empty() =~= inets_view(acc@));
        }
        acc
    }
}

// ---------------------------------------------------------------------------
// Endpoint: the transport endpoint variants; IP/UDP today, others reserved.
// ---------------------------------------------------------------------------

pub ghost enum EndpointV {
    Nil,
    IpUdp(InetAddressV),
}

#[derive(Clone, PartialEq, Eq, Debug)]
pub enum Endpoint {
    Nil,
    IpUdp(InetAddress),
}

impl View for Endpoint {
    type V = EndpointV;

    open spec fn view(&self) -> EndpointV {
        match self {
            Endpoint::Nil => EndpointV::Nil,
            Endpoint::IpUdp(a) => EndpointV::IpUdp(a@),
        }
    }
}

pub open spec fn endpoint_wf(e: EndpointV) -> bool {
    match e {
        EndpointV::Nil => true,
        EndpointV::IpUdp(a) => inet_wf(a),
    }
}

/// The wire form of an endpoint: a variant byte, then the address.
pub open spec fn endpoint_bytes_spec(e: EndpointV) -> Seq<u8> {
    match e {
        EndpointV::Nil => seq![0u8],
        EndpointV::IpUdp(a) => seq![7u8] + inet_bytes_spec(a),
    }
}

impl Endpoint {
    pub open spec fn wf(self) -> bool {
        endpoint_wf(self@)
    }

    /// Check well-formedness of the carried address at run time.
    pub fn wf_exec(&self) -> (r: bool)
        ensures
            r == self.wf(),
    {
        match self {
            Endpoint::Nil => true,
            Endpoint::IpUdp(a) => match a {
                InetAddress::Nil => true,
                InetAddress::Ipv4 { octets, .. } => octets.len() == 4,
                InetAddress::Ipv6 { octets, .. } => octets.len() == 16,
            },
        }
    }

    /// Append the wire form of this endpoint.
    pub fn marshal(&self, out: &mut Vec<u8>)
        requires
            self.wf(),
        ensures
            final(out)@ == old(out)@ + endpoint_bytes_spec(self@),
    {
        match self {
            Endpoint::Nil => {
                out.push(0);
                proof {
                    assert(final(out)@ =~= old(out)@ + endpoint_bytes_spec(self@));
                }
            },
            Endpoint::IpUdp(a) => {
                out.push(7);
                a.marshal(out);
                proof {
                    assert(final(out)@ =~= old(out)@ + endpoint_bytes_spec(self@));
                }
            },
        }
    }
}

} // verus!
