use vstd::prelude::*;

use crate::credentials::{
    coo_wf, coos_bytes_spec, coos_parse_from, coos_view, coos_wf, rules_bytes_spec,
    rules_parse_from, rules_view, rules_wf, tags_bytes_spec, tags_parse_from,
    CertificateOfMembership, CertificateOfOwnership, Rule, Tag,
};
use crate::dictionary::{
    bool_bytes_spec, i64_to_u64, i64_to_u64_spec, key1, key2, key3, key4, key5, key6, key_safe,
    spec_get_bool, spec_get_u64, u64_to_i64, u64_to_i64_spec, Dictionary,
};
use crate::inet::{
    inet_bytes_spec, inet_unmarshal_spec, inet_wf, inets_bytes_spec, inets_parse_from,
    inets_parse_greedy, inets_view, inets_wf, InetAddress, InetAddressV,
};
use crate::util::{
    append_bytes, be16, be16_spec, filled_vec, hex_min_spec, lemma_be16_roundtrip,
    lemma_hex_fixed_roundtrip, lemma_hex_min_roundtrip, lemma_pow16_16, lemma_pow16_le,
    lemma_subrange_split, parse_hex_u64, parse_hex_u64_spec, pow16, sub_vec, u16_from_be,
    u16_from_be_spec, u64_to_hex, u64_to_hex_fixed, hex_fixed_spec,
};

verus! {

/// A typed decoding failure carrying a short reason.
#[derive(Debug)]
pub struct InvalidParameterError(pub &'static str);

// ---------------------------------------------------------------------------
// IpRoute: a statically pushed L3 route. On the wire: the target address,
// the via address (nil when absent), then 16-bit flags and metric.
// ---------------------------------------------------------------------------

pub ghost struct IpRouteV {
    pub target: InetAddressV,
    pub via: Option<InetAddressV>,
    pub flags: u16,
    pub metric: u16,
}

#[derive(Clone, PartialEq, Eq, Debug)]
pub struct IpRoute {
    pub target: InetAddress,
    pub via: Option<InetAddress>,
    pub flags: u16,
    pub metric: u16,
}

impl View for IpRoute {
    type V = IpRouteV;

    open spec fn view(&self) -> IpRouteV {
        IpRouteV {
            target: self.target@,
            via: match &self.via {
                Some(v) => Some(v@),
                None => None,
            },
            flags: self.flags,
            metric: self.metric,
        }
    }
}

pub open spec fn route_wf(r: IpRouteV) -> bool {
    &&& inet_wf(r.target)
    &&& match r.via {
        Some(v) => inet_wf(v) && !(v is Nil),
        None => true,
    }
}

pub open spec fn route_via_bytes_spec(via: Option<InetAddressV>) -> Seq<u8> {
    match via {
        Some(v) => inet_bytes_spec(v),
        None => seq![0u8],
    }
}

pub open spec fn route_bytes_spec(r: IpRouteV) -> Seq<u8> {
    inet_bytes_spec(r.target) + route_via_bytes_spec(r.via) + be16_spec(r.flags) + be16_spec(
        r.metric,
    )
}

pub open spec fn route_unmarshal_spec(b: Seq<u8>, pos: int) -> Option<(IpRouteV, int)> {
    match inet_unmarshal_spec(b, pos) {
        None => None,
        Some((target, c1)) => match inet_unmarshal_spec(b, c1) {
            None => None,
            Some((via, c2)) => if c2 + 4 <= b.len() {
                Some((
                    IpRouteV {
                        target,
                        via: if via is Nil {
                            None
                        } else {
                            Some(via)
                        },
                        flags: u16_from_be_spec(b[c2], b[c2 + 1]),
                        metric: u16_from_be_spec(b[c2 + 2], b[c2 + 3]),
                    },
                    c2 + 4,
                ))
            } else {
                None
            },
        },
    }
}

pub proof fn lemma_route_roundtrip(r: IpRouteV, b: Seq<u8>, pos: int)
    requires
        route_wf(r),
        0 <= pos,
        pos + route_bytes_spec(r).len() <= b.len(),
        b.subrange(pos, pos + route_bytes_spec(r).len() as int) == route_bytes_spec(r),
    ensures
        route_unmarshal_spec(b, pos) == Some((r, pos + route_bytes_spec(r).len() as int)),
{
    let tb = inet_bytes_spec(r.target);
    let vb = route_via_bytes_spec(r.via);
    let fm = be16_spec(r.flags) + be16_spec(r.metric);
    let e = route_bytes_spec(r);
    let end = pos + e.len() as int;
    assert(e =~= tb + (vb + fm));
    lemma_subrange_split(b, pos, end, tb, vb + fm);
    let c1 = pos + tb.len() as int;
    crate::inet::lemma_inet_roundtrip(r.target, b, pos);
    lemma_subrange_split(b, c1, end, vb, fm);
    let c2 = c1 + vb.len() as int;
    match r.via {
        Some(v) => {
            crate::inet::lemma_inet_roundtrip(v, b, c1);
        },
        None => {
            crate::inet::lemma_inet_roundtrip(InetAddressV::Nil, b, c1);
        },
    }
    let sub = b.subrange(c2, end);
    assert forall|i: int| 0 <= i < 4 implies b[c2 + i] == fm[i] by {
        assert(sub[i] == b[c2 + i]);
        assert(sub[i] == fm[i]);
    }
    assert(fm[0] == be16_spec(r.flags)[0]);
    assert(fm[1] == be16_spec(r.flags)[1]);
    assert(fm[2] == be16_spec(r.metric)[0]);
    assert(fm[3] == be16_spec(r.metric)[1]);
    assert(b[c2 + 0] == fm[0]);
    assert(b[c2 + 1] == fm[1]);
    assert(b[c2 + 2] == fm[2]);
    assert(b[c2 + 3] == fm[3]);
    lemma_be16_roundtrip(r.flags);
    lemma_be16_roundtrip(r.metric);
}

impl IpRoute {
    pub open spec fn wf(self) -> bool {
        route_wf(self@)
    }

    /// Append the wire form of this route.
    pub fn marshal(&self, out: &mut Vec<u8>)
        requires
            self.wf(),
        ensures
            final(out)@ == old(out)@ + route_bytes_spec(self@),
    {
        self.target.marshal(out);
        match &self.via {
            Some(v) => {
                v.marshal(out);
            },
            None => {
                out.push(0);
            },
        }
        let f = be16(self.flags);
        append_bytes(out, &f);
        let m = be16(self.metric);
        append_bytes(out, &m);
        proof {
            assert(final(out)@ =~= old(out)@ + route_bytes_spec(self@));
        }
    }

    /// Read one route from the wire, advancing the cursor.
    pub fn unmarshal(buf: &Vec<u8>, cursor: &mut usize) -> (r: Option<IpRoute>)
        requires
            *old(cursor) <= buf@.len(),
        ensures
            match r {
                Some(rt) => {
                    &&& rt.wf()
                    &&& route_unmarshal_spec(buf@, *old(cursor) as int)
                        == Some((rt@, *final(cursor) as int))
                    &&& *old(cursor) < *final(cursor) <= buf@.len()
                },
                None => {
                    &&& route_unmarshal_spec(buf@, *old(cursor) as int) is None
                    &&& *final(cursor) == *old(cursor)
                },
            },
    {
        let pos0 = *cursor;
        let target = match InetAddress::unmarshal(buf, cursor) {
            None => {
                return None;
            },
            Some(t) => t,
        };
        let via = match InetAddress::unmarshal(buf, cursor) {
            None => {
                *cursor = pos0;
                return None;
            },
            Some(v) => v,
        };
        if buf.len() - *cursor < 4 {
            *cursor = pos0;
            return None;
        }
        let c2 = *cursor;
        let flags = u16_from_be(buf[c2], buf[c2 + 1]);
        let metric = u16_from_be(buf[c2 + 2], buf[c2 + 3]);
        *cursor = c2 + 4;
        let via_opt = if via.is_nil() {
            None
        } else {
            Some(via)
        };
        Some(IpRoute { target, via: via_opt, flags, metric })
    }
}

// ---------------------------------------------------------------------------
// Lists of routes
// ---------------------------------------------------------------------------

pub open spec fn routes_view(s: Seq<IpRoute>) -> Seq<IpRouteV> {
    Seq::new(s.len(), |i: int| s[i]@)
}

pub open spec fn routes_wf(s: Seq<IpRouteV>) -> bool {
    forall|i: int| 0 <= i < s.len() ==> route_wf(#[trigger] s[i])
}

pub open spec fn routes_bytes_spec(s: Seq<IpRouteV>) -> Seq<u8>
    decreases s.len(),
{
    if s.len() == 0 {
        Seq::empty()
    } else {
        route_bytes_spec(s[0]) + routes_bytes_spec(s.drop_first())
    }
}

pub proof fn lemma_routes_bytes_snoc(s: Seq<IpRouteV>, e: IpRouteV)
    ensures
        routes_bytes_spec(s.push(e)) == routes_bytes_spec(s) + route_bytes_spec(e),
    decreases s.len(),
{
    if s.len() == 0 {
        assert(s.push(e)[0] == e);
        assert(s.push(e).drop_first() =~= Seq::<IpRouteV>::empty());
        assert(routes_bytes_spec(Seq::<IpRouteV>::empty()) =~= Seq::<u8>::empty());
        assert(routes_bytes_spec(s.push(e)) =~= routes_bytes_spec(s) + route_bytes_spec(e));
    } else {
        assert(s.push(e)[0] == s[0]);
        assert(s.push(e).drop_first() =~= s.drop_first().push(e));
        lemma_routes_bytes_snoc(s.drop_first(), e);
        assert(route_bytes_spec(s[0]) + (routes_bytes_spec(s.drop_first()) + route_bytes_spec(e))
            =~= (route_bytes_spec(s[0]) + routes_bytes_spec(s.drop_first()))
            + route_bytes_spec(e));
    }
}

pub open spec fn routes_parse_from(b: Seq<u8>, pos: int) -> Option<Seq<IpRouteV>>
    decreases b.len() - pos,
    when 0 <= pos <= b.len()
{
    if pos == b.len() {
        Some(Seq::<IpRouteV>::empty())
    } else {
        match route_unmarshal_spec(b, pos) {
            None => None,
            Some((r, c)) => if pos < c <= b.len() {
                match routes_parse_from(b, c) {
                    None => None,
                    Some(rest) => Some(seq![r] + rest),
                }
            } else {
                None
            },
        }
    }
}

pub proof fn lemma_routes_roundtrip(s: Seq<IpRouteV>, b: Seq<u8>, pos: int)
    requires
        routes_wf(s),
        0 <= pos <= b.len(),
        b.subrange(pos, b.len() as int) == routes_bytes_spec(s),
    ensures
        routes_parse_from(b, pos) == Some(s),
    decreases s.len(),
{
    if s.len() == 0 {
        assert(routes_bytes_spec(s) =~= Seq::<u8>::empty());
        assert(b.subrange(pos, b.len() as int).len() == 0);
        assert(pos == b.len());
    } else {
        let e = route_bytes_spec(s[0]);
        let rest = routes_bytes_spec(s.drop_first());
        lemma_subrange_split(b, pos, b.len() as int, e, rest);
        lemma_route_roundtrip(s[0], b, pos);
        assert(routes_wf(s.drop_first())) by {
            assert(forall|i: int|
                0 <= i < s.drop_first().len() ==> #[trigger] s.drop_first()[i] == s[i + 1]);
        }
        lemma_routes_roundtrip(s.drop_first(), b, pos + e.len() as int);
        assert(seq![s[0]] + s.drop_first() =~= s);
    }
}

impl IpRoute {
    /// Concatenate the wire forms of a list of routes.
    pub fn marshal_multiple_to_bytes(list: &Vec<IpRoute>) -> (r: Vec<u8>)
        requires
            routes_wf(routes_view(list@)),
        ensures
            r@ == routes_bytes_spec(routes_view(list@)),
    {
        let mut out: Vec<u8> = Vec::new();
        let mut i: usize = 0;
        proof {
            assert(routes_view(list@.take(0)) =~= Seq::<IpRouteV>::empty());
        }
        while i < list.len()
            invariant
                i <= list@.len(),
                routes_wf(routes_view(list@)),
                out@ == routes_bytes_spec(routes_view(list@.take(i as int))),
            decreases list@.len() - i,
        {
            proof {
                assert(routes_view(list@)[i as int] == list@[i as int]@);
            }
            list[i].marshal(&mut out);
            proof {
                lemma_routes_bytes_snoc(routes_view(list@.take(i as int)), list@[i as int]@);
                assert(routes_view(list@.take(i as int + 1))
                    =~= routes_view(list@.take(i as int)).push(list@[i as int]@));
            }
            i = i + 1;
        }
        proof {
            assert(routes_view(list@.take(list@.len() as int)) =~= routes_view(list@));
        }
        out
    }

    /// Parse a whole buffer as a list of routes.
    pub fn unmarshal_multiple_from_bytes(b: &Vec<u8>) -> (r: Option<Vec<IpRoute>>)
        ensures
            match r {
                Some(v) => routes_parse_from(b@, 0) == Some(routes_view(v@)) && routes_wf(
                    routes_view(v@),
                ),
                None => routes_parse_from(b@, 0) is None,
            },
    {
        let mut acc: Vec<IpRoute> = Vec::new();
        let mut cursor: usize = 0;
        proof {
            assert(routes_view(acc@) =~= Seq::<IpRouteV>::empty());
        }
        while cursor < b.len()
            invariant
                0 <= cursor <= b@.len(),
                routes_wf(routes_view(acc@)),
                forall|rest: Seq<IpRouteV>|
                    routes_parse_from(b@, cursor as int) == Some(rest) ==> routes_parse_from(b@, 0)
                        == Some(routes_view(acc@) + rest),
                routes_parse_from(b@, cursor as int) is None ==> routes_parse_from(b@, 0) is None,
            decreases b@.len() - cursor,
        {
            let ghost c0 = cursor as int;
            let ghost acc0 = acc@;
            match IpRoute::unmarshal(b, &mut cursor) {
                None => {
                    return None;
                },
                Some(rt) => {
                    proof {
                        assert(route_unmarshal_spec(b@, c0) == Some((rt@, cursor as int)));
                    }
                    acc.push(rt);
                    proof {
                        assert(routes_view(acc@) =~= routes_view(acc0).push(acc@.last()@));
                        assert forall|rest: Seq<IpRouteV>|
                            routes_parse_from(b@, cursor as int) == Some(rest)
                                implies routes_parse_from(b@, 0) == Some(
                            routes_view(acc@) + rest,
                        ) by {
                            assert(routes_parse_from(b@, c0) == Some(seq![acc@.last()@] + rest));
                            assert(routes_view(acc0) + (seq![acc@.last()@] + rest)
                                =~= routes_view(acc@) + rest);
                        }
                        if routes_parse_from(b@, cursor as int) is None {
                            assert(routes_parse_from(b@, c0) is None);
                        }
                    }
                },
            }
        }
        proof {
            assert(routes_parse_from(b@, cursor as int) == Some(Seq::<IpRouteV>::empty()));
            assert(routes_view(acc@) + Seq::<IpRouteV>::empty() =~= routes_view(acc@));
        }
        Some(acc)
    }
}

// ---------------------------------------------------------------------------
// DNS: one (name -> servers) entry; on the wire a 128-byte zero-padded name
// prefix followed by the concatenated server addresses.
// ---------------------------------------------------------------------------

#[verifier::ext_equal]
pub ghost struct DnsEntryV {
    pub name: Seq<u8>,
    pub servers: Seq<InetAddressV>,
}

#[derive(Clone, PartialEq, Eq, Debug)]
pub struct DnsEntry {
    pub name: Vec<u8>,
    pub servers: Vec<InetAddress>,
}

impl View for DnsEntry {
    type V = DnsEntryV;

    open spec fn view(&self) -> DnsEntryV {
        DnsEntryV { name: self.name@, servers: inets_view(self.servers@) }
    }
}

pub open spec fn dns_entry_wf(e: DnsEntryV) -> bool {
    inets_wf(e.servers)
}

/// The name, truncated to the 127 bytes the wire prefix can carry.
pub open spec fn dns_name_trunc(name: Seq<u8>) -> Seq<u8> {
    if name.len() <= 127 {
        name
    } else {
        name.take(127)
    }
}

/// The DNS blob: padded name prefix, then the marshaled servers.
pub open spec fn dns_blob_spec(e: DnsEntryV) -> Seq<u8> {
    dns_name_trunc(e.name) + crate::util::zeros((128 - dns_name_trunc(e.name).len()) as nat)
        + inets_bytes_spec(e.servers)
}

/// The name read back from the padded prefix: bytes up to the first zero.
pub open spec fn name_until_zero(b: Seq<u8>, i: int) -> Seq<u8>
    decreases 128 - i,
    when 0 <= i <= 128 && b.len() >= 128
{
    if i == 128 {
        Seq::<u8>::empty()
    } else if b[i] == 0 {
        Seq::<u8>::empty()
    } else {
        seq![b[i]] + name_until_zero(b, i + 1)
    }
}

/// What decoding a DNS blob yields: nothing unless the blob is over 128 and
/// under 1024 bytes, the name prefix is non-empty, and at least one server
/// parses.
pub open spec fn dns_decode_spec(blob: Seq<u8>) -> Option<DnsEntryV> {
    if 128 < blob.len() < 1024 {
        let name = name_until_zero(blob, 0);
        let servers = inets_parse_greedy(blob, 128);
        if name.len() > 0 && servers.len() > 0 {
            Some(DnsEntryV { name, servers })
        } else {
            None
        }
    } else {
        None
    }
}

/// Build the wire blob for one DNS entry.
pub fn encode_dns_blob(e: &DnsEntry) -> (r: Vec<u8>)
    requires
        dns_entry_wf(e@),
    ensures
        r@ == dns_blob_spec(e@),
        r@.len() >= 128,
{
    let n: usize = if e.name.len() <= 127 {
        e.name.len()
    } else {
        127
    };
    let mut out = sub_vec(&e.name, 0, n);
    proof {
        assert(out@ =~= dns_name_trunc(e.name@));
    }
    let pad = filled_vec(0, 128 - n);
    append_bytes(&mut out, &pad);
    proof {
        assert(pad@ =~= crate::util::zeros((128 - n) as nat));
    }
    let srv = InetAddress::marshal_multiple_to_bytes(&e.servers);
    append_bytes(&mut out, &srv);
    proof {
        assert(out@ =~= dns_blob_spec(e@));
    }
    out
}

/// Read the DNS entry back out of a blob, tolerantly.
pub fn decode_dns_blob(blob: &Vec<u8>) -> (r: Option<DnsEntry>)
    ensures
        match r {
            Some(e) => dns_decode_spec(blob@) == Some(e@) && dns_entry_wf(e@),
            None => dns_decode_spec(blob@) is None,
        },
{
    if blob.len() <= 128 || blob.len() >= 1024 {
        return None;
    }
    let mut name: Vec<u8> = Vec::new();
    let mut i: usize = 0;
    let mut stopped = false;
    while i < 128 && !stopped
        invariant
            0 <= i <= 128,
            blob@.len() > 128,
            !stopped ==> name@ + name_until_zero(blob@, i as int) == name_until_zero(blob@, 0),
            stopped ==> name@ == name_until_zero(blob@, 0),
        decreases 128 - i, (if stopped { 0int } else { 1int }),
    {
        let b = blob[i];
        if b == 0 {
            stopped = true;
            proof {
                assert(name_until_zero(blob@, i as int) =~= Seq::<u8>::empty());
                assert(name@ + Seq::<u8>::empty() =~= name@);
            }
        } else {
            let ghost name0 = name@;
            name.push(b);
            proof {
                assert(name_until_zero(blob@, i as int)
                    == seq![blob@[i as int]] + name_until_zero(blob@, i as int + 1));
                assert(name0 + (seq![blob@[i as int]] + name_until_zero(blob@, i as int + 1))
                    =~= name@ + name_until_zero(blob@, i as int + 1));
            }
            i = i + 1;
        }
    }
    proof {
        if !stopped {
            assert(i == 128);
            assert(name_until_zero(blob@, 128) =~= Seq::<u8>::empty());
            assert(name@ + Seq::<u8>::empty() =~= name@);
        }
        assert(name@ == name_until_zero(blob@, 0));
    }
    if name.len() == 0 {
        return None;
    }
    let servers = InetAddress::unmarshal_greedy(blob, 128);
    if servers.len() == 0 {
        return None;
    }
    Some(DnsEntry { name, servers })
}

/// A DNS entry whose name fits the prefix and holds no zero byte, written
/// and read back, is unchanged.
pub proof fn lemma_dns_roundtrip(e: DnsEntryV)
    requires
        dns_entry_wf(e),
        1 <= e.name.len() <= 127,
        forall|i: int| 0 <= i < e.name.len() ==> e.name[i] != 0,
        e.servers.len() >= 1,
        dns_blob_spec(e).len() < 1024,
    ensures
        dns_decode_spec(dns_blob_spec(e)) == Some(e),
{
    let blob = dns_blob_spec(e);
    let padded = dns_name_trunc(e.name) + crate::util::zeros((128 - dns_name_trunc(e.name).len()) as nat);
    assert(dns_name_trunc(e.name) == e.name);
    assert(padded.len() == 128);
    assert(blob =~= padded + inets_bytes_spec(e.servers));
    assert(blob.subrange(0, blob.len() as int) =~= blob);
    lemma_subrange_split(blob, 0, blob.len() as int, padded, inets_bytes_spec(e.servers));
    assert(blob.len() >= 128 + inet_bytes_spec(e.servers[0]).len()) by {
        assert(inets_bytes_spec(e.servers)
            == inet_bytes_spec(e.servers[0]) + inets_bytes_spec(e.servers.drop_first()));
    }
    assert(inet_bytes_spec(e.servers[0]).len() >= 1) by {
        match e.servers[0] {
            InetAddressV::Nil => {},
            InetAddressV::Ipv4 { .. } => {},
            InetAddressV::Ipv6 { .. } => {},
        }
    }
    assert(128 < blob.len() < 1024);
    assert forall|i: int| 0 <= i < 128 implies blob[i] == padded[i] by {
        assert(blob.subrange(0, 128)[i] == blob[i]);
        assert(blob.subrange(0, 128) == padded);
    }
    lemma_name_prefix(e.name, blob, e.name.len() as int);
    assert(name_until_zero(blob, 0) == e.name) by {
        lemma_name_prefix(e.name, blob, 0);
        assert(e.name.skip(0) =~= e.name);
    }
    crate::inet::lemma_inets_roundtrip(e.servers, blob, 128);
}

proof fn lemma_name_prefix(name: Seq<u8>, blob: Seq<u8>, i: int)
    requires
        1 <= name.len() <= 127,
        blob.len() >= 128,
        forall|j: int| 0 <= j < name.len() ==> blob[j] == name[j] && name[j] != 0,
        forall|j: int| name.len() <= j < 128 ==> blob[j] == 0,
        0 <= i <= name.len(),
    ensures
        name_until_zero(blob, i) == name.skip(i),
    decreases name.len() - i,
{
    if i == name.len() {
        assert(blob[i] == 0);
        assert(name.skip(i) =~= Seq::<u8>::empty());
    } else {
        assert(blob[i] == name[i]);
        assert(name[i] != 0);
        lemma_name_prefix(name, blob, i + 1);
        assert(seq![name[i]] + name.skip(i + 1) =~= name.skip(i));
    }
}

// ---------------------------------------------------------------------------
// SSO authentication configuration and per-node information
// ---------------------------------------------------------------------------

#[verifier::ext_equal]
pub ghost struct SSOAuthConfigurationV {
    pub version: u32,
    pub authentication_url: Seq<u8>,
    pub authentication_expiry_time: i64,
    pub issuer_url: Seq<u8>,
    pub nonce: Seq<u8>,
    pub state: Seq<u8>,
    pub client_id: Seq<u8>,
}

/// SSO authentication configuration pushed with a network configuration.
#[derive(Clone, PartialEq, Eq, Debug)]
pub struct SSOAuthConfiguration {
    pub version: u32,
    pub authentication_url: Vec<u8>,
    pub authentication_expiry_time: i64,
    pub issuer_url: Vec<u8>,
    pub nonce: Vec<u8>,
    pub state: Vec<u8>,
    pub client_id: Vec<u8>,
}

impl View for SSOAuthConfiguration {
    type V = SSOAuthConfigurationV;

    open spec fn view(&self) -> SSOAuthConfigurationV {
        SSOAuthConfigurationV {
            version: self.version,
            authentication_url: self.authentication_url@,
            authentication_expiry_time: self.authentication_expiry_time,
            issuer_url: self.issuer_url@,
            nonce: self.nonce@,
            state: self.state@,
            client_id: self.client_id@,
        }
    }
}

/// Information about other nodes on the network; not carried on this wire.
#[derive(Clone, PartialEq, Eq, Debug)]
pub struct NodeInfo {
    pub flags: u64,
    pub ip: Option<InetAddress>,
    pub name: Option<Vec<u8>>,
    pub services: Vec<(Vec<u8>, Option<Vec<u8>>)>,
}

// ---------------------------------------------------------------------------
// The network configuration object sent to nodes by network controllers,
// and its V1 dictionary wire form.
// ---------------------------------------------------------------------------

pub open spec fn k_nwid() -> Seq<u8> {
    seq![0x6eu8, 0x77u8, 0x69u8, 0x64u8]
}

pub open spec fn k_n() -> Seq<u8> {
    seq![0x6eu8]
}

pub open spec fn k_id() -> Seq<u8> {
    seq![0x69u8, 0x64u8]
}

pub open spec fn k_t() -> Seq<u8> {
    seq![0x74u8]
}

pub open spec fn k_ts() -> Seq<u8> {
    seq![0x74u8, 0x73u8]
}

pub open spec fn k_ctmd() -> Seq<u8> {
    seq![0x63u8, 0x74u8, 0x6du8, 0x64u8]
}

pub open spec fn k_r() -> Seq<u8> {
    seq![0x72u8]
}

pub open spec fn k_mtu() -> Seq<u8> {
    seq![0x6du8, 0x74u8, 0x75u8]
}

pub open spec fn k_ml() -> Seq<u8> {
    seq![0x6du8, 0x6cu8]
}

pub open spec fn k_rt() -> Seq<u8> {
    seq![0x52u8, 0x54u8]
}

pub open spec fn k_i() -> Seq<u8> {
    seq![0x49u8]
}

pub open spec fn k_rules() -> Seq<u8> {
    seq![0x52u8]
}

pub open spec fn k_dns() -> Seq<u8> {
    seq![0x44u8, 0x4eu8, 0x53u8]
}

pub open spec fn k_c() -> Seq<u8> {
    seq![0x43u8]
}

pub open spec fn k_ni() -> Seq<u8> {
    seq![0x4eu8, 0x49u8]
}

pub open spec fn k_coo() -> Seq<u8> {
    seq![0x43u8, 0x4fu8, 0x4fu8]
}

pub open spec fn k_tag() -> Seq<u8> {
    seq![0x54u8, 0x41u8, 0x47u8]
}

pub open spec fn k_ssoce() -> Seq<u8> {
    seq![0x73u8, 0x73u8, 0x6fu8, 0x63u8, 0x65u8]
}

pub open spec fn k_ssoe() -> Seq<u8> {
    seq![0x73u8, 0x73u8, 0x6fu8, 0x65u8]
}

pub open spec fn k_ssov() -> Seq<u8> {
    seq![0x73u8, 0x73u8, 0x6fu8, 0x76u8]
}

pub open spec fn k_aurl() -> Seq<u8> {
    seq![0x61u8, 0x75u8, 0x72u8, 0x6cu8]
}

pub open spec fn k_aexpt() -> Seq<u8> {
    seq![0x61u8, 0x65u8, 0x78u8, 0x70u8, 0x74u8]
}

pub open spec fn k_iurl() -> Seq<u8> {
    seq![0x69u8, 0x75u8, 0x72u8, 0x6cu8]
}

pub open spec fn k_sson() -> Seq<u8> {
    seq![0x73u8, 0x73u8, 0x6fu8, 0x6eu8]
}

pub open spec fn k_ssos() -> Seq<u8> {
    seq![0x73u8, 0x73u8, 0x6fu8, 0x73u8]
}

pub open spec fn k_ssocid() -> Seq<u8> {
    seq![0x73u8, 0x73u8, 0x6fu8, 0x63u8, 0x69u8, 0x64u8]
}

/// The default link MTU used when the wire carries none.
pub const VIRTUAL_NETWORK_DEFAULT_MTU: u16 = 2800;

#[verifier::ext_equal]
pub ghost struct NetworkConfigV {
    pub network_id: u64,
    pub issued_to: u64,
    pub name: Seq<u8>,
    pub motd: Seq<u8>,
    pub private: bool,
    pub timestamp: i64,
    pub max_delta: i64,
    pub revision: u64,
    pub mtu: u16,
    pub multicast_limit: u32,
    pub routes: Seq<IpRouteV>,
    pub static_ips: Seq<InetAddressV>,
    pub rules: Seq<crate::credentials::RuleV>,
    pub dns: Seq<DnsEntryV>,
    pub certificate_of_membership: Option<Seq<u8>>,
    pub certificates_of_ownership: Seq<Seq<u8>>,
    pub tags: Seq<Tag>,
    pub banned: Seq<u64>,
    pub node_info: Seq<(u64, NodeInfo)>,
    pub central_url: Seq<u8>,
    pub sso: Option<SSOAuthConfigurationV>,
}

/// Network configuration object sent to nodes by network controllers.
#[derive(Clone, PartialEq, Eq, Debug)]
pub struct NetworkConfig {
    pub network_id: u64,
    pub issued_to: u64,
    pub name: Vec<u8>,
    pub motd: Vec<u8>,
    pub private: bool,
    pub timestamp: i64,
    pub max_delta: i64,
    pub revision: u64,
    pub mtu: u16,
    pub multicast_limit: u32,
    pub routes: Vec<IpRoute>,
    pub static_ips: Vec<InetAddress>,
    pub rules: Vec<Rule>,
    pub dns: Vec<DnsEntry>,
    pub certificate_of_membership: Option<CertificateOfMembership>,
    pub certificates_of_ownership: Vec<CertificateOfOwnership>,
    pub tags: Vec<Tag>,
    pub banned: Vec<u64>,
    pub node_info: Vec<(u64, NodeInfo)>,
    pub central_url: Vec<u8>,
    pub sso: Option<SSOAuthConfiguration>,
}

pub open spec fn dns_list_view(s: Seq<DnsEntry>) -> Seq<DnsEntryV> {
    Seq::new(s.len(), |i: int| s[i]@)
}

impl View for NetworkConfig {
    type V = NetworkConfigV;

    open spec fn view(&self) -> NetworkConfigV {
        NetworkConfigV {
            network_id: self.network_id,
            issued_to: self.issued_to,
            name: self.name@,
            motd: self.motd@,
            private: self.private,
            timestamp: self.timestamp,
            max_delta: self.max_delta,
            revision: self.revision,
            mtu: self.mtu,
            multicast_limit: self.multicast_limit,
            routes: routes_view(self.routes@),
            static_ips: inets_view(self.static_ips@),
            rules: rules_view(self.rules@),
            dns: dns_list_view(self.dns@),
            certificate_of_membership: match &self.certificate_of_membership {
                Some(c) => Some(c@),
                None => None,
            },
            certificates_of_ownership: coos_view(self.certificates_of_ownership@),
            tags: self.tags@,
            banned: self.banned@,
            node_info: self.node_info@,
            central_url: self.central_url@,
            sso: match &self.sso {
                Some(s) => Some(s@),
                None => None,
            },
        }
    }
}

/// Structural soundness of a configuration: addresses sized, lengths within
/// what the wire can carry, the issued-to address within 40 bits.
pub open spec fn config_wf_v(c: NetworkConfigV) -> bool {
    &&& routes_wf(c.routes)
    &&& inets_wf(c.static_ips)
    &&& rules_wf(c.rules)
    &&& coos_wf(c.certificates_of_ownership)
    &&& c.issued_to < 0x100_0000_0000
    &&& forall|i: int| 0 <= i < c.dns.len() ==> dns_entry_wf(#[trigger] c.dns[i])
}

impl NetworkConfig {
    pub open spec fn wf(self) -> bool {
        config_wf_v(self@)
    }

    /// A fresh configuration for one network and member: private, with every
    /// other field empty or zero.
    pub fn new(network_id: u64, issued_to: u64) -> (r: Self)
        ensures
            r.network_id == network_id,
            r.issued_to == issued_to,
            r.name@.len() == 0,
            r.motd@.len() == 0,
            r.private == true,
            r.timestamp == 0,
            r.max_delta == 0,
            r.revision == 0,
            r.mtu == 0,
            r.multicast_limit == 0,
            r.routes@.len() == 0,
            r.static_ips@.len() == 0,
            r.rules@.len() == 0,
            r.dns@.len() == 0,
            r.certificate_of_membership is None,
            r.certificates_of_ownership@.len() == 0,
            r.tags@.len() == 0,
            r.banned@.len() == 0,
            r.node_info@.len() == 0,
            r.central_url@.len() == 0,
            r.sso is None,
    {
        NetworkConfig {
            network_id,
            issued_to,
            name: Vec::new(),
            motd: Vec::new(),
            private: true,
            timestamp: 0,
            max_delta: 0,
            revision: 0,
            mtu: 0,
            multicast_limit: 0,
            routes: Vec::new(),
            static_ips: Vec::new(),
            rules: Vec::new(),
            dns: Vec::new(),
            certificate_of_membership: None,
            certificates_of_ownership: Vec::new(),
            tags: Vec::new(),
            banned: Vec::new(),
            node_info: Vec::new(),
            central_url: Vec::new(),
            sso: None,
        }
    }
}

/// What the encoded dictionary holds for a configuration `c`: every key the
/// V1 wire carries, with absent optional sections reading as nothing.
pub open spec fn enc_describes(c: NetworkConfigV, d: Dictionary) -> bool {
    &&& d.spec_get(k_nwid()) == Some(hex_fixed_spec(c.network_id, 16))
    &&& d.spec_get(k_n()) == (if c.name.len() > 0 {
        Some(c.name)
    } else {
        None::<Seq<u8>>
    })
    &&& d.spec_get(k_id()) == Some(hex_fixed_spec(c.issued_to, 10))
    &&& d.spec_get(k_t()) == Some(if c.private {
        seq![0x30u8]
    } else {
        seq![0x31u8]
    })
    &&& d.spec_get(k_ts()) == Some(hex_min_spec(i64_to_u64_spec(c.timestamp) as nat))
    &&& d.spec_get(k_ctmd()) == Some(hex_min_spec(i64_to_u64_spec(c.max_delta) as nat))
    &&& d.spec_get(k_r()) == Some(hex_min_spec(c.revision as nat))
    &&& d.spec_get(k_mtu()) == Some(hex_min_spec(c.mtu as nat))
    &&& d.spec_get(k_ml()) == Some(hex_min_spec(c.multicast_limit as nat))
    &&& d.spec_get(k_rt()) == (if c.routes.len() > 0 {
        Some(routes_bytes_spec(c.routes))
    } else {
        None::<Seq<u8>>
    })
    &&& d.spec_get(k_i()) == (if c.static_ips.len() > 0 {
        Some(inets_bytes_spec(c.static_ips))
    } else {
        None::<Seq<u8>>
    })
    &&& d.spec_get(k_rules()) == (if c.rules.len() > 0 {
        Some(rules_bytes_spec(c.rules))
    } else {
        None::<Seq<u8>>
    })
    &&& d.spec_get(k_dns()) == (if c.dns.len() > 0 {
        Some(dns_blob_spec(c.dns[0]))
    } else {
        None::<Seq<u8>>
    })
    &&& (c.certificate_of_membership matches Some(m) && d.spec_get(k_c()) == Some(m))
    &&& d.spec_get(k_ni()) is None
    &&& d.spec_get(k_coo()) == (if c.certificates_of_ownership.len() > 0 {
        Some(coos_bytes_spec(c.certificates_of_ownership))
    } else {
        None::<Seq<u8>>
    })
    &&& d.spec_get(k_tag()) == (if c.tags.len() > 0 {
        Some(tags_bytes_spec(c.tags))
    } else {
        None::<Seq<u8>>
    })
    &&& d.spec_get(k_ssoce()) == (if c.central_url.len() > 0 {
        Some(c.central_url)
    } else {
        None::<Seq<u8>>
    })
    &&& match c.sso {
        Some(s) => {
            &&& d.spec_get(k_ssoe()) == Some(bool_bytes_spec(true))
            &&& d.spec_get(k_ssov()) == Some(hex_min_spec(s.version as nat))
            &&& d.spec_get(k_aurl()) == Some(s.authentication_url)
            &&& d.spec_get(k_aexpt()) == Some(
                hex_min_spec(i64_to_u64_spec(s.authentication_expiry_time) as nat),
            )
            &&& d.spec_get(k_iurl()) == Some(s.issuer_url)
            &&& d.spec_get(k_sson()) == Some(s.nonce)
            &&& d.spec_get(k_ssos()) == Some(s.state)
            &&& d.spec_get(k_ssocid()) == Some(s.client_id)
        },
        None => d.spec_get(k_ssoe()) == Some(bool_bytes_spec(false)),
    }
}


/// Two byte strings differing at one index differ.
proof fn lemma_seq_neq_at(a: Seq<u8>, b: Seq<u8>, i: int)
    requires
        0 <= i < a.len(),
        0 <= i < b.len(),
        a[i] != b[i],
    ensures
        a != b,
{
    if a == b {
        assert(a[i] == b[i]);
    }
}

/// All dictionary keys of the V1 wire are pairwise distinct.
proof fn lemma_distinct_cfg_keys()
    ensures
        k_n() != k_t(), k_n() != k_r(), k_n() != k_i(), k_n() != k_rules(), k_n() != k_c(),
        k_t() != k_r(), k_t() != k_i(), k_t() != k_rules(), k_t() != k_c(),
        k_r() != k_i(), k_r() != k_rules(), k_r() != k_c(),
        k_i() != k_rules(), k_i() != k_c(),
        k_rules() != k_c(),
        k_id() != k_ts(), k_id() != k_ml(), k_id() != k_rt(),
        k_ts() != k_ml(), k_ts() != k_rt(),
        k_ml() != k_rt(),
        k_ni() != k_id(), k_ni() != k_ts(), k_ni() != k_ml(), k_ni() != k_rt(),
        k_mtu() != k_dns(), k_mtu() != k_coo(), k_mtu() != k_tag(),
        k_dns() != k_coo(), k_dns() != k_tag(),
        k_coo() != k_tag(),
        k_nwid() != k_ctmd(), k_nwid() != k_ssoe(), k_nwid() != k_ssov(), k_nwid() != k_aurl(),
        k_nwid() != k_iurl(), k_nwid() != k_sson(), k_nwid() != k_ssos(),
        k_ctmd() != k_ssoe(), k_ctmd() != k_ssov(), k_ctmd() != k_aurl(), k_ctmd() != k_iurl(),
        k_ctmd() != k_sson(), k_ctmd() != k_ssos(),
        k_ssoe() != k_ssov(), k_ssoe() != k_aurl(), k_ssoe() != k_iurl(), k_ssoe() != k_sson(),
        k_ssoe() != k_ssos(),
        k_ssov() != k_aurl(), k_ssov() != k_iurl(), k_ssov() != k_sson(), k_ssov() != k_ssos(),
        k_aurl() != k_iurl(), k_aurl() != k_sson(), k_aurl() != k_ssos(),
        k_iurl() != k_sson(), k_iurl() != k_ssos(),
        k_sson() != k_ssos(),
        k_ssoce() != k_aexpt(),
{
    lemma_seq_neq_at(k_n(), k_t(), 0);
    lemma_seq_neq_at(k_n(), k_r(), 0);
    lemma_seq_neq_at(k_n(), k_i(), 0);
    lemma_seq_neq_at(k_n(), k_rules(), 0);
    lemma_seq_neq_at(k_n(), k_c(), 0);
    lemma_seq_neq_at(k_t(), k_r(), 0);
    lemma_seq_neq_at(k_t(), k_i(), 0);
    lemma_seq_neq_at(k_t(), k_rules(), 0);
    lemma_seq_neq_at(k_t(), k_c(), 0);
    lemma_seq_neq_at(k_r(), k_i(), 0);
    lemma_seq_neq_at(k_r(), k_rules(), 0);
    lemma_seq_neq_at(k_r(), k_c(), 0);
    lemma_seq_neq_at(k_i(), k_rules(), 0);
    lemma_seq_neq_at(k_i(), k_c(), 0);
    lemma_seq_neq_at(k_rules(), k_c(), 0);
    lemma_seq_neq_at(k_id(), k_ts(), 0);
    lemma_seq_neq_at(k_id(), k_ml(), 0);
    lemma_seq_neq_at(k_id(), k_rt(), 0);
    lemma_seq_neq_at(k_ts(), k_ml(), 0);
    lemma_seq_neq_at(k_ts(), k_rt(), 0);
    lemma_seq_neq_at(k_ml(), k_rt(), 0);
    lemma_seq_neq_at(k_ni(), k_id(), 0);
    lemma_seq_neq_at(k_ni(), k_ts(), 0);
    lemma_seq_neq_at(k_ni(), k_ml(), 0);
    lemma_seq_neq_at(k_ni(), k_rt(), 0);
    lemma_seq_neq_at(k_mtu(), k_dns(), 0);
    lemma_seq_neq_at(k_mtu(), k_coo(), 0);
    lemma_seq_neq_at(k_mtu(), k_tag(), 0);
    lemma_seq_neq_at(k_dns(), k_coo(), 1);
    lemma_seq_neq_at(k_dns(), k_tag(), 0);
    lemma_seq_neq_at(k_coo(), k_tag(), 0);
    lemma_seq_neq_at(k_nwid(), k_ctmd(), 0);
    lemma_seq_neq_at(k_nwid(), k_ssoe(), 0);
    lemma_seq_neq_at(k_nwid(), k_ssov(), 0);
    lemma_seq_neq_at(k_nwid(), k_aurl(), 0);
    lemma_seq_neq_at(k_nwid(), k_iurl(), 0);
    lemma_seq_neq_at(k_nwid(), k_sson(), 0);
    lemma_seq_neq_at(k_nwid(), k_ssos(), 0);
    lemma_seq_neq_at(k_ctmd(), k_ssoe(), 0);
    lemma_seq_neq_at(k_ctmd(), k_ssov(), 0);
    lemma_seq_neq_at(k_ctmd(), k_aurl(), 0);
    lemma_seq_neq_at(k_ctmd(), k_iurl(), 0);
    lemma_seq_neq_at(k_ctmd(), k_sson(), 0);
    lemma_seq_neq_at(k_ctmd(), k_ssos(), 0);
    lemma_seq_neq_at(k_ssoe(), k_ssov(), 3);
    lemma_seq_neq_at(k_ssoe(), k_aurl(), 0);
    lemma_seq_neq_at(k_ssoe(), k_iurl(), 0);
    lemma_seq_neq_at(k_ssoe(), k_sson(), 3);
    lemma_seq_neq_at(k_ssoe(), k_ssos(), 3);
    lemma_seq_neq_at(k_ssov(), k_aurl(), 0);
    lemma_seq_neq_at(k_ssov(), k_iurl(), 0);
    lemma_seq_neq_at(k_ssov(), k_sson(), 3);
    lemma_seq_neq_at(k_ssov(), k_ssos(), 3);
    lemma_seq_neq_at(k_aurl(), k_iurl(), 0);
    lemma_seq_neq_at(k_aurl(), k_sson(), 0);
    lemma_seq_neq_at(k_aurl(), k_ssos(), 0);
    lemma_seq_neq_at(k_iurl(), k_sson(), 0);
    lemma_seq_neq_at(k_iurl(), k_ssos(), 0);
    lemma_seq_neq_at(k_sson(), k_ssos(), 3);
    lemma_seq_neq_at(k_ssoce(), k_aexpt(), 0);
}

impl NetworkConfig {
    /// Encode a network configuration for sending to V1 nodes. Fails exactly
    /// when the mandatory certificate of membership is absent or empty.
    #[verifier::rlimit(100)]
    pub fn v1_proto_to_dictionary(&self) -> (r: Option<Dictionary>)
        requires
            self.wf(),
        ensures
            match r {
                Some(d) => d.wf() && enc_describes(self@, d),
                None => !(self@.certificate_of_membership matches Some(m) && m.len() > 0),
            },
            (r is Some) == (self@.certificate_of_membership matches Some(m) && m.len() > 0),
    {
        let com_bytes = match &self.certificate_of_membership {
            None => {
                return None;
            },
            Some(c) => match c.to_bytes() {
                None => {
                    return None;
                },
                Some(v) => v,
            },
        };
        let mut d = Dictionary::new();
        proof {
            lemma_distinct_cfg_keys();
            crate::dictionary::lemma_key_safe4(0x6e, 0x77, 0x69, 0x64);
            crate::dictionary::lemma_key_safe1(0x6e);
            crate::dictionary::lemma_key_safe2(0x69, 0x64);
            crate::dictionary::lemma_key_safe1(0x74);
            crate::dictionary::lemma_key_safe2(0x74, 0x73);
            crate::dictionary::lemma_key_safe4(0x63, 0x74, 0x6d, 0x64);
            crate::dictionary::lemma_key_safe1(0x72);
            crate::dictionary::lemma_key_safe3(0x6d, 0x74, 0x75);
            crate::dictionary::lemma_key_safe2(0x6d, 0x6c);
            crate::dictionary::lemma_key_safe2(0x52, 0x54);
            crate::dictionary::lemma_key_safe1(0x49);
            crate::dictionary::lemma_key_safe1(0x52);
            crate::dictionary::lemma_key_safe3(0x44, 0x4e, 0x53);
            crate::dictionary::lemma_key_safe1(0x43);
            crate::dictionary::lemma_key_safe3(0x43, 0x4f, 0x4f);
            crate::dictionary::lemma_key_safe3(0x54, 0x41, 0x47);
            crate::dictionary::lemma_key_safe5(0x73, 0x73, 0x6f, 0x63, 0x65);
            crate::dictionary::lemma_key_safe4(0x73, 0x73, 0x6f, 0x65);
            crate::dictionary::lemma_key_safe4(0x73, 0x73, 0x6f, 0x76);
            crate::dictionary::lemma_key_safe4(0x61, 0x75, 0x72, 0x6c);
            crate::dictionary::lemma_key_safe5(0x61, 0x65, 0x78, 0x70, 0x74);
            crate::dictionary::lemma_key_safe4(0x69, 0x75, 0x72, 0x6c);
            crate::dictionary::lemma_key_safe4(0x73, 0x73, 0x6f, 0x6e);
            crate::dictionary::lemma_key_safe4(0x73, 0x73, 0x6f, 0x73);
            crate::dictionary::lemma_key_safe6(0x73, 0x73, 0x6f, 0x63, 0x69, 0x64);
        }
        d.set(&key4(0x6e, 0x77, 0x69, 0x64), u64_to_hex_fixed(self.network_id, 16));
        if self.name.len() > 0 {
            d.set(&key1(0x6e), self.name.clone());
        }
        d.set(&key2(0x69, 0x64), u64_to_hex_fixed(self.issued_to, 10));
        if self.private {
            d.set(&key1(0x74), key1(0x30));
        } else {
            d.set(&key1(0x74), key1(0x31));
        }
        d.set_u64(&key2(0x74, 0x73), i64_to_u64(self.timestamp));
        d.set_u64(&key4(0x63, 0x74, 0x6d, 0x64), i64_to_u64(self.max_delta));
        d.set_u64(&key1(0x72), self.revision);
        d.set_u64(&key3(0x6d, 0x74, 0x75), self.mtu as u64);
        d.set_u64(&key2(0x6d, 0x6c), self.multicast_limit as u64);
        if self.routes.len() > 0 {
            d.set(&key2(0x52, 0x54), IpRoute::marshal_multiple_to_bytes(&self.routes));
        }
        if self.static_ips.len() > 0 {
            d.set(&key1(0x49), InetAddress::marshal_multiple_to_bytes(&self.static_ips));
        }
        if self.rules.len() > 0 {
            match Rule::marshal_multiple_to_bytes(&self.rules) {
                Some(v) => {
                    d.set(&key1(0x52), v);
                },
                None => {
                    proof {
                        assert(false);
                    }
                },
            }
        }
        if self.dns.len() > 0 {
            proof {
                assert(dns_entry_wf(self@.dns[0]));
                assert(self@.dns[0] == self.dns@[0]@);
            }
            d.set(&key3(0x44, 0x4e, 0x53), encode_dns_blob(&self.dns[0]));
        }
        d.set(&key1(0x43), com_bytes);
        if self.certificates_of_ownership.len() > 0 {
            match CertificateOfOwnership::marshal_multiple_to_bytes(&self.certificates_of_ownership) {
                Some(v) => {
                    d.set(&key3(0x43, 0x4f, 0x4f), v);
                },
                None => {
                    proof {
                        assert(false);
                    }
                },
            }
        }
        if self.tags.len() > 0 {
            d.set(&key3(0x54, 0x41, 0x47), Tag::marshal_multiple_to_bytes(&self.tags));
        }
        if self.central_url.len() > 0 {
            d.set(&key5(0x73, 0x73, 0x6f, 0x63, 0x65), self.central_url.clone());
        }
        match &self.sso {
            Some(s) => {
                d.set_bool(&key4(0x73, 0x73, 0x6f, 0x65), true);
                d.set_u64(&key4(0x73, 0x73, 0x6f, 0x76), s.version as u64);
                d.set(&key4(0x61, 0x75, 0x72, 0x6c), s.authentication_url.clone());
                d.set_u64(
                    &key5(0x61, 0x65, 0x78, 0x70, 0x74),
                    i64_to_u64(s.authentication_expiry_time),
                );
                d.set(&key4(0x69, 0x75, 0x72, 0x6c), s.issuer_url.clone());
                d.set(&key4(0x73, 0x73, 0x6f, 0x6e), s.nonce.clone());
                d.set(&key4(0x73, 0x73, 0x6f, 0x73), s.state.clone());
                d.set(&key6(0x73, 0x73, 0x6f, 0x63, 0x69, 0x64), s.client_id.clone());
            },
            None => {
                d.set_bool(&key4(0x73, 0x73, 0x6f, 0x65), false);
            },
        }
        Some(d)
    }
}

/// What decoding a dictionary yields: the configuration, or nothing when a
/// required field is missing or a section is malformed.
pub open spec fn dec_spec(d: Dictionary) -> Option<NetworkConfigV> {
    let nwid_o = spec_get_u64(d, k_nwid());
    let id_o = spec_get_u64(d, k_id());
    let ts_o = spec_get_u64(d, k_ts());
    let id_v = match id_o {
        Some(x) => x,
        None => 0,
    };
    if nwid_o is None {
        None
    } else if id_o is None || id_v >= 0x100_0000_0000 {
        None
    } else if ts_o is None {
        None
    } else {
        match d.spec_get(k_c()) {
            None => None,
            Some(cm) => if cm.len() == 0 {
                None
            } else {
                let routes_o = match d.spec_get(k_rt()) {
                    None => Some(Seq::<IpRouteV>::empty()),
                    Some(bl) => routes_parse_from(bl, 0),
                };
                let ips_o = match d.spec_get(k_i()) {
                    None => Some(Seq::<InetAddressV>::empty()),
                    Some(bl) => inets_parse_from(bl, 0),
                };
                let rules_o = match d.spec_get(k_rules()) {
                    None => Some(Seq::<crate::credentials::RuleV>::empty()),
                    Some(bl) => rules_parse_from(bl, 0),
                };
                let coos_o = match d.spec_get(k_coo()) {
                    None => Some(Seq::<Seq<u8>>::empty()),
                    Some(bl) => coos_parse_from(bl, 0),
                };
                let tags_o = match d.spec_get(k_tag()) {
                    None => Some(Seq::<Tag>::empty()),
                    Some(bl) => tags_parse_from(bl, 0),
                };
                if routes_o is None || ips_o is None || rules_o is None || coos_o is None
                    || tags_o is None {
                    None
                } else {
                    Some(
                        NetworkConfigV {
                            network_id: match nwid_o {
                                Some(x) => x,
                                None => 0,
                            },
                            issued_to: id_v,
                            name: match d.spec_get(k_n()) {
                                Some(v) => v,
                                None => Seq::<u8>::empty(),
                            },
                            motd: Seq::<u8>::empty(),
                            private: match d.spec_get(k_t()) {
                                None => true,
                                Some(v) => v != seq![0x31u8],
                            },
                            timestamp: u64_to_i64_spec(
                                match ts_o {
                                    Some(x) => x,
                                    None => 0,
                                },
                            ),
                            max_delta: u64_to_i64_spec(
                                match spec_get_u64(d, k_ctmd()) {
                                    Some(x) => x,
                                    None => 0,
                                },
                            ),
                            revision: match spec_get_u64(d, k_r()) {
                                Some(x) => x,
                                None => 0,
                            },
                            mtu: match spec_get_u64(d, k_mtu()) {
                                Some(x) => (x & 0xffff) as u16,
                                None => VIRTUAL_NETWORK_DEFAULT_MTU,
                            },
                            multicast_limit: match spec_get_u64(d, k_ml()) {
                                Some(x) => (x & 0xffff_ffff) as u32,
                                None => 0,
                            },
                            routes: match routes_o {
                                Some(v) => v,
                                None => Seq::<IpRouteV>::empty(),
                            },
                            static_ips: match ips_o {
                                Some(v) => v,
                                None => Seq::<InetAddressV>::empty(),
                            },
                            rules: match rules_o {
                                Some(v) => v,
                                None => Seq::<crate::credentials::RuleV>::empty(),
                            },
                            dns: match d.spec_get(k_dns()) {
                                None => Seq::<DnsEntryV>::empty(),
                                Some(bl) => match dns_decode_spec(bl) {
                                    None => Seq::<DnsEntryV>::empty(),
                                    Some(e) => seq![e],
                                },
                            },
                            certificate_of_membership: Some(cm),
                            certificates_of_ownership: match coos_o {
                                Some(v) => v,
                                None => Seq::<Seq<u8>>::empty(),
                            },
                            tags: match tags_o {
                                Some(v) => v,
                                None => Seq::<Tag>::empty(),
                            },
                            banned: Seq::<u64>::empty(),
                            node_info: Seq::<(u64, NodeInfo)>::empty(),
                            central_url: match d.spec_get(k_ssoce()) {
                                Some(v) => v,
                                None => Seq::<u8>::empty(),
                            },
                            sso: if (match spec_get_bool(d, k_ssoe()) {
                                Some(b) => b,
                                None => false,
                            }) {
                                Some(
                                    SSOAuthConfigurationV {
                                        version: match spec_get_u64(d, k_ssov()) {
                                            Some(x) => (x & 0xffff_ffff) as u32,
                                            None => 0,
                                        },
                                        authentication_url: match d.spec_get(k_aurl()) {
                                            Some(v) => v,
                                            None => Seq::<u8>::empty(),
                                        },
                                        authentication_expiry_time: u64_to_i64_spec(
                                            match spec_get_u64(d, k_aexpt()) {
                                                Some(x) => x,
                                                None => 0,
                                            },
                                        ),
                                        issuer_url: match d.spec_get(k_iurl()) {
                                            Some(v) => v,
                                            None => Seq::<u8>::empty(),
                                        },
                                        nonce: match d.spec_get(k_sson()) {
                                            Some(v) => v,
                                            None => Seq::<u8>::empty(),
                                        },
                                        state: match d.spec_get(k_ssos()) {
                                            Some(v) => v,
                                            None => Seq::<u8>::empty(),
                                        },
                                        client_id: match d.spec_get(k_ssocid()) {
                                            Some(v) => v,
                                            None => Seq::<u8>::empty(),
                                        },
                                    },
                                )
                            } else {
                                None
                            },
                        },
                    )
                }
            },
        }
    }
}

impl NetworkConfig {
    /// Decode a V1 format network configuration.
    #[verifier::rlimit(100)]
    #[verifier::spinoff_prover]
    pub fn v1_proto_from_dictionary(d: &Dictionary) -> (r: Result<
        NetworkConfig,
        InvalidParameterError,
    >)
        ensures
            match r {
                Ok(c) => dec_spec(*d) == Some(c@) && c.wf(),
                Err(_) => dec_spec(*d) is None,
            },
    {
        let network_id = match d.get_u64(&key4(0x6e, 0x77, 0x69, 0x64)) {
            None => {
                return Err(InvalidParameterError("missing or invalid network ID"));
            },
            Some(x) => x,
        };
        let issued_to = match d.get_u64(&key2(0x69, 0x64)) {
            None => {
                return Err(InvalidParameterError("missing or invalid address"));
            },
            Some(x) => x,
        };
        if issued_to >= 0x100_0000_0000 {
            return Err(InvalidParameterError("invalid address"));
        }
        let ts = match d.get_u64(&key2(0x74, 0x73)) {
            None => {
                return Err(InvalidParameterError("missing timestamp"));
            },
            Some(x) => x,
        };
        let cm = match d.get(&key1(0x43)) {
            None => {
                return Err(InvalidParameterError("missing certificate of membership"));
            },
            Some(v) => v,
        };
        if cm.len() == 0 {
            return Err(InvalidParameterError("invalid certificate of membership"));
        }
        let routes: Vec<IpRoute> = match d.get(&key2(0x52, 0x54)) {
            None => Vec::new(),
            Some(bl) => match IpRoute::unmarshal_multiple_from_bytes(&bl) {
                None => {
                    return Err(InvalidParameterError("invalid route object(s)"));
                },
                Some(v) => v,
            },
        };
        let static_ips: Vec<InetAddress> = match d.get(&key1(0x49)) {
            None => Vec::new(),
            Some(bl) => match InetAddress::unmarshal_multiple_from_bytes(&bl) {
                None => {
                    return Err(InvalidParameterError("invalid static IP object(s)"));
                },
                Some(v) => v,
            },
        };
        let rules: Vec<Rule> = match d.get(&key1(0x52)) {
            None => Vec::new(),
            Some(bl) => match Rule::unmarshal_multiple_from_bytes(&bl) {
                None => {
                    return Err(InvalidParameterError("invalid rule object(s)"));
                },
                Some(v) => v,
            },
        };
        let coos: Vec<CertificateOfOwnership> = match d.get(&key3(0x43, 0x4f, 0x4f)) {
            None => Vec::new(),
            Some(bl) => match CertificateOfOwnership::unmarshal_multiple_from_bytes(&bl) {
                None => {
                    return Err(InvalidParameterError("invalid certificate of ownership"));
                },
                Some(v) => v,
            },
        };
        let tags: Vec<Tag> = match d.get(&key3(0x54, 0x41, 0x47)) {
            None => Vec::new(),
            Some(bl) => match Tag::unmarshal_multiple_from_bytes(&bl) {
                None => {
                    return Err(InvalidParameterError("invalid tag object"));
                },
                Some(v) => v,
            },
        };
        let mut dns: Vec<DnsEntry> = Vec::new();
        match d.get(&key3(0x44, 0x4e, 0x53)) {
            None => {},
            Some(bl) => match decode_dns_blob(&bl) {
                None => {},
                Some(e) => {
                    dns.push(e);
                },
            },
        }
        let name = match d.get(&key1(0x6e)) {
            Some(v) => v,
            None => Vec::new(),
        };
        let private = match d.get(&key1(0x74)) {
            None => true,
            Some(v) => {
                let is_one = v.len() == 1 && v[0] == 0x31;
                proof {
                    if is_one {
                        assert(v@ =~= seq![0x31u8]);
                    } else if v@ == seq![0x31u8] {
                        assert(v@.len() == 1 && v@[0] == 0x31);
                    }
                }
                !is_one
            },
        };
        let max_delta_u = match d.get_u64(&key4(0x63, 0x74, 0x6d, 0x64)) {
            Some(x) => x,
            None => 0,
        };
        let revision = match d.get_u64(&key1(0x72)) {
            Some(x) => x,
            None => 0,
        };
        let mtu: u16 = match d.get_u64(&key3(0x6d, 0x74, 0x75)) {
            Some(x) => (x & 0xffff) as u16,
            None => VIRTUAL_NETWORK_DEFAULT_MTU,
        };
        let multicast_limit: u32 = match d.get_u64(&key2(0x6d, 0x6c)) {
            Some(x) => (x & 0xffff_ffff) as u32,
            None => 0,
        };
        let central_url = match d.get(&key5(0x73, 0x73, 0x6f, 0x63, 0x65)) {
            Some(v) => v,
            None => Vec::new(),
        };
        let sso_enabled = match d.get_bool(&key4(0x73, 0x73, 0x6f, 0x65)) {
            Some(b) => b,
            None => false,
        };
        let sso = if sso_enabled {
            Some(
                SSOAuthConfiguration {
                    version: match d.get_u64(&key4(0x73, 0x73, 0x6f, 0x76)) {
                        Some(x) => (x & 0xffff_ffff) as u32,
                        None => 0,
                    },
                    authentication_url: match d.get(&key4(0x61, 0x75, 0x72, 0x6c)) {
                        Some(v) => v,
                        None => Vec::new(),
                    },
                    authentication_expiry_time: u64_to_i64(
                        match d.get_u64(&key5(0x61, 0x65, 0x78, 0x70, 0x74)) {
                            Some(x) => x,
                            None => 0,
                        },
                    ),
                    issuer_url: match d.get(&key4(0x69, 0x75, 0x72, 0x6c)) {
                        Some(v) => v,
                        None => Vec::new(),
                    },
                    nonce: match d.get(&key4(0x73, 0x73, 0x6f, 0x6e)) {
                        Some(v) => v,
                        None => Vec::new(),
                    },
                    state: match d.get(&key4(0x73, 0x73, 0x6f, 0x73)) {
                        Some(v) => v,
                        None => Vec::new(),
                    },
                    client_id: match d.get(&key6(0x73, 0x73, 0x6f, 0x63, 0x69, 0x64)) {
                        Some(v) => v,
                        None => Vec::new(),
                    },
                },
            )
        } else {
            None
        };
        let c = NetworkConfig {
            network_id,
            issued_to,
            name,
            motd: Vec::new(),
            private,
            timestamp: u64_to_i64(ts),
            max_delta: u64_to_i64(max_delta_u),
            revision,
            mtu,
            multicast_limit,
            routes,
            static_ips,
            rules,
            dns,
            certificate_of_membership: Some(CertificateOfMembership { raw: cm }),
            certificates_of_ownership: coos,
            tags,
            banned: Vec::new(),
            node_info: Vec::new(),
            central_url,
            sso,
        };
        proof {
            assert(dec_spec(*d) is Some);
            let spec_c = match dec_spec(*d) {
                Some(x) => x,
                None => c@,
            };
            if dns@.len() == 0 {
                assert(dns_list_view(dns@) =~= Seq::<DnsEntryV>::empty());
            } else {
                assert(dns_list_view(dns@) =~= seq![dns@[0]@]);
            }
            assert(c@.network_id == spec_c.network_id);
            assert(c@.issued_to == spec_c.issued_to);
            assert(c@.name == spec_c.name);
            assert(c@.motd =~= spec_c.motd);
            assert(c@.private == spec_c.private);
            assert(c@.timestamp == spec_c.timestamp);
            assert(c@.max_delta == spec_c.max_delta);
            assert(c@.revision == spec_c.revision);
            assert(c@.mtu == spec_c.mtu);
            assert(c@.multicast_limit == spec_c.multicast_limit);
            assert(c@.routes == spec_c.routes);
            assert(c@.static_ips == spec_c.static_ips);
            assert(c@.rules == spec_c.rules);
            assert(c@.dns == spec_c.dns);
            assert(c@.certificate_of_membership == spec_c.certificate_of_membership);
            assert(c@.certificates_of_ownership == spec_c.certificates_of_ownership);
            assert(c@.tags == spec_c.tags);
            assert(c@.banned =~= spec_c.banned);
            assert(c@.node_info =~= spec_c.node_info);
            assert(c@.central_url == spec_c.central_url);
            assert(c@.sso == spec_c.sso);
            assert(c@ =~= spec_c);
        }
        Ok(c)
    }
}

/// Encoding a configuration for the V1 wire and decoding it back restores
/// it, up to what the V1 wire does not carry: the ban list, the per-node
/// information map, and the message of the day come back empty, and the DNS
/// map collapses to its single encodable entry.
#[verifier::rlimit(100)]
pub proof fn lemma_v1_proto_round_trip(c: NetworkConfigV, d: Dictionary)
    requires
        config_wf_v(c),
        c.certificate_of_membership matches Some(m) && m.len() > 0,
        c.dns.len() <= 1,
        c.dns.len() == 1 ==> {
            &&& 1 <= c.dns[0].name.len() <= 127
            &&& forall|i: int| 0 <= i < c.dns[0].name.len() ==> c.dns[0].name[i] != 0
            &&& c.dns[0].servers.len() >= 1
            &&& dns_blob_spec(c.dns[0]).len() < 1024
        },
        enc_describes(c, d),
    ensures
        match dec_spec(d) {
            Some(c2) => {
                &&& c2.network_id == c.network_id
                &&& c2.issued_to == c.issued_to
                &&& c2.name == c.name
                &&& c2.motd.len() == 0
                &&& c2.private == c.private
                &&& c2.timestamp == c.timestamp
                &&& c2.max_delta == c.max_delta
                &&& c2.revision == c.revision
                &&& c2.mtu == c.mtu
                &&& c2.multicast_limit == c.multicast_limit
                &&& c2.routes == c.routes
                &&& c2.static_ips == c.static_ips
                &&& c2.rules == c.rules
                &&& c2.dns == c.dns
                &&& c2.certificate_of_membership == c.certificate_of_membership
                &&& c2.certificates_of_ownership == c.certificates_of_ownership
                &&& c2.tags == c.tags
                &&& c2.banned.len() == 0
                &&& c2.node_info.len() == 0
                &&& c2.central_url == c.central_url
                &&& match (c2.sso, c.sso) {
                    (Some(s2), Some(s)) => s2 == s,
                    (None, None) => true,
                    _ => false,
                }
            },
            None => false,
        },
{
    lemma_pow16_16();
    crate::util::lemma_pow16_10();
    lemma_hex_fixed_roundtrip(c.network_id, 16);
    lemma_hex_fixed_roundtrip(c.issued_to, 10);
    lemma_hex_min_roundtrip(i64_to_u64_spec(c.timestamp));
    crate::dictionary::lemma_i64_u64_roundtrip(c.timestamp);
    lemma_hex_min_roundtrip(i64_to_u64_spec(c.max_delta));
    crate::dictionary::lemma_i64_u64_roundtrip(c.max_delta);
    lemma_hex_min_roundtrip(c.revision);
    lemma_hex_min_roundtrip(c.mtu as u64);
    lemma_hex_min_roundtrip(c.multicast_limit as u64);
    let mtuv = c.mtu;
    assert((((mtuv as u64) & 0xffff) as u16) == mtuv) by (bit_vector);
    let mlv = c.multicast_limit;
    assert((((mlv as u64) & 0xffff_ffff) as u32) == mlv) by (bit_vector);
    if c.routes.len() > 0 {
        let bl = routes_bytes_spec(c.routes);
        assert(bl.subrange(0, bl.len() as int) =~= bl);
        lemma_routes_roundtrip(c.routes, bl, 0);
    } else {
        assert(routes_bytes_spec(c.routes) =~= Seq::<u8>::empty());
    }
    if c.static_ips.len() > 0 {
        let bl = inets_bytes_spec(c.static_ips);
        assert(bl.subrange(0, bl.len() as int) =~= bl);
        crate::inet::lemma_inets_roundtrip(c.static_ips, bl, 0);
    }
    if c.rules.len() > 0 {
        let bl = rules_bytes_spec(c.rules);
        assert(bl.subrange(0, bl.len() as int) =~= bl);
        crate::credentials::lemma_rules_roundtrip(c.rules, bl, 0);
    }
    if c.certificates_of_ownership.len() > 0 {
        let bl = coos_bytes_spec(c.certificates_of_ownership);
        assert(bl.subrange(0, bl.len() as int) =~= bl);
        crate::credentials::lemma_coos_roundtrip(c.certificates_of_ownership, bl, 0);
    }
    if c.tags.len() > 0 {
        let bl = tags_bytes_spec(c.tags);
        assert(bl.subrange(0, bl.len() as int) =~= bl);
        crate::credentials::lemma_tags_roundtrip(c.tags, bl, 0);
    }
    if c.dns.len() == 1 {
        lemma_dns_roundtrip(c.dns[0]);
        assert(seq![c.dns[0]] =~= c.dns);
    } else {
        assert(c.dns =~= Seq::<DnsEntryV>::empty());
    }
    match c.sso {
        Some(s) => {
            lemma_hex_min_roundtrip(s.version as u64);
            let sv = s.version;
            assert((((sv as u64) & 0xffff_ffff) as u32) == sv) by (bit_vector);
            lemma_hex_min_roundtrip(i64_to_u64_spec(s.authentication_expiry_time));
            crate::dictionary::lemma_i64_u64_roundtrip(s.authentication_expiry_time);
        },
        None => {},
    }
}

} // verus!
