use vstd::prelude::*;

use crate::util::{append_bytes, be16, be16_spec, be32, be32_spec, sub_vec, u16_from_be,
    u16_from_be_spec, u32_from_be_spec, lemma_be16_roundtrip, lemma_be32_roundtrip,
    lemma_subrange_split};

verus! {

// ---------------------------------------------------------------------------
// Credentials carried by a network configuration. They are produced and
// checked elsewhere; here they are opaque signed blobs with self-delimiting
// wire forms, enough for the configuration codec to carry them faithfully.
// ---------------------------------------------------------------------------

/// The mandatory certificate of membership. An empty one is invalid.
#[derive(Clone, PartialEq, Eq, Debug)]
pub struct CertificateOfMembership {
    pub raw: Vec<u8>,
}

impl View for CertificateOfMembership {
    type V = Seq<u8>;

    open spec fn view(&self) -> Seq<u8> {
        self.raw@
    }
}

impl CertificateOfMembership {
    /// The certificate's own bytes; nothing for an empty (invalid) one.
    pub fn to_bytes(&self) -> (r: Option<Vec<u8>>)
        ensures
            match r {
                Some(v) => v@ == self@ && self@.len() > 0,
                None => self@.len() == 0,
            },
    {
        if self.raw.len() == 0 {
            None
        } else {
            Some(self.raw.clone())
        }
    }

    /// Read a certificate back; an empty blob is rejected.
    pub fn v1_proto_from_bytes(b: &Vec<u8>) -> (r: Option<CertificateOfMembership>)
        ensures
            match r {
                Some(c) => c@ == b@ && b@.len() > 0,
                None => b@.len() == 0,
            },
    {
        if b.len() == 0 {
            None
        } else {
            Some(CertificateOfMembership { raw: b.clone() })
        }
    }
}

// ---------------------------------------------------------------------------
// Certificates of ownership: opaque blobs, length-prefixed on the wire.
// ---------------------------------------------------------------------------

#[derive(Clone, PartialEq, Eq, Debug)]
pub struct CertificateOfOwnership {
    pub raw: Vec<u8>,
}

impl View for CertificateOfOwnership {
    type V = Seq<u8>;

    open spec fn view(&self) -> Seq<u8> {
        self.raw@
    }
}

pub open spec fn coo_wf(v: Seq<u8>) -> bool {
    v.len() <= 0xffff
}

pub open spec fn coo_bytes_spec(v: Seq<u8>) -> Seq<u8> {
    be16_spec(v.len() as u16) + v
}

pub open spec fn coo_unmarshal_spec(b: Seq<u8>, pos: int) -> Option<(Seq<u8>, int)> {
    if pos < 0 || pos + 2 > b.len() {
        None
    } else {
        let l = u16_from_be_spec(b[pos], b[pos + 1]) as int;
        if pos + 2 + l <= b.len() {
            Some((b.subrange(pos + 2, pos + 2 + l), pos + 2 + l))
        } else {
            None
        }
    }
}

pub proof fn lemma_coo_roundtrip(v: Seq<u8>, b: Seq<u8>, pos: int)
    requires
        coo_wf(v),
        0 <= pos,
        pos + coo_bytes_spec(v).len() <= b.len(),
        b.subrange(pos, pos + coo_bytes_spec(v).len() as int) == coo_bytes_spec(v),
    ensures
        coo_unmarshal_spec(b, pos) == Some((v, pos + coo_bytes_spec(v).len() as int)),
{
    let e = coo_bytes_spec(v);
    let sub = b.subrange(pos, pos + e.len() as int);
    assert forall|i: int| 0 <= i < e.len() implies b[pos + i] == e[i] by {
        assert(sub[i] == b[pos + i]);
        assert(sub[i] == e[i]);
    }
    assert(b[pos + 0] == e[0]);
    assert(b[pos + 1] == e[1]);
    assert(e[0] == be16_spec(v.len() as u16)[0]);
    assert(e[1] == be16_spec(v.len() as u16)[1]);
    lemma_be16_roundtrip(v.len() as u16);
    assert(u16_from_be_spec(b[pos], b[pos + 1]) == v.len());
    assert forall|i: int| 0 <= i < v.len() implies b[pos + 2 + i] == v[i] by {
        assert(e[2 + i] == v[i]);
        assert(b[pos + (2 + i)] == e[2 + i]);
    }
    assert(b.subrange(pos + 2, pos + 2 + v.len() as int) =~= v);
}

pub open spec fn coos_view(s: Seq<CertificateOfOwnership>) -> Seq<Seq<u8>> {
    Seq::new(s.len(), |i: int| s[i]@)
}

pub open spec fn coos_wf(s: Seq<Seq<u8>>) -> bool {
    forall|i: int| 0 <= i < s.len() ==> coo_wf(#[trigger] s[i])
}

pub open spec fn coos_bytes_spec(s: Seq<Seq<u8>>) -> Seq<u8>
    decreases s.len(),
{
    if s.len() == 0 {
        Seq::empty()
    } else {
        coo_bytes_spec(s[0]) + coos_bytes_spec(s.drop_first())
    }
}

pub proof fn lemma_coos_bytes_snoc(s: Seq<Seq<u8>>, e: Seq<u8>)
    ensures
        coos_bytes_spec(s.push(e)) == coos_bytes_spec(s) + coo_bytes_spec(e),
    decreases s.len(),
{
    if s.len() == 0 {
        assert(s.push(e)[0] == e);
        assert(s.push(e).drop_first() =~= Seq::<Seq<u8>>::empty());
        assert(coos_bytes_spec(Seq::<Seq<u8>>::empty()) =~= Seq::<u8>::empty());
        assert(coos_bytes_spec(s.push(e)) =~= coos_bytes_spec(s) + coo_bytes_spec(e));
    } else {
        assert(s.push(e)[0] == s[0]);
        assert(s.push(e).drop_first() =~= s.drop_first().push(e));
        lemma_coos_bytes_snoc(s.drop_first(), e);
        assert(coo_bytes_spec(s[0]) + (coos_bytes_spec(s.drop_first()) + coo_bytes_spec(e))
            =~= (coo_bytes_spec(s[0]) + coos_bytes_spec(s.drop_first())) + coo_bytes_spec(e));
    }
}

pub open spec fn coos_parse_from(b: Seq<u8>, pos: int) -> Option<Seq<Seq<u8>>>
    decreases b.len() - pos,
    when 0 <= pos <= b.len()
{
    if pos == b.len() {
        Some(Seq::<Seq<u8>>::empty())
    } else {
        match coo_unmarshal_spec(b, pos) {
            None => None,
            Some((v, c)) => if pos < c <= b.len() {
                match coos_parse_from(b, c) {
                    None => None,
                    Some(rest) => Some(seq![v] + rest),
                }
            } else {
                None
            },
        }
    }
}

pub proof fn lemma_coos_roundtrip(s: Seq<Seq<u8>>, b: Seq<u8>, pos: int)
    requires
        coos_wf(s),
        0 <= pos <= b.len(),
        b.subrange(pos, b.len() as int) == coos_bytes_spec(s),
    ensures
        coos_parse_from(b, pos) == Some(s),
    decreases s.len(),
{
    if s.len() == 0 {
        assert(coos_bytes_spec(s) =~= Seq::<u8>::empty());
        assert(b.subrange(pos, b.len() as int).len() == 0);
        assert(pos == b.len());
    } else {
        let e = coo_bytes_spec(s[0]);
        let rest = coos_bytes_spec(s.drop_first());
        lemma_subrange_split(b, pos, b.len() as int, e, rest);
        lemma_coo_roundtrip(s[0], b, pos);
        let c = pos + e.len() as int;
        assert(coos_wf(s.drop_first())) by {
            assert(forall|i: int|
                0 <= i < s.drop_first().len() ==> #[trigger] s.drop_first()[i] == s[i + 1]);
        }
        lemma_coos_roundtrip(s.drop_first(), b, c);
        assert(seq![s[0]] + s.drop_first() =~= s);
    }
}

impl CertificateOfOwnership {
    /// The length-prefixed wire form of this certificate.
    pub fn v1_proto_to_bytes(&self) -> (r: Option<Vec<u8>>)
        ensures
            match r {
                Some(v) => v@ == coo_bytes_spec(self@) && coo_wf(self@),
                None => !coo_wf(self@),
            },
    {
        if self.raw.len() > 0xffff {
            return None;
        }
        let mut out = be16(self.raw.len() as u16);
        append_bytes(&mut out, &self.raw);
        Some(out)
    }

    /// Concatenate the wire forms of a list of certificates.
    pub fn marshal_multiple_to_bytes(list: &Vec<CertificateOfOwnership>) -> (r: Option<Vec<u8>>)
        ensures
            match r {
                Some(v) => v@ == coos_bytes_spec(coos_view(list@)) && coos_wf(coos_view(list@)),
                None => !coos_wf(coos_view(list@)),
            },
    {
        let mut out: Vec<u8> = Vec::new();
        let mut i: usize = 0;
        proof {
            assert(coos_view(list@.take(0)) =~= Seq::<Seq<u8>>::empty());
        }
        while i < list.len()
            invariant
                i <= list@.len(),
                out@ == coos_bytes_spec(coos_view(list@.take(i as int))),
                coos_wf(coos_view(list@.take(i as int))),
            decreases list@.len() - i,
        {
            match list[i].v1_proto_to_bytes() {
                None => {
                    proof {
                        assert(coos_view(list@)[i as int] == list@[i as int]@);
                    }
                    return None;
                },
                Some(v) => {
                    append_bytes(&mut out, &v);
                    proof {
                        lemma_coos_bytes_snoc(coos_view(list@.take(i as int)), list@[i as int]@);
                        assert(coos_view(list@.take(i as int + 1))
                            =~= coos_view(list@.take(i as int)).push(list@[i as int]@));
                    }
                },
            }
            i = i + 1;
        }
        proof {
            assert(coos_view(list@.take(list@.len() as int)) =~= coos_view(list@));
        }
        Some(out)
    }

    /// Parse a whole buffer as a list of certificates.
    pub fn unmarshal_multiple_from_bytes(b: &Vec<u8>) -> (r: Option<Vec<CertificateOfOwnership>>)
        ensures
            match r {
                Some(v) => coos_parse_from(b@, 0) == Some(coos_view(v@)) && coos_wf(
                    coos_view(v@),
                ),
                None => coos_parse_from(b@, 0) is None,
            },
    {
        let mut acc: Vec<CertificateOfOwnership> = Vec::new();
        let mut cursor: usize = 0;
        proof {
            assert(coos_view(acc@) =~= Seq::<Seq<u8>>::empty());
        }
        while cursor < b.len()
            invariant
                0 <= cursor <= b@.len(),
                coos_wf(coos_view(acc@)),
                forall|rest: Seq<Seq<u8>>|
                    coos_parse_from(b@, cursor as int) == Some(rest) ==> coos_parse_from(b@, 0)
                        == Some(coos_view(acc@) + rest),
                coos_parse_from(b@, cursor as int) is None ==> coos_parse_from(b@, 0) is None,
            decreases b@.len() - cursor,
        {
            let ghost c0 = cursor as int;
            let ghost acc0 = acc@;
            if b.len() - cursor < 2 {
                return None;
            }
            let l = u16_from_be(b[cursor], b[cursor + 1]) as usize;
            if b.len() - cursor - 2 < l {
                return None;
            }
            let v = sub_vec(b, cursor + 2, cursor + 2 + l);
            cursor = cursor + 2 + l;
            proof {
                assert(coo_unmarshal_spec(b@, c0) == Some((v@, cursor as int)));
            }
            acc.push(CertificateOfOwnership { raw: v });
            proof {
                assert(coos_view(acc@) =~= coos_view(acc0).push(acc@.last()@));
                assert forall|rest: Seq<Seq<u8>>|
                    coos_parse_from(b@, cursor as int) == Some(rest) implies coos_parse_from(b@, 0)
                    == Some(coos_view(acc@) + rest) by {
                    assert(coos_parse_from(b@, c0) == Some(seq![acc@.last()@] + rest));
                    assert(coos_view(acc0) + (seq![acc@.last()@] + rest)
                        =~= coos_view(acc@) + rest);
                }
                if coos_parse_from(b@, cursor as int) is None {
                    assert(coos_parse_from(b@, c0) is None);
                }
            }
        }
        proof {
            assert(coos_parse_from(b@, cursor as int) == Some(Seq::<Seq<u8>>::empty()));
            assert(coos_view(acc@) + Seq::<Seq<u8>>::empty() =~= coos_view(acc@));
        }
        Some(acc)
    }
}

// ---------------------------------------------------------------------------
// Tags: a small credential carrying an identifier and a value; fixed eight
// bytes on the wire, big-endian.
// ---------------------------------------------------------------------------

#[derive(Clone, Copy, PartialEq, Eq, Structural, Debug)]
pub struct Tag {
    pub id: u32,
    pub value: u32,
}

pub open spec fn tag_bytes_spec(t: Tag) -> Seq<u8> {
    be32_spec(t.id) + be32_spec(t.value)
}

pub open spec fn tag_unmarshal_spec(b: Seq<u8>, pos: int) -> Option<(Tag, int)> {
    if pos < 0 || pos + 8 > b.len() {
        None
    } else {
        Some((
            Tag {
                id: u32_from_be_spec(b.subrange(pos, pos + 4)),
                value: u32_from_be_spec(b.subrange(pos + 4, pos + 8)),
            },
            pos + 8,
        ))
    }
}

pub proof fn lemma_tag_roundtrip(t: Tag, b: Seq<u8>, pos: int)
    requires
        0 <= pos,
        pos + 8 <= b.len(),
        b.subrange(pos, pos + 8) == tag_bytes_spec(t),
    ensures
        tag_unmarshal_spec(b, pos) == Some((t, pos + 8)),
{
    let e = tag_bytes_spec(t);
    let sub = b.subrange(pos, pos + 8);
    assert forall|i: int| 0 <= i < 8 implies b[pos + i] == e[i] by {
        assert(sub[i] == b[pos + i]);
        assert(sub[i] == e[i]);
    }
    assert(b.subrange(pos, pos + 4) =~= be32_spec(t.id)) by {
        assert forall|i: int| 0 <= i < 4 implies b.subrange(pos, pos + 4)[i]
            == be32_spec(t.id)[i] by {
            assert(e[i] == be32_spec(t.id)[i]);
            assert(b.subrange(pos, pos + 4)[i] == b[pos + i]);
        }
    }
    assert(b.subrange(pos + 4, pos + 8) =~= be32_spec(t.value)) by {
        assert forall|i: int| 0 <= i < 4 implies b.subrange(pos + 4, pos + 8)[i]
            == be32_spec(t.value)[i] by {
            assert(e[4 + i] == be32_spec(t.value)[i]);
            assert(b.subrange(pos + 4, pos + 8)[i] == b[pos + (4 + i)]);
        }
    }
    lemma_be32_roundtrip(t.id);
    lemma_be32_roundtrip(t.value);
}

pub open spec fn tags_bytes_spec(s: Seq<Tag>) -> Seq<u8>
    decreases s.len(),
{
    if s.len() == 0 {
        Seq::empty()
    } else {
        tag_bytes_spec(s[0]) + tags_bytes_spec(s.drop_first())
    }
}

pub proof fn lemma_tags_bytes_snoc(s: Seq<Tag>, e: Tag)
    ensures
        tags_bytes_spec(s.push(e)) == tags_bytes_spec(s) + tag_bytes_spec(e),
    decreases s.len(),
{
    if s.len() == 0 {
        assert(s.push(e)[0] == e);
        assert(s.push(e).drop_first() =~= Seq::<Tag>::empty());
        assert(tags_bytes_spec(Seq::<Tag>::empty()) =~= Seq::<u8>::empty());
        assert(tags_bytes_spec(s.push(e)) =~= tags_bytes_spec(s) + tag_bytes_spec(e));
    } else {
        assert(s.push(e)[0] == s[0]);
        assert(s.push(e).drop_first() =~= s.drop_first().push(e));
        lemma_tags_bytes_snoc(s.drop_first(), e);
        assert(tag_bytes_spec(s[0]) + (tags_bytes_spec(s.drop_first()) + tag_bytes_spec(e))
            =~= (tag_bytes_spec(s[0]) + tags_bytes_spec(s.drop_first())) + tag_bytes_spec(e));
    }
}

pub open spec fn tags_parse_from(b: Seq<u8>, pos: int) -> Option<Seq<Tag>>
    decreases b.len() - pos,
    when 0 <= pos <= b.len()
{
    if pos == b.len() {
        Some(Seq::<Tag>::empty())
    } else {
        match tag_unmarshal_spec(b, pos) {
            None => None,
            Some((t, c)) => if pos < c <= b.len() {
                match tags_parse_from(b, c) {
                    None => None,
                    Some(rest) => Some(seq![t] + rest),
                }
            } else {
                None
            },
        }
    }
}

pub proof fn lemma_tags_roundtrip(s: Seq<Tag>, b: Seq<u8>, pos: int)
    requires
        0 <= pos <= b.len(),
        b.subrange(pos, b.len() as int) == tags_bytes_spec(s),
    ensures
        tags_parse_from(b, pos) == Some(s),
    decreases s.len(),
{
    if s.len() == 0 {
        assert(tags_bytes_spec(s) =~= Seq::<u8>::empty());
        assert(b.subrange(pos, b.len() as int).len() == 0);
        assert(pos == b.len());
    } else {
        let e = tag_bytes_spec(s[0]);
        let rest = tags_bytes_spec(s.drop_first());
        lemma_subrange_split(b, pos, b.len() as int, e, rest);
        lemma_tag_roundtrip(s[0], b, pos);
        lemma_tags_roundtrip(s.drop_first(), b, pos + 8);
        assert(seq![s[0]] + s.drop_first() =~= s);
    }
}

impl Tag {
    /// The fixed eight-byte wire form of this tag.
    pub fn v1_proto_to_bytes(&self) -> (r: Vec<u8>)
        ensures
            r@ == tag_bytes_spec(*self),
    {
        let mut out = be32(self.id);
        let v = be32(self.value);
        append_bytes(&mut out, &v);
        out
    }

    /// Concatenate the wire forms of a list of tags.
    pub fn marshal_multiple_to_bytes(list: &Vec<Tag>) -> (r: Vec<u8>)
        ensures
            r@ == tags_bytes_spec(list@),
    {
        let mut out: Vec<u8> = Vec::new();
        let mut i: usize = 0;
        proof {
            assert(list@.take(0) =~= Seq::<Tag>::empty());
        }
        while i < list.len()
            invariant
                i <= list@.len(),
                out@ == tags_bytes_spec(list@.take(i as int)),
            decreases list@.len() - i,
        {
            let v = list[i].v1_proto_to_bytes();
            append_bytes(&mut out, &v);
            proof {
                lemma_tags_bytes_snoc(list@.take(i as int), list@[i as int]);
                assert(list@.take(i as int + 1) =~= list@.take(i as int).push(list@[i as int]));
            }
            i = i + 1;
        }
        proof {
            assert(list@.take(list@.len() as int) =~= list@);
        }
        out
    }

    /// Parse a whole buffer as a list of tags.
    pub fn unmarshal_multiple_from_bytes(b: &Vec<u8>) -> (r: Option<Vec<Tag>>)
        ensures
            match r {
                Some(v) => tags_parse_from(b@, 0) == Some(v@),
                None => tags_parse_from(b@, 0) is None,
            },
    {
        let mut acc: Vec<Tag> = Vec::new();
        let mut cursor: usize = 0;
        proof {
            assert(acc@ =~= Seq::<Tag>::empty());
        }
        while cursor < b.len()
            invariant
                0 <= cursor <= b@.len(),
                forall|rest: Seq<Tag>|
                    tags_parse_from(b@, cursor as int) == Some(rest) ==> tags_parse_from(b@, 0)
                        == Some(acc@ + rest),
                tags_parse_from(b@, cursor as int) is None ==> tags_parse_from(b@, 0) is None,
            decreases b@.len() - cursor,
        {
            let ghost c0 = cursor as int;
            let ghost acc0 = acc@;
            if b.len() - cursor < 8 {
                return None;
            }
            let idb = sub_vec(b, cursor, cursor + 4);
            let vb = sub_vec(b, cursor + 4, cursor + 8);
            let id = crate::util::u32_from_be(&idb);
            let value = crate::util::u32_from_be(&vb);
            let t = Tag { id, value };
            cursor = cursor + 8;
            proof {
                assert(tag_unmarshal_spec(b@, c0) == Some((t, cursor as int)));
            }
            acc.push(t);
            proof {
                assert(acc@ =~= acc0.push(t));
                assert forall|rest: Seq<Tag>|
                    tags_parse_from(b@, cursor as int) == Some(rest) implies tags_parse_from(b@, 0)
                    == Some(acc@ + rest) by {
                    assert(tags_parse_from(b@, c0) == Some(seq![t] + rest));
                    assert(acc0 + (seq![t] + rest) =~= acc@ + rest);
                }
                if tags_parse_from(b@, cursor as int) is None {
                    assert(tags_parse_from(b@, c0) is None);
                }
            }
        }
        proof {
            assert(tags_parse_from(b@, cursor as int) == Some(Seq::<Tag>::empty()));
            assert(acc@ + Seq::<Tag>::empty() =~= acc@);
        }
        Some(acc)
    }
}

// ---------------------------------------------------------------------------
// Filter rules: a type byte, a length byte, and the rule body.
// ---------------------------------------------------------------------------

pub ghost struct RuleV {
    pub t: u8,
    pub data: Seq<u8>,
}

#[derive(Clone, PartialEq, Eq, Debug)]
pub struct Rule {
    pub t: u8,
    pub data: Vec<u8>,
}

impl View for Rule {
    type V = RuleV;

    open spec fn view(&self) -> RuleV {
        RuleV { t: self.t, data: self.data@ }
    }
}

pub open spec fn rule_wf(r: RuleV) -> bool {
    r.data.len() <= 255
}

pub open spec fn rule_bytes_spec(r: RuleV) -> Seq<u8> {
    seq![r.t, r.data.len() as u8] + r.data
}

pub open spec fn rule_unmarshal_spec(b: Seq<u8>, pos: int) -> Option<(RuleV, int)> {
    if pos < 0 || pos + 2 > b.len() {
        None
    } else {
        let l = b[pos + 1] as int;
        if pos + 2 + l <= b.len() {
            Some((RuleV { t: b[pos], data: b.subrange(pos + 2, pos + 2 + l) }, pos + 2 + l))
        } else {
            None
        }
    }
}

pub proof fn lemma_rule_roundtrip(r: RuleV, b: Seq<u8>, pos: int)
    requires
        rule_wf(r),
        0 <= pos,
        pos + rule_bytes_spec(r).len() <= b.len(),
        b.subrange(pos, pos + rule_bytes_spec(r).len() as int) == rule_bytes_spec(r),
    ensures
        rule_unmarshal_spec(b, pos) == Some((r, pos + rule_bytes_spec(r).len() as int)),
{
    let e = rule_bytes_spec(r);
    let sub = b.subrange(pos, pos + e.len() as int);
    assert forall|i: int| 0 <= i < e.len() implies b[pos + i] == e[i] by {
        assert(sub[i] == b[pos + i]);
        assert(sub[i] == e[i]);
    }
    assert(b[pos + 0] == e[0]);
    assert(b[pos + 1] == e[1]);
    assert(e[1] == r.data.len() as u8);
    assert forall|i: int| 0 <= i < r.data.len() implies b[pos + 2 + i] == r.data[i] by {
        assert(e[2 + i] == r.data[i]);
        assert(b[pos + (2 + i)] == e[2 + i]);
    }
    assert(b.subrange(pos + 2, pos + 2 + r.data.len() as int) =~= r.data);
}

pub open spec fn rules_view(s: Seq<Rule>) -> Seq<RuleV> {
    Seq::new(s.len(), |i: int| s[i]@)
}

pub open spec fn rules_wf(s: Seq<RuleV>) -> bool {
    forall|i: int| 0 <= i < s.len() ==> rule_wf(#[trigger] s[i])
}

pub open spec fn rules_bytes_spec(s: Seq<RuleV>) -> Seq<u8>
    decreases s.len(),
{
    if s.len() == 0 {
        Seq::empty()
    } else {
        rule_bytes_spec(s[0]) + rules_bytes_spec(s.drop_first())
    }
}

pub proof fn lemma_rules_bytes_snoc(s: Seq<RuleV>, e: RuleV)
    ensures
        rules_bytes_spec(s.push(e)) == rules_bytes_spec(s) + rule_bytes_spec(e),
    decreases s.len(),
{
    if s.len() == 0 {
        assert(s.push(e)[0] == e);
        assert(s.push(e).drop_first() =~= Seq::<RuleV>::empty());
        assert(rules_bytes_spec(Seq::<RuleV>::empty()) =~= Seq::<u8>::empty());
        assert(rules_bytes_spec(s.push(e)) =~= rules_bytes_spec(s) + rule_bytes_spec(e));
    } else {
        assert(s.push(e)[0] == s[0]);
        assert(s.push(e).drop_first() =~= s.drop_first().push(e));
        lemma_rules_bytes_snoc(s.drop_first(), e);
        assert(rule_bytes_spec(s[0]) + (rules_bytes_spec(s.drop_first()) + rule_bytes_spec(e))
            =~= (rule_bytes_spec(s[0]) + rules_bytes_spec(s.drop_first())) + rule_bytes_spec(e));
    }
}

pub open spec fn rules_parse_from(b: Seq<u8>, pos: int) -> Option<Seq<RuleV>>
    decreases b.len() - pos,
    when 0 <= pos <= b.len()
{
    if pos == b.len() {
        Some(Seq::<RuleV>::empty())
    } else {
        match rule_unmarshal_spec(b, pos) {
            None => None,
            Some((r, c)) => if pos < c <= b.len() {
                match rules_parse_from(b, c) {
                    None => None,
                    Some(rest) => Some(seq![r] + rest),
                }
            } else {
                None
            },
        }
    }
}

pub proof fn lemma_rules_roundtrip(s: Seq<RuleV>, b: Seq<u8>, pos: int)
    requires
        rules_wf(s),
        0 <= pos <= b.len(),
        b.subrange(pos, b.len() as int) == rules_bytes_spec(s),
    ensures
        rules_parse_from(b, pos) == Some(s),
    decreases s.len(),
{
    if s.len() == 0 {
        assert(rules_bytes_spec(s) =~= Seq::<u8>::empty());
        assert(b.subrange(pos, b.len() as int).len() == 0);
        assert(pos == b.len());
    } else {
        let e = rule_bytes_spec(s[0]);
        let rest = rules_bytes_spec(s.drop_first());
        lemma_subrange_split(b, pos, b.len() as int, e, rest);
        lemma_rule_roundtrip(s[0], b, pos);
        assert(rules_wf(s.drop_first())) by {
            assert(forall|i: int|
                0 <= i < s.drop_first().len() ==> #[trigger] s.drop_first()[i] == s[i + 1]);
        }
        lemma_rules_roundtrip(s.drop_first(), b, pos + e.len() as int);
        assert(seq![s[0]] + s.drop_first() =~= s);
    }
}

impl Rule {
    /// The wire form of one rule.
    pub fn marshal(&self, out: &mut Vec<u8>) -> (ok: bool)
        ensures
            ok ==> final(out)@ == old(out)@ + rule_bytes_spec(self@) && rule_wf(self@),
            !ok ==> final(out)@ == old(out)@ && !rule_wf(self@),
    {
        if self.data.len() > 255 {
            return false;
        }
        out.push(self.t);
        out.push(self.data.len() as u8);
        append_bytes(out, &self.data);
        proof {
            assert(final(out)@ =~= old(out)@ + rule_bytes_spec(self@));
        }
        true
    }

    /// Concatenate the wire forms of a list of rules.
    pub fn marshal_multiple_to_bytes(list: &Vec<Rule>) -> (r: Option<Vec<u8>>)
        ensures
            match r {
                Some(v) => v@ == rules_bytes_spec(rules_view(list@)) && rules_wf(
                    rules_view(list@),
                ),
                None => !rules_wf(rules_view(list@)),
            },
    {
        let mut out: Vec<u8> = Vec::new();
        let mut i: usize = 0;
        proof {
            assert(rules_view(list@.take(0)) =~= Seq::<RuleV>::empty());
        }
        while i < list.len()
            invariant
                i <= list@.len(),
                out@ == rules_bytes_spec(rules_view(list@.take(i as int))),
                rules_wf(rules_view(list@.take(i as int))),
            decreases list@.len() - i,
        {
            let ghost out0 = out@;
            let ok = list[i].marshal(&mut out);
            if !ok {
                proof {
                    assert(rules_view(list@)[i as int] == list@[i as int]@);
                }
                return None;
            }
            proof {
                lemma_rules_bytes_snoc(rules_view(list@.take(i as int)), list@[i as int]@);
                assert(rules_view(list@.take(i as int + 1))
                    =~= rules_view(list@.take(i as int)).push(list@[i as int]@));
            }
            i = i + 1;
        }
        proof {
            assert(rules_view(list@.take(list@.len() as int)) =~= rules_view(list@));
        }
        Some(out)
    }

    /// Parse a whole buffer as a list of rules.
    pub fn unmarshal_multiple_from_bytes(b: &Vec<u8>) -> (r: Option<Vec<Rule>>)
        ensures
            match r {
                Some(v) => rules_parse_from(b@, 0) == Some(rules_view(v@)) && rules_wf(
                    rules_view(v@),
                ),
                None => rules_parse_from(b@, 0) is None,
            },
    {
        let mut acc: Vec<Rule> = Vec::new();
        let mut cursor: usize = 0;
        proof {
            assert(rules_view(acc@) =~= Seq::<RuleV>::empty());
        }
        while cursor < b.len()
            invariant
                0 <= cursor <= b@.len(),
                rules_wf(rules_view(acc@)),
                forall|rest: Seq<RuleV>|
                    rules_parse_from(b@, cursor as int) == Some(rest) ==> rules_parse_from(b@, 0)
                        == Some(rules_view(acc@) + rest),
                rules_parse_from(b@, cursor as int) is None ==> rules_parse_from(b@, 0) is None,
            decreases b@.len() - cursor,
        {
            let ghost c0 = cursor as int;
            let ghost acc0 = acc@;
            if b.len() - cursor < 2 {
                return None;
            }
            let t = b[cursor];
            let l = b[cursor + 1] as usize;
            if b.len() - cursor - 2 < l {
                return None;
            }
            let data = sub_vec(b, cursor + 2, cursor + 2 + l);
            cursor = cursor + 2 + l;
            let rl = Rule { t, data };
            proof {
                assert(rule_unmarshal_spec(b@, c0) == Some((rl@, cursor as int)));
            }
            acc.push(rl);
            proof {
                assert(rules_view(acc@) =~= rules_view(acc0).push(acc@.last()@));
                assert forall|rest: Seq<RuleV>|
                    rules_parse_from(b@, cursor as int) == Some(rest) implies rules_parse_from(
                    b@,
                    0,
                ) == Some(rules_view(acc@) + rest) by {
                    assert(rules_parse_from(b@, c0) == Some(seq![acc@.last()@] + rest));
                    assert(rules_view(acc0) + (seq![acc@.last()@] + rest)
                        =~= rules_view(acc@) + rest);
                }
                if rules_parse_from(b@, cursor as int) is None {
                    assert(rules_parse_from(b@, c0) is None);
                }
            }
        }
        proof {
            assert(rules_parse_from(b@, cursor as int) == Some(Seq::<RuleV>::empty()));
            assert(rules_view(acc@) + Seq::<RuleV>::empty() =~= rules_view(acc@));
        }
        Some(acc)
    }
}

} // verus!
