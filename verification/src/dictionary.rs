use vstd::prelude::*;

use crate::util::{append_bytes, parse_hex_u64, parse_hex_u64_spec, u64_to_hex, hex_min_spec};

verus! {

// ---------------------------------------------------------------------------
// Dictionary: a mapping from short safe keys to byte values, with a
// self-delimiting canonical flat encoding (`key=value\n` lines, values
// escaped). Keys are written once each; entries keep insertion order.
// ---------------------------------------------------------------------------

/// Bytes allowed in a key: anything that needs no escaping.
pub open spec fn key_safe_byte(b: u8) -> bool {
    b != 0 && b != 0x0a && b != 0x0d && b != 0x3d && b != 0x5c
}

pub open spec fn key_safe(k: Seq<u8>) -> bool {
    k.len() >= 1 && forall|i: int| 0 <= i < k.len() ==> key_safe_byte(k[i])
}

/// First-match lookup over the entry list.
pub open spec fn dict_get_from(s: Seq<(Vec<u8>, Vec<u8>)>, k: Seq<u8>) -> Option<Seq<u8>>
    decreases s.len(),
{
    if s.len() == 0 {
        None
    } else if s[0].0@ == k {
        Some(s[0].1@)
    } else {
        dict_get_from(s.drop_first(), k)
    }
}

proof fn lemma_dict_get_push(s: Seq<(Vec<u8>, Vec<u8>)>, e: (Vec<u8>, Vec<u8>), k: Seq<u8>)
    ensures
        dict_get_from(s.push(e), k) == (if dict_get_from(s, k) is Some {
            dict_get_from(s, k)
        } else if e.0@ == k {
            Some(e.1@)
        } else {
            None::<Seq<u8>>
        }),
    decreases s.len(),
{
    if s.len() == 0 {
        assert(s.push(e)[0] == e);
        let t = s.push(e).drop_first();
        assert(t =~= Seq::<(Vec<u8>, Vec<u8>)>::empty());
        assert(dict_get_from(t, k) is None);
        assert(dict_get_from(s, k) is None);
    } else {
        assert(s.push(e)[0] == s[0]);
        assert(s.push(e).drop_first() =~= s.drop_first().push(e));
        lemma_dict_get_push(s.drop_first(), e, k);
        if s[0].0@ == k {
            assert(dict_get_from(s.push(e), k) == Some(s[0].1@));
            assert(dict_get_from(s, k) == Some(s[0].1@));
        } else {
            assert(dict_get_from(s.push(e), k)
                == dict_get_from(s.drop_first().push(e), k));
            assert(dict_get_from(s, k) == dict_get_from(s.drop_first(), k));
        }
    }
}

pub struct Dictionary {
    pub entries: Vec<(Vec<u8>, Vec<u8>)>,
}

impl Dictionary {
    /// All keys are safe and no key occurs twice.
    pub open spec fn wf(self) -> bool {
        &&& forall|i: int| 0 <= i < self.entries@.len() ==> key_safe(#[trigger] self.entries@[i].0@)
        &&& forall|i: int, j: int|
            0 <= i < j < self.entries@.len() ==> self.entries@[i].0@ != self.entries@[j].0@
    }

    /// The value stored under a key, if any.
    pub open spec fn spec_get(self, k: Seq<u8>) -> Option<Seq<u8>> {
        dict_get_from(self.entries@, k)
    }

    pub fn new() -> (r: Dictionary)
        ensures
            r.wf(),
            r.entries@.len() == 0,
            forall|k: Seq<u8>| r.spec_get(k) is None,
    {
        Dictionary { entries: Vec::new() }
    }

    /// Look a key up.
    pub fn get(&self, k: &Vec<u8>) -> (r: Option<Vec<u8>>)
        ensures
            match r {
                Some(v) => self.spec_get(k@) == Some(v@),
                None => self.spec_get(k@) is None,
            },
    {
        let n = self.entries.len();
        proof {
            assert(self.entries@.skip(0) =~= self.entries@);
        }
        let mut i: usize = 0;
        while i < n
            invariant
                i <= n == self.entries@.len(),
                dict_get_from(self.entries@.skip(i as int), k@) == self.spec_get(k@),
            decreases n - i,
        {
            let hit = crate::util::bytes_eq(&self.entries[i].0, k);
            proof {
                assert(self.entries@.skip(i as int)[0] == self.entries@[i as int]);
                assert(self.entries@.skip(i as int).drop_first()
                    =~= self.entries@.skip(i as int + 1));
            }
            if hit {
                return Some(self.entries[i].1.clone());
            }
            i = i + 1;
        }
        proof {
            assert(self.entries@.skip(n as int) =~= Seq::<(Vec<u8>, Vec<u8>)>::empty());
        }
        None
    }

    /// Store a value under a fresh key.
    pub fn set(&mut self, k: &Vec<u8>, v: Vec<u8>)
        requires
            old(self).wf(),
            key_safe(k@),
            old(self).spec_get(k@) is None,
        ensures
            final(self).wf(),
            final(self).entries@.len() == old(self).entries@.len() + 1,
            final(self).entries@.last().0@ == k@,
            final(self).entries@.last().1@ == v@,
            forall|i: int|
                0 <= i < old(self).entries@.len()
                    ==> final(self).entries@[i] == old(self).entries@[i],
            forall|x: Seq<u8>|
                final(self).spec_get(x) == (if x == k@ {
                    Some(v@)
                } else {
                    old(self).spec_get(x)
                }),
    {
        proof {
            lemma_key_absent_all(old(self).entries@, k@);
        }
        let kk = k.clone();
        let ghost e = (kk, v);
        self.entries.push((kk, v));
        proof {
            let s = old(self).entries@;
            assert(self.entries@ =~= s.push(e));
            assert(e.0@ == k@);
            assert forall|x: Seq<u8>|
                final(self).spec_get(x) == (if x == k@ {
                    Some(v@)
                } else {
                    old(self).spec_get(x)
                }) by {
                lemma_dict_get_push(s, e, x);
                if x == k@ {
                    assert(old(self).spec_get(x) is None);
                }
            }
            assert forall|i: int, j: int|
                0 <= i < j < self.entries@.len() implies self.entries@[i].0@
                != self.entries@[j].0@ by {
                if j == s.len() {
                    assert(self.entries@[j].0@ == k@);
                }
            }
        }
    }

    /// Store a 64-bit value in minimal hexadecimal.
    pub fn set_u64(&mut self, k: &Vec<u8>, x: u64)
        requires
            old(self).wf(),
            key_safe(k@),
            old(self).spec_get(k@) is None,
        ensures
            final(self).wf(),
            final(self).entries@.len() == old(self).entries@.len() + 1,
            final(self).entries@.last().0@ == k@,
            final(self).entries@.last().1@ == hex_min_spec(x as nat),
            forall|i: int|
                0 <= i < old(self).entries@.len()
                    ==> final(self).entries@[i] == old(self).entries@[i],
            forall|y: Seq<u8>|
                final(self).spec_get(y) == (if y == k@ {
                    Some(hex_min_spec(x as nat))
                } else {
                    old(self).spec_get(y)
                }),
    {
        let v = u64_to_hex(x);
        self.set(k, v);
    }

    /// Store a boolean as the byte `1` or `0`.
    pub fn set_bool(&mut self, k: &Vec<u8>, x: bool)
        requires
            old(self).wf(),
            key_safe(k@),
            old(self).spec_get(k@) is None,
        ensures
            final(self).wf(),
            final(self).entries@.len() == old(self).entries@.len() + 1,
            final(self).entries@.last().0@ == k@,
            final(self).entries@.last().1@ == bool_bytes_spec(x),
            forall|i: int|
                0 <= i < old(self).entries@.len()
                    ==> final(self).entries@[i] == old(self).entries@[i],
            forall|y: Seq<u8>|
                final(self).spec_get(y) == (if y == k@ {
                    Some(bool_bytes_spec(x))
                } else {
                    old(self).spec_get(y)
                }),
    {
        let mut v: Vec<u8> = Vec::new();
        if x {
            v.push(0x31);
        } else {
            v.push(0x30);
        }
        proof {
            assert(v@ =~= bool_bytes_spec(x));
        }
        self.set(k, v);
    }

    /// Read a 64-bit value back from its hexadecimal form.
    pub fn get_u64(&self, k: &Vec<u8>) -> (r: Option<u64>)
        ensures
            r == spec_get_u64(*self, k@),
    {
        match self.get(k) {
            None => None,
            Some(v) => parse_hex_u64(&v),
        }
    }

    /// Read a signed 64-bit value: the unsigned form reinterpreted.
    pub fn get_i64(&self, k: &Vec<u8>) -> (r: Option<i64>)
        ensures
            r == (match spec_get_u64(*self, k@) {
                Some(x) => Some(u64_to_i64_spec(x)),
                None => None::<i64>,
            }),
    {
        match self.get_u64(k) {
            None => None,
            Some(x) => Some(u64_to_i64(x)),
        }
    }

    /// Read a boolean: a value whose first byte is `1`, `t`, `T`, `y` or `Y`.
    pub fn get_bool(&self, k: &Vec<u8>) -> (r: Option<bool>)
        ensures
            r == spec_get_bool(*self, k@),
    {
        match self.get(k) {
            None => None,
            Some(v) => {
                if v.len() == 0 {
                    Some(false)
                } else {
                    let b = v[0];
                    Some(b == 0x31 || b == 0x74 || b == 0x54 || b == 0x79 || b == 0x59)
                }
            },
        }
    }

    /// The canonical flat encoding of the whole dictionary.
    pub fn to_bytes(&self) -> (r: Vec<u8>)
        ensures
            r@ == dict_bytes_spec(self.entries@),
    {
        let n = self.entries.len();
        let mut out: Vec<u8> = Vec::new();
        let mut i: usize = 0;
        while i < n
            invariant
                i <= n == self.entries@.len(),
                out@ == dict_bytes_spec(self.entries@.take(i as int)),
            decreases n - i,
        {
            append_bytes(&mut out, &self.entries[i].0);
            out.push(0x3d);
            let ev = escape_vec(&self.entries[i].1);
            append_bytes(&mut out, &ev);
            out.push(0x0a);
            proof {
                let t1 = self.entries@.take(i as int + 1);
                assert(t1.drop_last() =~= self.entries@.take(i as int));
                assert(t1.last() == self.entries@[i as int]);
                assert(out@ =~= dict_bytes_spec(t1));
            }
            i = i + 1;
        }
        proof {
            assert(self.entries@.take(n as int) =~= self.entries@);
        }
        out
    }
}

proof fn lemma_key_absent_all(s: Seq<(Vec<u8>, Vec<u8>)>, k: Seq<u8>)
    requires
        dict_get_from(s, k) is None,
    ensures
        forall|i: int| 0 <= i < s.len() ==> s[i].0@ != k,
    decreases s.len(),
{
    if s.len() > 0 {
        lemma_key_absent_all(s.drop_first(), k);
        assert forall|i: int| 0 <= i < s.len() implies s[i].0@ != k by {
            if i > 0 {
                assert(s.drop_first()[i - 1] == s[i]);
            }
        }
    }
}

pub open spec fn bool_bytes_spec(x: bool) -> Seq<u8> {
    if x {
        seq![0x31u8]
    } else {
        seq![0x30u8]
    }
}

pub open spec fn spec_get_u64(d: Dictionary, k: Seq<u8>) -> Option<u64> {
    match d.spec_get(k) {
        Some(v) => parse_hex_u64_spec(v),
        None => None,
    }
}

pub open spec fn spec_get_bool(d: Dictionary, k: Seq<u8>) -> Option<bool> {
    match d.spec_get(k) {
        Some(v) => Some(
            v.len() > 0 && (v[0] == 0x31 || v[0] == 0x74 || v[0] == 0x54 || v[0] == 0x79
                || v[0] == 0x59),
        ),
        None => None,
    }
}

/// How a signed 64-bit counter travels through the unsigned hexadecimal form.
pub open spec fn u64_to_i64_spec(x: u64) -> i64 {
    if x <= 0x7fff_ffff_ffff_ffff {
        x as i64
    } else {
        ((x as int) - 0x1_0000_0000_0000_0000) as i64
    }
}

pub open spec fn i64_to_u64_spec(x: i64) -> u64 {
    if x >= 0 {
        x as u64
    } else {
        ((x as int) + 0x1_0000_0000_0000_0000) as u64
    }
}

pub fn u64_to_i64(x: u64) -> (r: i64)
    ensures
        r == u64_to_i64_spec(x),
{
    if x <= 0x7fff_ffff_ffff_ffff {
        x as i64
    } else {
        -((u64::MAX - x) as i64) - 1
    }
}

pub fn i64_to_u64(x: i64) -> (r: u64)
    ensures
        r == i64_to_u64_spec(x),
{
    if x >= 0 {
        x as u64
    } else {
        u64::MAX - ((-(x + 1)) as u64)
    }
}

/// Reinterpreting a signed value as unsigned and back restores it.
pub proof fn lemma_i64_u64_roundtrip(x: i64)
    ensures
        u64_to_i64_spec(i64_to_u64_spec(x)) == x,
{
}

// ---------------------------------------------------------------------------
// Value escaping and the flat encoding
// ---------------------------------------------------------------------------

/// The escape sequence for one value byte.
pub open spec fn escape_byte_spec(b: u8) -> Seq<u8> {
    if b == 0 {
        seq![0x5cu8, 0x30u8]
    } else if b == 0x0a {
        seq![0x5cu8, 0x6eu8]
    } else if b == 0x0d {
        seq![0x5cu8, 0x72u8]
    } else if b == 0x3d {
        seq![0x5cu8, 0x65u8]
    } else if b == 0x5c {
        seq![0x5cu8, 0x5cu8]
    } else {
        seq![b]
    }
}

pub open spec fn escape_spec(v: Seq<u8>) -> Seq<u8>
    decreases v.len(),
{
    if v.len() == 0 {
        Seq::empty()
    } else {
        escape_spec(v.drop_last()) + escape_byte_spec(v.last())
    }
}

/// Escape a value for the flat encoding.
pub fn escape_vec(v: &Vec<u8>) -> (r: Vec<u8>)
    ensures
        r@ == escape_spec(v@),
{
    let mut out: Vec<u8> = Vec::new();
    let mut i: usize = 0;
    while i < v.len()
        invariant
            i <= v@.len(),
            out@ == escape_spec(v@.take(i as int)),
        decreases v@.len() - i,
    {
        let b = v[i];
        if b == 0 {
            out.push(0x5c);
            out.push(0x30);
        } else if b == 0x0a {
            out.push(0x5c);
            out.push(0x6e);
        } else if b == 0x0d {
            out.push(0x5c);
            out.push(0x72);
        } else if b == 0x3d {
            out.push(0x5c);
            out.push(0x65);
        } else if b == 0x5c {
            out.push(0x5c);
            out.push(0x5c);
        } else {
            out.push(b);
        }
        proof {
            let t1 = v@.take(i as int + 1);
            assert(t1.drop_last() =~= v@.take(i as int));
            assert(t1.last() == v@[i as int]);
            assert(out@ =~= escape_spec(t1));
        }
        i = i + 1;
    }
    proof {
        assert(v@.take(v@.len() as int) =~= v@);
    }
    out
}

/// One encoded entry: `key=escaped-value` and a line feed.
pub open spec fn entry_bytes_spec(k: Seq<u8>, v: Seq<u8>) -> Seq<u8> {
    k + seq![0x3du8] + escape_spec(v) + seq![0x0au8]
}

/// The flat encoding of an entry list, in order.
pub open spec fn dict_bytes_spec(s: Seq<(Vec<u8>, Vec<u8>)>) -> Seq<u8>
    decreases s.len(),
{
    if s.len() == 0 {
        Seq::empty()
    } else {
        dict_bytes_spec(s.drop_last()) + entry_bytes_spec(s.last().0@, s.last().1@)
    }
}

// ---------------------------------------------------------------------------
// Key literals (short ASCII names used across the wire formats)
// ---------------------------------------------------------------------------

pub proof fn lemma_key_safe1(a: u8)
    requires
        key_safe_byte(a),
    ensures
        key_safe(seq![a]),
{
    let k = seq![a];
    assert forall|i: int| 0 <= i < k.len() implies key_safe_byte(k[i]) by {
        assert(k[0] == a);
    }
}

pub proof fn lemma_key_safe2(a: u8, b: u8)
    requires
        key_safe_byte(a),
        key_safe_byte(b),
    ensures
        key_safe(seq![a, b]),
{
    let k = seq![a, b];
    assert forall|i: int| 0 <= i < k.len() implies key_safe_byte(k[i]) by {
        if i == 0 {
            assert(k[0] == a);
        } else {
            assert(k[1] == b);
        }
    }
}

pub proof fn lemma_key_safe3(a: u8, b: u8, c: u8)
    requires
        key_safe_byte(a),
        key_safe_byte(b),
        key_safe_byte(c),
    ensures
        key_safe(seq![a, b, c]),
{
    let k = seq![a, b, c];
    assert forall|i: int| 0 <= i < k.len() implies key_safe_byte(k[i]) by {
        if i == 0 {
            assert(k[0] == a);
        } else if i == 1 {
            assert(k[1] == b);
        } else {
            assert(k[2] == c);
        }
    }
}

pub proof fn lemma_key_safe4(a: u8, b: u8, c: u8, d: u8)
    requires
        key_safe_byte(a),
        key_safe_byte(b),
        key_safe_byte(c),
        key_safe_byte(d),
    ensures
        key_safe(seq![a, b, c, d]),
{
    let k = seq![a, b, c, d];
    assert forall|i: int| 0 <= i < k.len() implies key_safe_byte(k[i]) by {
        if i == 0 {
            assert(k[0] == a);
        } else if i == 1 {
            assert(k[1] == b);
        } else if i == 2 {
            assert(k[2] == c);
        } else {
            assert(k[3] == d);
        }
    }
}

pub proof fn lemma_key_safe5(a: u8, b: u8, c: u8, d: u8, e: u8)
    requires
        key_safe_byte(a),
        key_safe_byte(b),
        key_safe_byte(c),
        key_safe_byte(d),
        key_safe_byte(e),
    ensures
        key_safe(seq![a, b, c, d, e]),
{
    let k = seq![a, b, c, d, e];
    assert forall|i: int| 0 <= i < k.len() implies key_safe_byte(k[i]) by {
        if i == 0 {
            assert(k[0] == a);
        } else if i == 1 {
            assert(k[1] == b);
        } else if i == 2 {
            assert(k[2] == c);
        } else if i == 3 {
            assert(k[3] == d);
        } else {
            assert(k[4] == e);
        }
    }
}

pub proof fn lemma_key_safe6(a: u8, b: u8, c: u8, d: u8, e: u8, f: u8)
    requires
        key_safe_byte(a),
        key_safe_byte(b),
        key_safe_byte(c),
        key_safe_byte(d),
        key_safe_byte(e),
        key_safe_byte(f),
    ensures
        key_safe(seq![a, b, c, d, e, f]),
{
    let k = seq![a, b, c, d, e, f];
    assert forall|i: int| 0 <= i < k.len() implies key_safe_byte(k[i]) by {
        if i == 0 {
            assert(k[0] == a);
        } else if i == 1 {
            assert(k[1] == b);
        } else if i == 2 {
            assert(k[2] == c);
        } else if i == 3 {
            assert(k[3] == d);
        } else if i == 4 {
            assert(k[4] == e);
        } else {
            assert(k[5] == f);
        }
    }
}

pub fn key1(a: u8) -> (r: Vec<u8>)
    ensures
        r@ == seq![a],
{
    let mut v: Vec<u8> = Vec::new();
    v.push(a);
    proof {
        assert(v@ =~= seq![a]);
    }
    v
}

pub fn key2(a: u8, b: u8) -> (r: Vec<u8>)
    ensures
        r@ == seq![a, b],
{
    let mut v: Vec<u8> = Vec::new();
    v.push(a);
    v.push(b);
    proof {
        assert(v@ =~= seq![a, b]);
    }
    v
}

pub fn key3(a: u8, b: u8, c: u8) -> (r: Vec<u8>)
    ensures
        r@ == seq![a, b, c],
{
    let mut v: Vec<u8> = Vec::new();
    v.push(a);
    v.push(b);
    v.push(c);
    proof {
        assert(v@ =~= seq![a, b, c]);
    }
    v
}

pub fn key4(a: u8, b: u8, c: u8, d: u8) -> (r: Vec<u8>)
    ensures
        r@ == seq![a, b, c, d],
{
    let mut v: Vec<u8> = Vec::new();
    v.push(a);
    v.push(b);
    v.push(c);
    v.push(d);
    proof {
        assert(v@ =~= seq![a, b, c, d]);
    }
    v
}

pub fn key5(a: u8, b: u8, c: u8, d: u8, e: u8) -> (r: Vec<u8>)
    ensures
        r@ == seq![a, b, c, d, e],
{
    let mut v: Vec<u8> = Vec::new();
    v.push(a);
    v.push(b);
    v.push(c);
    v.push(d);
    v.push(e);
    proof {
        assert(v@ =~= seq![a, b, c, d, e]);
    }
    v
}

pub fn key6(a: u8, b: u8, c: u8, d: u8, e: u8, f: u8) -> (r: Vec<u8>)
    ensures
        r@ == seq![a, b, c, d, e, f],
{
    let mut v: Vec<u8> = Vec::new();
    v.push(a);
    v.push(b);
    v.push(c);
    v.push(d);
    v.push(e);
    v.push(f);
    proof {
        assert(v@ =~= seq![a, b, c, d, e, f]);
    }
    v
}

} // verus!
