//! The binary record layer: base-128 integers and tagged fields.
//!
//! A record is a run of fields. Each field starts with a tag, a varint whose
//! value is `number * 8 + kind`; the kind says how the value that follows is laid
//! out: 0 a varint, 1 eight raw bytes, 2 a varint length and that many bytes,
//! 5 four raw bytes. Any other kind, a field number of zero, a tag that does not
//! fit in 32 bits, or a value cut short makes the record malformed.
use vstd::prelude::*;
use vstd::slice::{slice_subrange, slice_to_vec};

verus! {

/// 2^64: one more than the largest value a varint may carry.
pub open spec fn u64_bound() -> nat {
    0x1_0000_0000_0000_0000
}

/// 2^32: one more than the largest tag.
pub open spec fn tag_bound() -> nat {
    0x1_0000_0000
}

/// Value and length of the base-128 integer at the front of `s`: each byte
/// gives seven bits, low bits first, and a byte of 128 or more is followed by
/// another.
pub open spec fn varint_parse(s: Seq<u8>) -> Option<(nat, nat)>
    decreases s.len(),
{
    if s.len() == 0 {
        None
    } else if s[0] < 128 {
        Some((s[0] as nat, 1nat))
    } else {
        match varint_parse(s.drop_first()) {
            Some((v, n)) => Some(((s[0] - 128) as nat + 128 * v, n + 1)),
            None => None,
        }
    }
}

/// A varint as records accept it: at most ten bytes, with a value under 2^64.
pub open spec fn varint_spec(s: Seq<u8>) -> Option<(u64, nat)> {
    match varint_parse(s) {
        Some((v, n)) => if n <= 10 && v < u64_bound() {
            Some((v as u64, n))
        } else {
            None
        },
        None => None,
    }
}

/// The shortest base-128 form of `v`.
pub open spec fn varint_encode(v: nat) -> Seq<u8>
    decreases v,
{
    if v < 128 {
        seq![v as u8]
    } else {
        seq![(v % 128 + 128) as u8] + varint_encode(v / 128)
    }
}

pub open spec fn pow128(i: nat) -> nat
    decreases i,
{
    if i == 0 {
        1
    } else {
        128 * pow128((i - 1) as nat)
    }
}

/// What a field holds, by its kind.
pub enum WireV {
    Varint(u64),
    Fixed64(Seq<u8>),
    Bytes(Seq<u8>),
    Fixed32(Seq<u8>),
}

pub struct FieldV {
    pub number: u64,
    pub value: WireV,
}

/// A field as read from a buffer.
pub enum WireValue {
    Varint(u64),
    Fixed64(Vec<u8>),
    Bytes(Vec<u8>),
    Fixed32(Vec<u8>),
}

pub struct Field {
    pub number: u64,
    pub value: WireValue,
}

impl View for Field {
    type V = FieldV;

    open spec fn view(&self) -> FieldV {
        FieldV {
            number: self.number,
            value: match self.value {
                WireValue::Varint(v) => WireV::Varint(v),
                WireValue::Fixed64(b) => WireV::Fixed64(b@),
                WireValue::Bytes(b) => WireV::Bytes(b@),
                WireValue::Fixed32(b) => WireV::Fixed32(b@),
            },
        }
    }
}

pub open spec fn fields_view(fs: Seq<Field>) -> Seq<FieldV> {
    fs.map_values(|f: Field| f@)
}

/// The field at the front of `s`, and how many bytes it takes.
pub open spec fn field_spec(s: Seq<u8>) -> Option<(FieldV, nat)> {
    match varint_spec(s) {
        None => None,
        Some((tag, n)) => {
            let number = tag / 8;
            let kind = tag % 8;
            let rest = s.skip(n as int);
            if tag >= tag_bound() || number == 0 {
                None
            } else if kind == 0 {
                match varint_spec(rest) {
                    Some((v, m)) => Some((FieldV { number, value: WireV::Varint(v) }, n + m)),
                    None => None,
                }
            } else if kind == 1 {
                if rest.len() >= 8 {
                    Some((FieldV { number, value: WireV::Fixed64(rest.take(8)) }, n + 8))
                } else {
                    None
                }
            } else if kind == 2 {
                match varint_spec(rest) {
                    Some((len, m)) => if m + len <= rest.len() {
                        Some(
                            (
                                FieldV {
                                    number,
                                    value: WireV::Bytes(rest.subrange(m as int, m + len)),
                                },
                                (n + m + len) as nat,
                            ),
                        )
                    } else {
                        None
                    },
                    None => None,
                }
            } else if kind == 5 {
                if rest.len() >= 4 {
                    Some((FieldV { number, value: WireV::Fixed32(rest.take(4)) }, n + 4))
                } else {
                    None
                }
            } else {
                None
            }
        },
    }
}

/// All fields of a record, in order; `None` when any of them is malformed.
pub open spec fn fields_spec(s: Seq<u8>) -> Option<Seq<FieldV>>
    decreases s.len(),
{
    if s.len() == 0 {
        Some(seq![])
    } else {
        match field_spec(s) {
            Some((f, n)) => if 0 < n <= s.len() {
                match fields_spec(s.skip(n as int)) {
                    Some(rest) => Some(seq![f] + rest),
                    None => None,
                }
            } else {
                None
            },
            None => None,
        }
    }
}

proof fn lemma_pow128_mono(i: nat, j: nat)
    requires
        i <= j,
    ensures
        1 <= pow128(i) <= pow128(j),
    decreases j,
{
    if i < j {
        lemma_pow128_mono(i, (j - 1) as nat);
    } else {
        lemma_pow128_pos(i);
    }
}

proof fn lemma_pow128_pos(i: nat)
    ensures
        pow128(i) >= 1,
    decreases i,
{
    if i > 0 {
        lemma_pow128_pos((i - 1) as nat);
    }
}

proof fn lemma_pow128_bound(i: nat)
    requires
        i <= 9,
    ensures
        1 <= pow128(i) <= 0x8000_0000_0000_0000,
{
    lemma_pow128_mono(i, 9);
    reveal_with_fuel(pow128, 10);
}

/// Reads the varint that starts at `pos`.
pub fn read_varint(b: &[u8], pos: usize) -> (r: Option<(u64, usize)>)
    requires
        pos <= b@.len(),
    ensures
        match r {
            Some((v, next)) => pos < next <= b@.len() && varint_spec(b@.skip(pos as int)) == Some(
                (v, (next - pos) as nat),
            ),
            None => varint_spec(b@.skip(pos as int)) is None,
        },
{
    let ghost s = b@.skip(pos as int);
    let mut acc: u128 = 0;
    let mut mult: u128 = 1;
    let mut i: usize = 0;
    assert(s.skip(0) =~= s);
    while i < 10
        invariant
            pos <= b@.len(),
            s == b@.skip(pos as int),
            i <= 10,
            i <= s.len(),
            mult == pow128(i as nat),
            acc < mult,
            match varint_parse(s.skip(i as int)) {
                Some((v, n)) => varint_parse(s) == Some(((acc + mult * v) as nat, (n + i) as nat)),
                None => varint_parse(s) is None,
            },
        decreases 10 - i,
    {
        proof {
            lemma_pow128_bound(i as nat);
        }
        if i >= b.len() - pos {
            assert(s.skip(i as int).len() == 0);
            return None;
        }
        let byte = b[pos + i];
        let ghost t = s.skip(i as int);
        assert(t[0] == byte);
        assert(t.drop_first() =~= s.skip(i + 1));
        if byte < 128 {
            assert(acc + mult * (byte as u128) < 0x1_0000_0000_0000_0000_0000) by (nonlinear_arith)
                requires
                    acc < mult,
                    mult <= 0x8000_0000_0000_0000,
                    byte < 128,
            ;
            let v: u128 = acc + mult * (byte as u128);
            if v >= 0x1_0000_0000_0000_0000 {
                return None;
            }
            return Some((v as u64, pos + i + 1));
        }
        let d: u128 = (byte - 128) as u128;
        proof {
            let ghost old_acc = acc as int;
            let ghost m = mult as int;
            assert(old_acc + m * d < 128 * m) by (nonlinear_arith)
                requires
                    0 <= old_acc < m,
                    0 <= d < 128,
            ;
            match varint_parse(s.skip(i + 1)) {
                Some((v, n)) => {
                    assert(old_acc + m * (d + 128 * v) == (old_acc + m * d) + (128 * m) * v)
                        by (nonlinear_arith);
                },
                None => {},
            }
        }
        acc = acc + mult * d;
        mult = mult * 128;
        i = i + 1;
    }
    None
}

/// Copies the bytes from `start` up to `end`.
fn copy_range(b: &[u8], start: usize, end: usize) -> (r: Vec<u8>)
    requires
        start <= end <= b@.len(),
    ensures
        r@ == b@.subrange(start as int, end as int),
{
    slice_to_vec(slice_subrange(b, start, end))
}

/// Reads the field that starts at `pos`.
pub fn read_field(b: &[u8], pos: usize) -> (r: Option<(Field, usize)>)
    requires
        pos <= b@.len(),
    ensures
        match r {
            Some((f, next)) => pos < next <= b@.len() && field_spec(b@.skip(pos as int)) == Some(
                (f@, (next - pos) as nat),
            ),
            None => field_spec(b@.skip(pos as int)) is None,
        },
{
    let ghost s = b@.skip(pos as int);
    let (tag, p1) = match read_varint(b, pos) {
        Some(t) => t,
        None => return None,
    };
    assert(s.skip((p1 - pos) as int) =~= b@.skip(p1 as int));
    if tag >= 0x1_0000_0000 || tag / 8 == 0 {
        return None;
    }
    let number = tag / 8;
    let kind = tag % 8;
    if kind == 0 {
        match read_varint(b, p1) {
            Some((v, p2)) => Some((Field { number, value: WireValue::Varint(v) }, p2)),
            None => None,
        }
    } else if kind == 1 {
        if b.len() - p1 < 8 {
            return None;
        }
        let v = copy_range(b, p1, p1 + 8);
        assert(v@ =~= b@.skip(p1 as int).take(8));
        Some((Field { number, value: WireValue::Fixed64(v) }, p1 + 8))
    } else if kind == 2 {
        match read_varint(b, p1) {
            Some((len, p2)) => {
                assert(s.skip((p1 - pos) as int).skip((p2 - p1) as int) =~= b@.skip(p2 as int));
                if len > (b.len() - p2) as u64 {
                    return None;
                }
                let end = p2 + len as usize;
                let v = copy_range(b, p2, end);
                assert(v@ =~= b@.skip(p1 as int).subrange((p2 - p1) as int, (end - p1) as int));
                Some((Field { number, value: WireValue::Bytes(v) }, end))
            },
            None => None,
        }
    } else if kind == 5 {
        if b.len() - p1 < 4 {
            return None;
        }
        let v = copy_range(b, p1, p1 + 4);
        assert(v@ =~= b@.skip(p1 as int).take(4));
        Some((Field { number, value: WireValue::Fixed32(v) }, p1 + 4))
    } else {
        None
    }
}

/// Reads every field of the record `b`.
pub fn parse_fields(b: &[u8]) -> (r: Option<Vec<Field>>)
    ensures
        match r {
            Some(fs) => fields_spec(b@) == Some(fields_view(fs@)),
            None => fields_spec(b@) is None,
        },
{
    let mut fs: Vec<Field> = Vec::new();
    let mut pos: usize = 0;
    assert(b@.skip(0) =~= b@);
    while pos < b.len()
        invariant
            pos <= b@.len(),
            match fields_spec(b@.skip(pos as int)) {
                Some(rest) => fields_spec(b@) == Some(fields_view(fs@) + rest),
                None => fields_spec(b@) is None,
            },
        decreases b@.len() - pos,
    {
        let ghost s = b@.skip(pos as int);
        match read_field(b, pos) {
            Some((f, next)) => {
                assert(s.skip((next - pos) as int) =~= b@.skip(next as int));
                let ghost before = fields_view(fs@);
                fs.push(f);
                proof {
                    assert(fields_view(fs@) =~= before + seq![f@]);
                    match fields_spec(b@.skip(next as int)) {
                        Some(rest) => {
                            assert(before + (seq![f@] + rest) =~= fields_view(fs@) + rest);
                        },
                        None => {},
                    }
                }
                pos = next;
            },
            None => {
                return None;
            },
        }
    }
    assert(b@.skip(pos as int) =~= Seq::<u8>::empty());
    assert(fields_view(fs@) + Seq::<FieldV>::empty() =~= fields_view(fs@));
    Some(fs)
}

/// The bytes of one field: its tag, then its value as its kind lays it out.
pub open spec fn field_encode(f: FieldV) -> Seq<u8> {
    match f.value {
        WireV::Varint(v) => varint_encode((f.number * 8) as nat) + varint_encode(v as nat),
        WireV::Fixed64(b) => varint_encode((f.number * 8 + 1) as nat) + b,
        WireV::Bytes(b) => varint_encode((f.number * 8 + 2) as nat) + varint_encode(b.len()) + b,
        WireV::Fixed32(b) => varint_encode((f.number * 8 + 5) as nat) + b,
    }
}

/// The bytes of a record: its fields one after the other.
pub open spec fn fields_encode(fs: Seq<FieldV>) -> Seq<u8>
    decreases fs.len(),
{
    if fs.len() == 0 {
        seq![]
    } else {
        field_encode(fs[0]) + fields_encode(fs.drop_first())
    }
}

/// A field that can be written: a number from 1 below 2^29, raw values of
/// eight and four bytes, and a byte string whose length fits in 64 bits.
pub open spec fn field_wf(f: FieldV) -> bool {
    &&& 1 <= f.number < 0x2000_0000
    &&& match f.value {
        WireV::Varint(_) => true,
        WireV::Fixed64(b) => b.len() == 8,
        WireV::Bytes(b) => b.len() < u64_bound(),
        WireV::Fixed32(b) => b.len() == 4,
    }
}

proof fn lemma_varint_parse_encode(v: nat, rest: Seq<u8>)
    ensures
        varint_parse(varint_encode(v) + rest) == Some((v, varint_encode(v).len())),
    decreases v,
{
    let e = varint_encode(v);
    if v < 128 {
        assert((e + rest)[0] == v as u8);
    } else {
        let tail = varint_encode(v / 128);
        lemma_varint_parse_encode(v / 128, rest);
        assert((e + rest).drop_first() =~= tail + rest);
        assert((e + rest)[0] == (v % 128 + 128) as u8);
    }
}

proof fn lemma_varint_encode_len(v: nat, k: nat)
    requires
        k >= 1,
        v < pow128(k),
    ensures
        varint_encode(v).len() <= k,
    decreases v,
{
    if v >= 128 {
        assert(k >= 2) by {
            if k == 1 {
                reveal_with_fuel(pow128, 2);
            }
        }
        assert(v / 128 < pow128((k - 1) as nat));
        lemma_varint_encode_len(v / 128, (k - 1) as nat);
    }
}

/// A value below 2^64 reads back from its encoding, whatever follows it.
proof fn lemma_varint_round_trip(v: nat, rest: Seq<u8>)
    requires
        v < u64_bound(),
    ensures
        varint_spec(varint_encode(v) + rest) == Some((v as u64, varint_encode(v).len())),
        varint_encode(v).len() >= 1,
{
    lemma_varint_parse_encode(v, rest);
    assert(pow128(10) == 0x40_0000_0000_0000_0000) by {
        reveal_with_fuel(pow128, 11);
    }
    lemma_varint_encode_len(v, 10);
}

#[verifier::rlimit(60)]
proof fn lemma_field_round_trip(f: FieldV, rest: Seq<u8>)
    requires
        field_wf(f),
    ensures
        field_spec(field_encode(f) + rest) == Some((f, field_encode(f).len())),
        field_encode(f).len() >= 1,
{
    let kind: nat = match f.value {
        WireV::Varint(_) => 0,
        WireV::Fixed64(_) => 1,
        WireV::Bytes(_) => 2,
        WireV::Fixed32(_) => 5,
    };
    let tag: nat = (f.number * 8 + kind) as nat;
    let te = varint_encode(tag);
    let whole = field_encode(f) + rest;
    match f.value {
        WireV::Varint(v) => {
            let ve = varint_encode(v as nat);
            assert(whole =~= te + (ve + rest));
            lemma_varint_round_trip(tag, ve + rest);
            assert(whole.skip(te.len() as int) =~= ve + rest);
            lemma_varint_round_trip(v as nat, rest);
        },
        WireV::Fixed64(b) => {
            assert(whole =~= te + (b + rest));
            lemma_varint_round_trip(tag, b + rest);
            assert(whole.skip(te.len() as int) =~= b + rest);
            assert((b + rest).take(8) =~= b);
        },
        WireV::Bytes(b) => {
            let le = varint_encode(b.len());
            assert(whole =~= te + (le + b + rest));
            lemma_varint_round_trip(tag, le + b + rest);
            assert(whole.skip(te.len() as int) =~= le + (b + rest));
            lemma_varint_round_trip(b.len(), b + rest);
            assert((le + (b + rest)).subrange(le.len() as int, (le.len() + b.len()) as int) =~= b);
        },
        WireV::Fixed32(b) => {
            assert(whole =~= te + (b + rest));
            lemma_varint_round_trip(tag, b + rest);
            assert(whole.skip(te.len() as int) =~= b + rest);
            assert((b + rest).take(4) =~= b);
        },
    }
}

/// Writing well-formed fields and reading the bytes back gives the same
/// fields, in the same order.
pub proof fn fields_round_trip(fs: Seq<FieldV>)
    requires
        forall|i: int| 0 <= i < fs.len() ==> field_wf(#[trigger] fs[i]),
    ensures
        fields_spec(fields_encode(fs)) == Some(fs),
    decreases fs.len(),
{
    if fs.len() > 0 {
        let rest = fields_encode(fs.drop_first());
        lemma_field_round_trip(fs[0], rest);
        let whole = fields_encode(fs);
        let n = field_encode(fs[0]).len();
        assert(whole.skip(n as int) =~= rest);
        assert forall|i: int| 0 <= i < fs.drop_first().len() implies field_wf(
            #[trigger] fs.drop_first()[i],
        ) by {
            assert(fs.drop_first()[i] == fs[i + 1]);
        }
        fields_round_trip(fs.drop_first());
        assert(seq![fs[0]] + fs.drop_first() =~= fs);
    }
}

} // verus!
