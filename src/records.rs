//! Typed records read from the field layer: what each field number means in
//! each record. A field absent from a record holds its default (empty bytes,
//! zero); where a field occurs more than once the last one counts, except for
//! repeated fields, which keep every occurrence in order. A known field of the
//! wrong kind makes the record malformed; fields of other numbers are skipped.
use crate::wire::{fields_view, Field, FieldV, WireV, WireValue};
use vstd::prelude::*;
use vstd::slice::slice_to_vec;

verus! {

/// The last byte-string field numbered `num`, or empty bytes if there is none.
pub open spec fn bytes_field(fs: Seq<FieldV>, num: u64) -> Option<Seq<u8>>
    decreases fs.len(),
{
    if fs.len() == 0 {
        Some(seq![])
    } else {
        match bytes_field(fs.drop_last(), num) {
            None => None,
            Some(prev) => if fs.last().number == num {
                match fs.last().value {
                    WireV::Bytes(v) => Some(v),
                    _ => None,
                }
            } else {
                Some(prev)
            },
        }
    }
}

/// The last varint field numbered `num`, or zero if there is none.
pub open spec fn varint_field(fs: Seq<FieldV>, num: u64) -> Option<u64>
    decreases fs.len(),
{
    if fs.len() == 0 {
        Some(0)
    } else {
        match varint_field(fs.drop_last(), num) {
            None => None,
            Some(prev) => if fs.last().number == num {
                match fs.last().value {
                    WireV::Varint(v) => Some(v),
                    _ => None,
                }
            } else {
                Some(prev)
            },
        }
    }
}

/// Every byte-string field numbered `num`, in order.
pub open spec fn repeated_field(fs: Seq<FieldV>, num: u64) -> Option<Seq<Seq<u8>>>
    decreases fs.len(),
{
    if fs.len() == 0 {
        Some(seq![])
    } else {
        match repeated_field(fs.drop_last(), num) {
            None => None,
            Some(prev) => if fs.last().number == num {
                match fs.last().value {
                    WireV::Bytes(v) => Some(prev.push(v)),
                    _ => None,
                }
            } else {
                Some(prev)
            },
        }
    }
}

pub open spec fn bytes_seqs(v: Seq<Vec<u8>>) -> Seq<Seq<u8>> {
    v.map_values(|b: Vec<u8>| b@)
}

fn copy_bytes(v: &Vec<u8>) -> (r: Vec<u8>)
    ensures
        r@ == v@,
{
    slice_to_vec(v.as_slice())
}

/// Looks up a byte-string field as `bytes_field` describes it.
pub fn get_bytes(fs: &Vec<Field>, num: u64) -> (r: Option<Vec<u8>>)
    ensures
        match r {
            Some(v) => bytes_field(fields_view(fs@), num) == Some(v@),
            None => bytes_field(fields_view(fs@), num) is None,
        },
{
    let ghost all = fields_view(fs@);
    let mut cur: Vec<u8> = Vec::new();
    let mut i: usize = 0;
    assert(all.take(0) =~= Seq::<FieldV>::empty());
    while i < fs.len()
        invariant
            i <= fs@.len(),
            all == fields_view(fs@),
            bytes_field(all.take(i as int), num) == Some(cur@),
        decreases fs@.len() - i,
    {
        assert(all.take(i + 1).drop_last() =~= all.take(i as int));
        assert(all.take(i + 1).last() == fs@[i as int]@);
        let f = &fs[i];
        if f.number == num {
            match &f.value {
                WireValue::Bytes(v) => {
                    cur = copy_bytes(v);
                },
                _ => {
                    assert(bytes_field(all.take(i + 1), num) is None);
                    assert(all.take(fs@.len() as int) =~= all);
                    proof {
                        lemma_none_stays_bytes(all, num, i as nat + 1);
                    }
                    return None;
                },
            }
        }
        i = i + 1;
    }
    assert(all.take(fs@.len() as int) =~= all);
    Some(cur)
}

proof fn lemma_none_stays_bytes(all: Seq<FieldV>, num: u64, k: nat)
    requires
        k <= all.len(),
        bytes_field(all.take(k as int), num) is None,
    ensures
        bytes_field(all, num) is None,
    decreases all.len() - k,
{
    if k < all.len() {
        assert(all.take(k + 1 as int).drop_last() =~= all.take(k as int));
        lemma_none_stays_bytes(all, num, k + 1);
    } else {
        assert(all.take(k as int) =~= all);
    }
}

proof fn lemma_none_stays_varint(all: Seq<FieldV>, num: u64, k: nat)
    requires
        k <= all.len(),
        varint_field(all.take(k as int), num) is None,
    ensures
        varint_field(all, num) is None,
    decreases all.len() - k,
{
    if k < all.len() {
        assert(all.take(k + 1 as int).drop_last() =~= all.take(k as int));
        lemma_none_stays_varint(all, num, k + 1);
    } else {
        assert(all.take(k as int) =~= all);
    }
}

proof fn lemma_none_stays_repeated(all: Seq<FieldV>, num: u64, k: nat)
    requires
        k <= all.len(),
        repeated_field(all.take(k as int), num) is None,
    ensures
        repeated_field(all, num) is None,
    decreases all.len() - k,
{
    if k < all.len() {
        assert(all.take(k + 1 as int).drop_last() =~= all.take(k as int));
        lemma_none_stays_repeated(all, num, k + 1);
    } else {
        assert(all.take(k as int) =~= all);
    }
}

/// Looks up a varint field as `varint_field` describes it.
pub fn get_varint(fs: &Vec<Field>, num: u64) -> (r: Option<u64>)
    ensures
        r == varint_field(fields_view(fs@), num),
{
    let ghost all = fields_view(fs@);
    let mut cur: u64 = 0;
    let mut i: usize = 0;
    assert(all.take(0) =~= Seq::<FieldV>::empty());
    while i < fs.len()
        invariant
            i <= fs@.len(),
            all == fields_view(fs@),
            varint_field(all.take(i as int), num) == Some(cur),
        decreases fs@.len() - i,
    {
        assert(all.take(i + 1).drop_last() =~= all.take(i as int));
        assert(all.take(i + 1).last() == fs@[i as int]@);
        let f = &fs[i];
        if f.number == num {
            match &f.value {
                WireValue::Varint(v) => {
                    cur = *v;
                },
                _ => {
                    proof {
                        lemma_none_stays_varint(all, num, i as nat + 1);
                    }
                    return None;
                },
            }
        }
        i = i + 1;
    }
    assert(all.take(fs@.len() as int) =~= all);
    Some(cur)
}

/// Collects a repeated byte-string field as `repeated_field` describes it.
pub fn get_repeated(fs: &Vec<Field>, num: u64) -> (r: Option<Vec<Vec<u8>>>)
    ensures
        match r {
            Some(v) => repeated_field(fields_view(fs@), num) == Some(bytes_seqs(v@)),
            None => repeated_field(fields_view(fs@), num) is None,
        },
{
    let ghost all = fields_view(fs@);
    let mut cur: Vec<Vec<u8>> = Vec::new();
    let mut i: usize = 0;
    assert(all.take(0) =~= Seq::<FieldV>::empty());
    assert(bytes_seqs(cur@) =~= Seq::<Seq<u8>>::empty());
    while i < fs.len()
        invariant
            i <= fs@.len(),
            all == fields_view(fs@),
            repeated_field(all.take(i as int), num) == Some(bytes_seqs(cur@)),
        decreases fs@.len() - i,
    {
        assert(all.take(i + 1).drop_last() =~= all.take(i as int));
        assert(all.take(i + 1).last() == fs@[i as int]@);
        let f = &fs[i];
        if f.number == num {
            match &f.value {
                WireValue::Bytes(v) => {
                    let ghost before = bytes_seqs(cur@);
                    cur.push(copy_bytes(v));
                    assert(bytes_seqs(cur@) =~= before.push(v@));
                },
                _ => {
                    proof {
                        lemma_none_stays_repeated(all, num, i as nat + 1);
                    }
                    return None;
                },
            }
        }
        i = i + 1;
    }
    assert(all.take(fs@.len() as int) =~= all);
    Some(cur)
}

} // verus!
