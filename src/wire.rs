//! Protobuf wire primitives: base-128 varints, field keys and
//! length-delimited fields.

use vstd::prelude::*;
use vstd::utf8::*;

verus! {

/// The bytes of `v` as a base-128 varint, low group first.
pub open spec fn varint(v: nat) -> Seq<u8>
    decreases v,
{
    if v < 128 {
        seq![v as u8]
    } else {
        seq![(v % 128 + 128) as u8] + varint(v / 128)
    }
}

/// Appends the varint encoding of `v` to `buf`.
pub fn put_varint(buf: &mut Vec<u8>, v: u64)
    ensures
        final(buf)@ == old(buf)@ + varint(v as nat),
{
    let mut rest: u64 = v;
    while rest >= 128
        invariant
            old(buf)@ + varint(v as nat) == buf@ + varint(rest as nat),
        decreases rest,
    {
        let byte: u8 = (rest % 128 + 128) as u8;
        proof {
            assert(varint(rest as nat) == seq![byte] + varint((rest / 128) as nat));
            assert(buf@ + varint(rest as nat) =~= buf@.push(byte) + varint((rest / 128) as nat));
        }
        buf.push(byte);
        rest = rest / 128;
    }
    proof {
        assert(varint(rest as nat) == seq![rest as u8]);
        assert(buf@ + varint(rest as nat) =~= buf@.push(rest as u8));
    }
    buf.push(rest as u8);
}


/// Wire type of a varint value.
pub const WIRE_VARINT: u64 = 0;

/// Wire type of a length-delimited value.
pub const WIRE_LEN: u64 = 2;

/// The key that opens field `field` with wire type `wire`.
pub open spec fn key(field: nat, wire: nat) -> Seq<u8> {
    varint(field * 8 + wire)
}

/// A length-delimited field: key, payload length, payload.
pub open spec fn len_field(field: nat, payload: Seq<u8>) -> Seq<u8> {
    key(field, 2) + varint(payload.len()) + payload
}

/// A proto3 string field: left out when empty.
pub open spec fn string_field(field: nat, s: Seq<char>) -> Seq<u8> {
    if s.len() == 0 {
        Seq::empty()
    } else {
        len_field(field, encode_utf8(s))
    }
}

/// A proto3 bool field: left out when false.
pub open spec fn bool_field(field: nat, b: bool) -> Seq<u8> {
    if b {
        key(field, 0) + seq![1u8]
    } else {
        Seq::empty()
    }
}

/// Appends every byte of `src` to `buf`.
pub fn put_bytes(buf: &mut Vec<u8>, src: &[u8])
    ensures
        final(buf)@ == old(buf)@ + src@,
{
    let n = src.len();
    for i in 0..n
        invariant
            n == src@.len(),
            buf@ == old(buf)@ + src@.subrange(0, i as int),
    {
        proof {
            assert(src@.subrange(0, i + 1) =~= src@.subrange(0, i as int).push(src@[i as int]));
        }
        buf.push(src[i]);
    }
    proof {
        assert(src@.subrange(0, n as int) =~= src@);
    }
}

/// Appends a length-delimited field holding `payload`.
pub fn put_len_field(buf: &mut Vec<u8>, field: u64, payload: &[u8])
    requires
        1 <= field <= 0x1fff_ffff,
    ensures
        final(buf)@ == old(buf)@ + len_field(field as nat, payload@),
{
    put_varint(buf, field * 8 + WIRE_LEN);
    put_varint(buf, payload.len() as u64);
    put_bytes(buf, payload);
    proof {
        assert(buf@ =~= old(buf)@ + len_field(field as nat, payload@));
    }
}

/// Appends a proto3 string field; nothing when `s` is empty.
pub fn put_string_field(buf: &mut Vec<u8>, field: u64, s: &String)
    requires
        1 <= field <= 0x1fff_ffff,
    ensures
        final(buf)@ == old(buf)@ + string_field(field as nat, s@),
{
    let bytes = s.as_str().as_bytes();
    proof {
        broadcast use vstd::utf8::encode_utf8_decode_utf8;
        assert(s@.len() == 0 <==> encode_utf8(s@).len() == 0) by {
            if encode_utf8(s@).len() == 0 {
                assert(decode_utf8(encode_utf8(s@)) =~= Seq::<char>::empty());
            }
        }
    }
    if bytes.len() > 0 {
        put_len_field(buf, field, bytes);
    } else {
        proof {
            assert(buf@ =~= old(buf)@ + string_field(field as nat, s@));
        }
    }
}

/// Appends a proto3 bool field; nothing when `b` is false.
pub fn put_bool_field(buf: &mut Vec<u8>, field: u64, b: bool)
    requires
        1 <= field <= 0x1fff_ffff,
    ensures
        final(buf)@ == old(buf)@ + bool_field(field as nat, b),
{
    if b {
        put_varint(buf, field * 8 + WIRE_VARINT);
        buf.push(1u8);
        proof {
            assert(buf@ =~= old(buf)@ + bool_field(field as nat, b));
        }
    } else {
        proof {
            assert(buf@ =~= old(buf)@ + bool_field(field as nat, b));
        }
    }
}


/// Weight of the `i`-th seven-bit group of a varint.
pub open spec fn group_weight(i: nat) -> nat
    decreases i,
{
    if i == 0 {
        1
    } else {
        128 * group_weight((i - 1) as nat)
    }
}

/// Reads a varint from `b`, continuing at group `i` with the value `acc`
/// gathered from the groups before it. A varint spans at most ten bytes and
/// its value fits in 64 bits; the result is the value and the end offset.
pub open spec fn varint_from(b: Seq<u8>, i: nat, acc: nat) -> Option<(nat, nat)>
    decreases 10 - i,
{
    if i >= 10 || i >= b.len() {
        None
    } else {
        let next = acc + (b[i as int] % 128) as nat * group_weight(i);
        if b[i as int] < 128 {
            if next < 0x1_0000_0000_0000_0000 {
                Some((next, i + 1))
            } else {
                None
            }
        } else {
            varint_from(b, i + 1, next)
        }
    }
}

/// The varint at the start of `b`: its value and its length in bytes.
pub open spec fn varint_at(b: Seq<u8>) -> Option<(nat, nat)> {
    varint_from(b, 0, 0)
}

proof fn lemma_group_weight_bound(i: nat)
    requires
        i <= 9,
    ensures
        1 <= group_weight(i) <= 0x8000_0000_0000_0000,
        i < 9 ==> group_weight(i) <= 0x100_0000_0000_0000,
    decreases i,
{
    reveal_with_fuel(group_weight, 10);
    if i > 0 {
        lemma_group_weight_bound((i - 1) as nat);
    }
}

proof fn lemma_varint_from_len(b: Seq<u8>, i: nat, acc: nat)
    ensures
        varint_from(b, i, acc) matches Some((v, n)) ==> i < n <= b.len() && n <= 10 && v < 0x1_0000_0000_0000_0000,
    decreases 10 - i,
{
    if i < 10 && i < b.len() && b[i as int] >= 128 {
        let next = acc + (b[i as int] % 128) as nat * group_weight(i);
        lemma_varint_from_len(b, i + 1, next);
    }
}

/// A varint read by `varint_at` is at least one byte long and lies in `b`.
pub proof fn lemma_varint_at_len(b: Seq<u8>)
    ensures
        varint_at(b) matches Some((v, n)) ==> 1 <= n <= b.len() && n <= 10 && v < 0x1_0000_0000_0000_0000,
{
    lemma_varint_from_len(b, 0, 0);
}

/// Reads the varint that starts at `pos`; returns its value and the offset
/// just past it.
pub fn read_varint(b: &[u8], pos: usize) -> (r: Option<(u64, usize)>)
    requires
        pos <= b@.len(),
    ensures
        r matches Some((v, end)) ==> pos < end <= b@.len() && varint_at(b@.skip(pos as int)) == Some(
            (v as nat, (end - pos) as nat),
        ),
        r is None ==> varint_at(b@.skip(pos as int)) is None,
{
    let ghost t = b@.skip(pos as int);
    let mut i: usize = 0;
    let mut acc: u128 = 0;
    let mut weight: u128 = 1;
    while i < 10 && i < b.len() - pos
        invariant
            pos <= b@.len(),
            t == b@.skip(pos as int),
            i <= 10,
            weight == group_weight(i as nat),
            acc < weight,
            i <= 9 ==> weight <= 0x8000_0000_0000_0000,
            varint_from(t, i as nat, acc as nat) == varint_at(t),
        decreases 10 - i,
    {
        let byte = b[pos + i];
        assert(byte == t[i as int]);
        proof {
            lemma_group_weight_bound(i as nat);
            assert((byte % 128) as nat * weight <= 127 * weight) by (nonlinear_arith)
                requires byte % 128 <= 127;
        }
        let next: u128 = acc + (byte % 128) as u128 * weight;
        if byte < 128 {
            if next < 0x1_0000_0000_0000_0000 {
                return Some((next as u64, pos + i + 1));
            } else {
                return None;
            }
        }
        proof {
            assert(next < 128 * weight);
            if i < 9 {
                lemma_group_weight_bound((i + 1) as nat);
            }
        }
        acc = next;
        weight = weight * 128;
        i = i + 1;
    }
    None
}


/// The field at the start of `b`: its number, its wire type, the offset where
/// its value starts and the offset where the next field starts. For a
/// length-delimited field the value is the payload, without its length; for
/// a group it is everything up to the matching end-group key, which the field
/// includes. A stray end-group key, field number zero and keys wider than 32
/// bits are malformed.
pub open spec fn field_at(b: Seq<u8>) -> Option<(nat, nat, nat, nat)> {
    match varint_at(b) {
        None => None,
        Some((k, n)) => {
            let field = k / 8;
            let wire = k % 8;
            if field == 0 || k > 0xffff_ffff {
                None
            } else if wire == 0 {
                match varint_at(b.skip(n as int)) {
                    Some((_, m)) => Some((field, wire, n, n + m)),
                    None => None,
                }
            } else if wire == 1 {
                if n + 8 <= b.len() { Some((field, wire, n, n + 8)) } else { None }
            } else if wire == 5 {
                if n + 4 <= b.len() { Some((field, wire, n, n + 4)) } else { None }
            } else if wire == 2 {
                match varint_at(b.skip(n as int)) {
                    Some((l, m)) => if n + m + l <= b.len() {
                        Some((field, wire, n + m, n + m + l))
                    } else {
                        None
                    },
                    None => None,
                }
            } else if wire == 3 {
                match group_end(b, seq![field], n) {
                    Some(e) => Some((field, wire, n, e)),
                    None => None,
                }
            } else {
                None
            }
        },
    }
}

/// The length of a value of wire type `w` (other than a group) at the start
/// of `b`, its length prefix included.
pub open spec fn value_len(b: Seq<u8>, w: nat) -> Option<nat> {
    if w == 0 {
        match varint_at(b) {
            Some((_, m)) => Some(m),
            None => None,
        }
    } else if w == 1 {
        if 8 <= b.len() { Some(8) } else { None }
    } else if w == 5 {
        if 4 <= b.len() { Some(4) } else { None }
    } else if w == 2 {
        match varint_at(b) {
            Some((l, m)) => if m + l <= b.len() { Some(m + l) } else { None },
            None => None,
        }
    } else {
        None
    }
}

proof fn lemma_value_len(b: Seq<u8>, w: nat)
    ensures
        value_len(b, w) matches Some(m) ==> 1 <= m <= b.len(),
{
    lemma_varint_at_len(b);
}

/// Skips the fields inside the open groups `open` (innermost last), starting
/// at offset `pos` of `b`: the offset just past the end-group key that
/// closes the outermost one. Each end-group key must match the innermost
/// open group.
pub open spec fn group_end(b: Seq<u8>, open: Seq<nat>, pos: nat) -> Option<nat>
    decreases b.len() - pos,
    via group_end_decreases
{
    if pos >= b.len() || open.len() == 0 {
        None
    } else {
        match varint_at(b.skip(pos as int)) {
            None => None,
            Some((k, n)) => {
                let f = k / 8;
                let w = k % 8;
                let p = pos + n;
                if f == 0 || k > 0xffff_ffff {
                    None
                } else if w == 4 {
                    if f != open.last() {
                        None
                    } else if open.len() == 1 {
                        Some(p)
                    } else {
                        group_end(b, open.drop_last(), p)
                    }
                } else if w == 3 {
                    group_end(b, open.push(f), p)
                } else {
                    match value_len(b.skip(p as int), w) {
                        Some(m) => group_end(b, open, p + m),
                        None => None,
                    }
                }
            },
        }
    }
}

#[via_fn]
proof fn group_end_decreases(b: Seq<u8>, open: Seq<nat>, pos: nat) {
    if pos < b.len() {
        lemma_varint_at_len(b.skip(pos as int));
        if let Some((k, n)) = varint_at(b.skip(pos as int)) {
            lemma_value_len(b.skip((pos + n) as int), k % 8);
        }
    }
}

proof fn lemma_group_end_len(b: Seq<u8>, open: Seq<nat>, pos: nat)
    ensures
        group_end(b, open, pos) matches Some(e) ==> pos < e <= b.len(),
    decreases b.len() - pos,
{
    if pos < b.len() && open.len() > 0 {
        lemma_varint_at_len(b.skip(pos as int));
        if let Some((k, n)) = varint_at(b.skip(pos as int)) {
            let p = pos + n;
            let w = k % 8;
            lemma_value_len(b.skip(p as int), w);
            if w == 4 {
                if open.len() > 1 {
                    lemma_group_end_len(b, open.drop_last(), p);
                }
            } else if w == 3 {
                lemma_group_end_len(b, open.push(k / 8), p);
            } else if let Some(m) = value_len(b.skip(p as int), w) {
                lemma_group_end_len(b, open, p + m);
            }
        }
    }
}

/// A field read by `field_at` is non-empty and lies in `b`.
pub proof fn lemma_field_at_len(b: Seq<u8>)
    ensures
        field_at(b) matches Some((f, w, s, e)) ==> 1 <= s <= e <= b.len() && 1 <= f <= 0x1fff_ffff && w <= 5,
{
    lemma_varint_at_len(b);
    if let Some((k, n)) = varint_at(b) {
        lemma_varint_at_len(b.skip(n as int));
        lemma_group_end_len(b, seq![k / 8], n);
    }
}

/// Reads the field that starts at `pos`: its number, wire type, the
/// offset of its value and the offset of the next field.
pub fn read_field(b: &[u8], pos: usize) -> (r: Option<(u64, u64, usize, usize)>)
    requires
        pos <= b@.len(),
    ensures
        r matches Some((f, w, s, e)) ==> pos <= s <= e <= b@.len() && field_at(b@.skip(pos as int)) == Some(
            (f as nat, w as nat, (s - pos) as nat, (e - pos) as nat),
        ),
        r is None ==> field_at(b@.skip(pos as int)) is None,
{
    let ghost t = b@.skip(pos as int);
    proof {
        lemma_varint_at_len(t);
        lemma_field_at_len(t);
    }
    let (k, after_key) = match read_varint(b, pos) {
        Some(x) => x,
        None => return None,
    };
    let field = k / 8;
    let wire = k % 8;
    if field == 0 || k > 0xffff_ffff {
        return None;
    }
    let ghost n = (after_key - pos) as nat;
    proof {
        assert(varint_at(t) == Some((k as nat, n)));
        assert(n <= t.len());
        assert(t.skip(n as int) =~= b@.skip(after_key as int));
        lemma_varint_at_len(b@.skip(after_key as int));
    }
    if wire == 0 {
        match read_varint(b, after_key) {
            Some((_, end)) => Some((field, wire, after_key, end)),
            None => None,
        }
    } else if wire == 1 {
        if b.len() - after_key >= 8 {
            Some((field, wire, after_key, after_key + 8))
        } else {
            None
        }
    } else if wire == 5 {
        if b.len() - after_key >= 4 {
            Some((field, wire, after_key, after_key + 4))
        } else {
            None
        }
    } else if wire == 2 {
        match read_varint(b, after_key) {
            Some((l, start)) => {
                if l <= (b.len() - start) as u64 {
                    Some((field, wire, start, start + l as usize))
                } else {
                    None
                }
            },
            None => None,
        }
    } else if wire == 3 {
        let rest = &b[pos..b.len()];
        proof {
            assert(rest@ =~= t);
        }
        match skip_group(rest, field, after_key - pos) {
            Some(e) => Some((field, wire, after_key, pos + e)),
            None => None,
        }
    } else {
        None
    }
}

/// The offset just past a value of wire type `w` (other than a group)
/// that starts at `pos`.
fn value_end(b: &[u8], pos: usize, w: u64) -> (r: Option<usize>)
    requires
        pos <= b@.len(),
    ensures
        r matches Some(e) ==> pos <= e <= b@.len() && value_len(b@.skip(pos as int), w as nat) == Some(
            (e - pos) as nat,
        ),
        r is None ==> value_len(b@.skip(pos as int), w as nat) is None,
{
    if w == 0 {
        match read_varint(b, pos) {
            Some((_, e)) => Some(e),
            None => None,
        }
    } else if w == 1 {
        if b.len() - pos >= 8 {
            Some(pos + 8)
        } else {
            None
        }
    } else if w == 5 {
        if b.len() - pos >= 4 {
            Some(pos + 4)
        } else {
            None
        }
    } else if w == 2 {
        match read_varint(b, pos) {
            Some((l, start)) => {
                if l <= (b.len() - start) as u64 {
                    Some(start + l as usize)
                } else {
                    None
                }
            },
            None => None,
        }
    } else {
        None
    }
}

/// The field numbers of the open groups `open`.
pub open spec fn field_numbers(open: Seq<u64>) -> Seq<nat> {
    open.map_values(|x: u64| x as nat)
}

/// Skips the fields of the group of field `field` that start at `start`:
/// the offset just past its end-group key.
fn skip_group(b: &[u8], field: u64, start: usize) -> (r: Option<usize>)
    requires
        start <= b@.len(),
    ensures
        r matches Some(e) ==> start < e <= b@.len() && group_end(b@, seq![field as nat], start as nat) == Some(
            e as nat,
        ),
        r is None ==> group_end(b@, seq![field as nat], start as nat) is None,
{
    let mut open: Vec<u64> = Vec::new();
    open.push(field);
    let mut pos: usize = start;
    proof {
        assert(field_numbers(open@) =~= seq![field as nat]);
    }
    while pos < b.len()
        invariant
            start <= pos <= b@.len(),
            open@.len() >= 1,
            group_end(b@, field_numbers(open@), pos as nat) == group_end(b@, seq![field as nat], start as nat),
        decreases b@.len() - pos,
    {
        let ghost opened = field_numbers(open@);
        let (k, p) = match read_varint(b, pos) {
            Some(x) => x,
            None => return None,
        };
        proof {
            assert(b@.skip(pos as int).skip((p - pos) as int) =~= b@.skip(p as int));
        }
        let f = k / 8;
        let w = k % 8;
        if f == 0 || k > 0xffff_ffff {
            return None;
        }
        if w == 4 {
            let top = open[open.len() - 1];
            if f != top {
                return None;
            }
            if open.len() == 1 {
                return Some(p);
            }
            open.pop();
            proof {
                assert(field_numbers(open@) =~= opened.drop_last());
            }
            pos = p;
        } else if w == 3 {
            open.push(f);
            proof {
                assert(field_numbers(open@) =~= opened.push(f as nat));
            }
            pos = p;
        } else {
            match value_end(b, p, w) {
                Some(e) => {
                    pos = e;
                },
                None => return None,
            }
        }
    }
    None
}


proof fn lemma_varint_len(v: nat, k: nat)
    requires
        1 <= k,
        v < group_weight(k),
    ensures
        varint(v).len() <= k,
    decreases v,
{
    if v >= 128 {
        assert(v / 128 < group_weight((k - 1) as nat)) by (nonlinear_arith)
            requires v < 128 * group_weight((k - 1) as nat), v >= 128;
        assert(k - 1 >= 1) by {
            if k == 1 {
                assert(group_weight(0) == 1);
            }
        }
        lemma_varint_len(v / 128, (k - 1) as nat);
        assert(varint(v) == seq![(v % 128 + 128) as u8] + varint(v / 128));
    }
}

proof fn lemma_varint_from_encoded(pre: Seq<u8>, v: nat, rest: Seq<u8>, acc: nat)
    requires
        pre.len() + varint(v).len() <= 10,
        acc + v * group_weight(pre.len()) < 0x1_0000_0000_0000_0000,
    ensures
        varint_from(pre + varint(v) + rest, pre.len(), acc) == Some(
            (acc + v * group_weight(pre.len()), pre.len() + varint(v).len()),
        ),
    decreases v,
{
    let i = pre.len();
    let b = pre + varint(v) + rest;
    let w = group_weight(i);
    if v < 128 {
        assert(b[i as int] == v as u8);
    } else {
        let b0 = (v % 128 + 128) as u8;
        assert(b[i as int] == b0);
        assert(b0 % 128 == v % 128);
        let next = acc + (v % 128) * w;
        let pre2 = pre.push(b0);
        assert(b =~= pre2 + varint(v / 128) + rest);
        assert(group_weight(i + 1) == 128 * w);
        assert(next + (v / 128) * (128 * w) == acc + v * w) by (nonlinear_arith)
            requires next == acc + (v % 128) * w, v == (v % 128) + 128 * (v / 128);
        lemma_varint_from_encoded(pre2, v / 128, rest, next);
    }
}

/// A varint that fits in 64 bits reads back as itself.
pub proof fn lemma_varint_round_trip(v: nat, rest: Seq<u8>)
    requires
        v < 0x1_0000_0000_0000_0000,
    ensures
        varint_at(varint(v) + rest) == Some((v, varint(v).len())),
{
    reveal_with_fuel(group_weight, 11);
    lemma_varint_len(v, 10);
    assert(Seq::<u8>::empty() + varint(v) + rest =~= varint(v) + rest);
    lemma_varint_from_encoded(Seq::empty(), v, rest, 0);
}

/// A length-delimited field with a small field number is read back with its
/// payload, and the next field starts right after it.
pub proof fn lemma_len_field_at(f: nat, p: Seq<u8>, rest: Seq<u8>)
    requires
        1 <= f <= 15,
        p.len() < 0x1_0000_0000_0000_0000,
    ensures
        ({
            let x = len_field(f, p);
            let s = (x.len() - p.len()) as nat;
            &&& field_at(x + rest) == Some((f, 2nat, s, x.len()))
            &&& (x + rest).subrange(s as int, x.len() as int) == p
            &&& (x + rest).skip(x.len() as int) == rest
        }),
{
    let x = len_field(f, p);
    let k = f * 8 + 2;
    assert(varint(k) == seq![k as u8]);
    assert(x + rest =~= varint(k) + (varint(p.len()) + p + rest));
    lemma_varint_round_trip(k, varint(p.len()) + p + rest);
    assert((x + rest).skip(1) =~= varint(p.len()) + (p + rest));
    lemma_varint_round_trip(p.len(), p + rest);
    assert((x + rest).subrange((x.len() - p.len()) as int, x.len() as int) =~= p);
    assert((x + rest).skip(x.len() as int) =~= rest);
}

/// A true bool field with a small field number is read back as the
/// one-byte varint 1.
pub proof fn lemma_bool_field_at(f: nat, rest: Seq<u8>)
    requires
        1 <= f <= 15,
    ensures
        ({
            let x = bool_field(f, true);
            &&& field_at(x + rest) == Some((f, 0nat, 1nat, 2nat))
            &&& (x + rest).subrange(1, 2) == seq![1u8]
            &&& (x + rest).skip(2) == rest
        }),
{
    let x = bool_field(f, true);
    let k = f * 8;
    assert(varint(k) == seq![k as u8]);
    assert(x + rest =~= varint(k) + (seq![1u8] + rest));
    lemma_varint_round_trip(k, seq![1u8] + rest);
    assert(varint(1) == seq![1u8]);
    assert((x + rest).skip(1) =~= varint(1) + rest);
    lemma_varint_round_trip(1, rest);
    assert((x + rest).subrange(1, 2) =~= seq![1u8]);
    assert((x + rest).skip(2) =~= rest);
}

} // verus!
