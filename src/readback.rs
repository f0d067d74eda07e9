//! How a reader of the outgoing messages decodes them, and the law that
//! decoding what this library encodes gives back what was encoded.

use vstd::prelude::*;
use vstd::utf8::*;
use crate::messages::{
    payload_bytes, toggle_bytes, toggle_list_bytes, toggles_bytes, variant_bytes,
    EvaluatedToggle, EvaluatedToggleList, EvaluatedVariant, VariantPayload,
};
use crate::wire::{
    bool_field, field_at, lemma_bool_field_at, lemma_field_at_len, lemma_len_field_at,
    lemma_varint_round_trip, len_field, string_field, varint, varint_at,
};

verus! {

broadcast use {encode_utf8_valid_utf8, encode_utf8_decode_utf8};

/// A decoded variant payload.
pub struct PayloadModel {
    pub payload_type: Seq<char>,
    pub value: Seq<char>,
}

/// A decoded variant.
pub struct VariantModel {
    pub name: Seq<char>,
    pub enabled: bool,
    pub feature_enabled: bool,
    pub old_feature_enabled: bool,
    pub payload: Option<PayloadModel>,
}

/// A decoded toggle.
pub struct ToggleModel {
    pub name: Seq<char>,
    pub enabled: bool,
    pub impression_data: bool,
    pub variant: Option<VariantModel>,
}

pub open spec fn payload_model(p: VariantPayload) -> PayloadModel {
    PayloadModel { payload_type: p.payload_type@, value: p.value@ }
}

pub open spec fn variant_model(v: EvaluatedVariant) -> VariantModel {
    VariantModel {
        name: v.name@,
        enabled: v.enabled,
        feature_enabled: v.feature_enabled,
        old_feature_enabled: v.old_feature_enabled,
        payload: match v.payload {
            Some(p) => Some(payload_model(p)),
            None => None,
        },
    }
}

pub open spec fn toggle_model(t: EvaluatedToggle) -> ToggleModel {
    ToggleModel {
        name: t.name@,
        enabled: t.enabled,
        impression_data: t.impression_data,
        variant: match t.variant {
            Some(v) => Some(variant_model(v)),
            None => None,
        },
    }
}

/// What a reader does with one field: from the state so far, the field
/// number, the wire type and the field's value bytes, the next state, or
/// `None` where the field is malformed.
pub type FieldStep<A> = spec_fn(A, nat, nat, Seq<u8>) -> Option<A>;

/// Reads every field of `b` in order, starting from `acc`.
pub open spec fn fields_fold<A>(b: Seq<u8>, acc: A, step: FieldStep<A>) -> Option<A>
    decreases b.len(),
    via fields_fold_decreases::<A>
{
    if b.len() == 0 {
        Some(acc)
    } else {
        match field_at(b) {
            None => None,
            Some((f, w, s, e)) => match step(acc, f, w, b.subrange(s as int, e as int)) {
                Some(a) => fields_fold(b.skip(e as int), a, step),
                None => None,
            },
        }
    }
}

#[via_fn]
proof fn fields_fold_decreases<A>(b: Seq<u8>, acc: A, step: FieldStep<A>) {
    lemma_field_at_len(b);
}

/// A string value: length-delimited UTF-8.
pub open spec fn text_value(w: nat, v: Seq<u8>) -> Option<Seq<char>> {
    if w == 2 && valid_utf8(v) {
        Some(decode_utf8(v))
    } else {
        None
    }
}

/// A bool value: a varint, true where it is not zero.
pub open spec fn bool_value(w: nat, v: Seq<u8>) -> Option<bool> {
    if w == 0 {
        match varint_at(v) {
            Some((x, _)) => Some(x != 0),
            None => None,
        }
    } else {
        None
    }
}

pub open spec fn empty_payload() -> PayloadModel {
    PayloadModel { payload_type: Seq::empty(), value: Seq::empty() }
}

pub open spec fn payload_step() -> FieldStep<PayloadModel> {
    |a: PayloadModel, f: nat, w: nat, v: Seq<u8>|
        if f == 1 {
            match text_value(w, v) {
                Some(t) => Some(PayloadModel { payload_type: t, ..a }),
                None => None,
            }
        } else if f == 2 {
            match text_value(w, v) {
                Some(t) => Some(PayloadModel { value: t, ..a }),
                None => None,
            }
        } else {
            Some(a)
        }
}

/// The payload that `b` encodes.
pub open spec fn payload_of(b: Seq<u8>) -> Option<PayloadModel> {
    fields_fold(b, empty_payload(), payload_step())
}

pub open spec fn empty_variant() -> VariantModel {
    VariantModel {
        name: Seq::empty(),
        enabled: false,
        feature_enabled: false,
        old_feature_enabled: false,
        payload: None,
    }
}

pub open spec fn variant_step() -> FieldStep<VariantModel> {
    |a: VariantModel, f: nat, w: nat, v: Seq<u8>|
        if f == 1 {
            match text_value(w, v) {
                Some(t) => Some(VariantModel { name: t, ..a }),
                None => None,
            }
        } else if f == 2 {
            match bool_value(w, v) {
                Some(x) => Some(VariantModel { enabled: x, ..a }),
                None => None,
            }
        } else if f == 3 {
            match bool_value(w, v) {
                Some(x) => Some(VariantModel { feature_enabled: x, ..a }),
                None => None,
            }
        } else if f == 4 {
            match bool_value(w, v) {
                Some(x) => Some(VariantModel { old_feature_enabled: x, ..a }),
                None => None,
            }
        } else if f == 5 {
            if w == 2 {
                match payload_of(v) {
                    Some(p) => Some(VariantModel { payload: Some(p), ..a }),
                    None => None,
                }
            } else {
                None
            }
        } else {
            Some(a)
        }
}

/// The variant that `b` encodes.
pub open spec fn variant_of(b: Seq<u8>) -> Option<VariantModel> {
    fields_fold(b, empty_variant(), variant_step())
}

pub open spec fn empty_toggle() -> ToggleModel {
    ToggleModel { name: Seq::empty(), enabled: false, impression_data: false, variant: None }
}

pub open spec fn toggle_step() -> FieldStep<ToggleModel> {
    |a: ToggleModel, f: nat, w: nat, v: Seq<u8>|
        if f == 1 {
            match text_value(w, v) {
                Some(t) => Some(ToggleModel { name: t, ..a }),
                None => None,
            }
        } else if f == 2 {
            match bool_value(w, v) {
                Some(x) => Some(ToggleModel { enabled: x, ..a }),
                None => None,
            }
        } else if f == 3 {
            match bool_value(w, v) {
                Some(x) => Some(ToggleModel { impression_data: x, ..a }),
                None => None,
            }
        } else if f == 4 {
            if w == 2 {
                match variant_of(v) {
                    Some(x) => Some(ToggleModel { variant: Some(x), ..a }),
                    None => None,
                }
            } else {
                None
            }
        } else {
            Some(a)
        }
}

/// The toggle that `b` encodes.
pub open spec fn toggle_of(b: Seq<u8>) -> Option<ToggleModel> {
    fields_fold(b, empty_toggle(), toggle_step())
}

pub open spec fn list_step() -> FieldStep<Seq<ToggleModel>> {
    |a: Seq<ToggleModel>, f: nat, w: nat, v: Seq<u8>|
        if f == 1 {
            if w == 2 {
                match toggle_of(v) {
                    Some(t) => Some(a.push(t)),
                    None => None,
                }
            } else {
                None
            }
        } else {
            Some(a)
        }
}

/// The toggles that `b` encodes as an `EvaluatedToggleList`, in order.
pub open spec fn toggle_list_of(b: Seq<u8>) -> Option<Seq<ToggleModel>> {
    fields_fold(b, Seq::empty(), list_step())
}

proof fn lemma_fold_len<A>(f: nat, p: Seq<u8>, rest: Seq<u8>, acc: A, step: FieldStep<A>)
    requires
        1 <= f <= 15,
        p.len() < 0x1_0000_0000_0000_0000,
    ensures
        fields_fold(len_field(f, p) + rest, acc, step) == match step(acc, f, 2, p) {
            Some(a) => fields_fold(rest, a, step),
            None => None,
        },
{
    lemma_len_field_at(f, p, rest);
    lemma_field_at_len(len_field(f, p) + rest);
}

proof fn lemma_fold_string<A>(f: nat, s: Seq<char>, rest: Seq<u8>, acc: A, step: FieldStep<A>)
    requires
        1 <= f <= 15,
        string_field(f, s).len() < 0x1_0000_0000_0000_0000,
    ensures
        fields_fold(string_field(f, s) + rest, acc, step) == if s.len() == 0 {
            fields_fold(rest, acc, step)
        } else {
            match step(acc, f, 2, encode_utf8(s)) {
                Some(a) => fields_fold(rest, a, step),
                None => None,
            }
        },
        text_value(2, encode_utf8(s)) == Some(s),
{
    if s.len() == 0 {
        assert(string_field(f, s) + rest =~= rest);
    } else {
        lemma_fold_len(f, encode_utf8(s), rest, acc, step);
    }
}

proof fn lemma_fold_bool<A>(f: nat, b: bool, rest: Seq<u8>, acc: A, step: FieldStep<A>)
    requires
        1 <= f <= 15,
    ensures
        fields_fold(bool_field(f, b) + rest, acc, step) == if b {
            match step(acc, f, 0, seq![1u8]) {
                Some(a) => fields_fold(rest, a, step),
                None => None,
            }
        } else {
            fields_fold(rest, acc, step)
        },
        bool_value(0, seq![1u8]) == Some(true),
{
    assert(varint(1) == seq![1u8]);
    lemma_varint_round_trip(1, Seq::empty());
    assert(seq![1u8] + Seq::<u8>::empty() =~= seq![1u8]);
    if b {
        lemma_bool_field_at(f, rest);
        lemma_field_at_len(bool_field(f, b) + rest);
    } else {
        assert(bool_field(f, b) + rest =~= rest);
    }
}

proof fn lemma_payload_round_trip(p: VariantPayload)
    requires
        payload_bytes(p).len() < 0x1_0000_0000_0000_0000,
    ensures
        payload_of(payload_bytes(p)) == Some(payload_model(p)),
{
    let a = string_field(1, p.payload_type@);
    let b = string_field(2, p.value@);
    let e = Seq::<u8>::empty();
    assert(payload_bytes(p) =~= a + (b + e));
    let step = payload_step();
    lemma_fold_string(1, p.payload_type@, b + e, empty_payload(), step);
    let m1 = PayloadModel { payload_type: p.payload_type@, ..empty_payload() };
    assert(fields_fold(a + (b + e), empty_payload(), step) == fields_fold(b + e, m1, step)) by {
        if p.payload_type@.len() == 0 {
            assert(p.payload_type@ =~= Seq::<char>::empty());
            assert(m1 == empty_payload());
        }
    }
    lemma_fold_string(2, p.value@, e, m1, step);
    assert(p.value@.len() == 0 ==> p.value@ =~= Seq::<char>::empty());
    assert(fields_fold(e, PayloadModel { value: p.value@, ..m1 }, step) == Some(payload_model(p)));
}

proof fn lemma_variant_round_trip(v: EvaluatedVariant)
    requires
        variant_bytes(v).len() < 0x1_0000_0000_0000_0000,
    ensures
        variant_of(variant_bytes(v)) == Some(variant_model(v)),
{
    let s1 = string_field(1, v.name@);
    let b2 = bool_field(2, v.enabled);
    let b3 = bool_field(3, v.feature_enabled);
    let b4 = bool_field(4, v.old_feature_enabled);
    let p5 = match v.payload {
        Some(p) => len_field(5, payload_bytes(p)),
        None => Seq::<u8>::empty(),
    };
    let e = Seq::<u8>::empty();
    let r4 = p5 + e;
    let r3 = b4 + r4;
    let r2 = b3 + r3;
    let r1 = b2 + r2;
    assert(variant_bytes(v) =~= s1 + r1);
    let step = variant_step();
    let m0 = empty_variant();
    let m1 = VariantModel { name: v.name@, ..m0 };
    let m2 = VariantModel { enabled: v.enabled, ..m1 };
    let m3 = VariantModel { feature_enabled: v.feature_enabled, ..m2 };
    let m4 = VariantModel { old_feature_enabled: v.old_feature_enabled, ..m3 };
    lemma_fold_string(1, v.name@, r1, m0, step);
    if v.name@.len() == 0 {
        assert(v.name@ =~= Seq::<char>::empty());
        assert(m1 == m0);
    }
    lemma_fold_bool(2, v.enabled, r2, m1, step);
    lemma_fold_bool(3, v.feature_enabled, r3, m2, step);
    lemma_fold_bool(4, v.old_feature_enabled, r4, m3, step);
    match v.payload {
        Some(p) => {
            lemma_payload_round_trip(p);
            lemma_fold_len(5, payload_bytes(p), e, m4, step);
        },
        None => {
            assert(r4 =~= e);
        },
    }
}

/// Encoding a single toggle and decoding the bytes again gives back every
/// field of it. The one condition is that the encoding fits in 64 bits.
pub proof fn lemma_toggle_round_trip(t: EvaluatedToggle)
    requires
        toggle_bytes(t).len() < 0x1_0000_0000_0000_0000,
    ensures
        toggle_of(toggle_bytes(t)) == Some(toggle_model(t)),
{
    let s1 = string_field(1, t.name@);
    let b2 = bool_field(2, t.enabled);
    let b3 = bool_field(3, t.impression_data);
    let v4 = match t.variant {
        Some(v) => len_field(4, variant_bytes(v)),
        None => Seq::<u8>::empty(),
    };
    let e = Seq::<u8>::empty();
    let r3 = v4 + e;
    let r2 = b3 + r3;
    let r1 = b2 + r2;
    assert(toggle_bytes(t) =~= s1 + r1);
    let step = toggle_step();
    let m0 = empty_toggle();
    let m1 = ToggleModel { name: t.name@, ..m0 };
    let m2 = ToggleModel { enabled: t.enabled, ..m1 };
    let m3 = ToggleModel { impression_data: t.impression_data, ..m2 };
    lemma_fold_string(1, t.name@, r1, m0, step);
    if t.name@.len() == 0 {
        assert(t.name@ =~= Seq::<char>::empty());
        assert(m1 == m0);
    }
    lemma_fold_bool(2, t.enabled, r2, m1, step);
    lemma_fold_bool(3, t.impression_data, r3, m2, step);
    match t.variant {
        Some(v) => {
            lemma_variant_round_trip(v);
            lemma_fold_len(4, variant_bytes(v), e, m3, step);
        },
        None => {
            assert(r3 =~= e);
        },
    }
}

proof fn lemma_toggles_round_trip(ts: Seq<EvaluatedToggle>, acc: Seq<ToggleModel>)
    requires
        toggles_bytes(ts).len() < 0x1_0000_0000_0000_0000,
    ensures
        fields_fold(toggles_bytes(ts), acc, list_step()) == Some(acc + ts.map_values(|t: EvaluatedToggle| toggle_model(t))),
    decreases ts.len(),
{
    let models = ts.map_values(|t: EvaluatedToggle| toggle_model(t));
    if ts.len() == 0 {
        assert(acc + models =~= acc);
    } else {
        let rest = ts.drop_first();
        let first = len_field(1, toggle_bytes(ts[0]));
        lemma_toggle_round_trip(ts[0]);
        lemma_fold_len(1, toggle_bytes(ts[0]), toggles_bytes(rest), acc, list_step());
        lemma_toggles_round_trip(rest, acc.push(toggle_model(ts[0])));
        assert(acc.push(toggle_model(ts[0])) + rest.map_values(|t: EvaluatedToggle| toggle_model(t)) =~= acc + models);
    }
}

/// Encoding a toggle list and decoding the bytes again gives back every
/// toggle, field for field and in the same order. The one condition is that
/// the encoding fits in memory.
pub proof fn lemma_toggle_list_round_trip(l: EvaluatedToggleList)
    requires
        toggle_list_bytes(l).len() <= usize::MAX,
    ensures
        toggle_list_of(toggle_list_bytes(l)) == Some(l.toggles@.map_values(|t: EvaluatedToggle| toggle_model(t))),
{
    lemma_toggles_round_trip(l.toggles@, Seq::empty());
    assert(Seq::<ToggleModel>::empty() + l.toggles@.map_values(|t: EvaluatedToggle| toggle_model(t))
        =~= l.toggles@.map_values(|t: EvaluatedToggle| toggle_model(t)));
}

} // verus!
