//! The protobuf messages that cross the boundary: the evaluation context
//! coming in, evaluated toggles going out.

use vstd::prelude::*;
use vstd::utf8::*;
use crate::wire::{bool_field, len_field, put_bool_field, put_len_field, put_string_field, string_field};

verus! {

/// The payload that a variant may carry.
pub struct VariantPayload {
    pub payload_type: String,
    pub value: String,
}

/// The variant picked for a toggle.
pub struct EvaluatedVariant {
    pub name: String,
    pub enabled: bool,
    pub feature_enabled: bool,
    /// The same value as `feature_enabled`, kept for older readers.
    pub old_feature_enabled: bool,
    pub payload: Option<VariantPayload>,
}

/// The outcome of resolving one toggle.
pub struct EvaluatedToggle {
    pub name: String,
    pub enabled: bool,
    pub impression_data: bool,
    pub variant: Option<EvaluatedVariant>,
}

/// Outcomes of resolving several toggles; their order carries no meaning.
pub struct EvaluatedToggleList {
    pub toggles: Vec<EvaluatedToggle>,
}

/// Bytes of a `VariantPayload`: type = 1, value = 2.
pub open spec fn payload_bytes(p: VariantPayload) -> Seq<u8> {
    string_field(1, p.payload_type@) + string_field(2, p.value@)
}

/// Bytes of an `EvaluatedVariant`: name = 1, enabled = 2,
/// feature_enabled = 3, old_feature_enabled = 4, payload = 5.
pub open spec fn variant_bytes(v: EvaluatedVariant) -> Seq<u8> {
    string_field(1, v.name@) + bool_field(2, v.enabled) + bool_field(3, v.feature_enabled)
        + bool_field(4, v.old_feature_enabled) + match v.payload {
        Some(p) => len_field(5, payload_bytes(p)),
        None => Seq::empty(),
    }
}

/// Bytes of an `EvaluatedToggle`: name = 1, enabled = 2,
/// impression_data = 3, variant = 4.
pub open spec fn toggle_bytes(t: EvaluatedToggle) -> Seq<u8> {
    string_field(1, t.name@) + bool_field(2, t.enabled) + bool_field(3, t.impression_data)
        + match t.variant {
        Some(v) => len_field(4, variant_bytes(v)),
        None => Seq::empty(),
    }
}

/// Bytes of the toggles `ts` as repeated field 1 of an
/// `EvaluatedToggleList`.
pub open spec fn toggles_bytes(ts: Seq<EvaluatedToggle>) -> Seq<u8>
    decreases ts.len(),
{
    if ts.len() == 0 {
        Seq::empty()
    } else {
        len_field(1, toggle_bytes(ts[0])) + toggles_bytes(ts.drop_first())
    }
}

/// One more toggle adds its field at the end.
pub proof fn lemma_toggles_bytes_push(ts: Seq<EvaluatedToggle>, t: EvaluatedToggle)
    ensures
        toggles_bytes(ts.push(t)) == toggles_bytes(ts) + len_field(1, toggle_bytes(t)),
    decreases ts.len(),
{
    if ts.len() == 0 {
        assert(ts.push(t).drop_first() =~= Seq::<EvaluatedToggle>::empty());
        assert(ts.push(t)[0] == t);
        assert(toggles_bytes(Seq::<EvaluatedToggle>::empty()) == Seq::<u8>::empty());
        assert(toggles_bytes(ts.push(t)) =~= toggles_bytes(ts) + len_field(1, toggle_bytes(t)));
    } else {
        assert(ts.push(t).drop_first() =~= ts.drop_first().push(t));
        lemma_toggles_bytes_push(ts.drop_first(), t);
        assert(ts.push(t)[0] == ts[0]);
        assert(toggles_bytes(ts.push(t)) =~= toggles_bytes(ts) + len_field(1, toggle_bytes(t)));
    }
}

/// Bytes of an `EvaluatedToggleList`.
pub open spec fn toggle_list_bytes(l: EvaluatedToggleList) -> Seq<u8> {
    toggles_bytes(l.toggles@)
}

/// Encodes a variant payload.
pub fn encode_payload(p: &VariantPayload) -> (r: Vec<u8>)
    ensures
        r@ == payload_bytes(*p),
{
    let mut buf: Vec<u8> = Vec::new();
    put_string_field(&mut buf, 1, &p.payload_type);
    put_string_field(&mut buf, 2, &p.value);
    buf
}

/// Encodes an evaluated variant.
pub fn encode_variant(v: &EvaluatedVariant) -> (r: Vec<u8>)
    ensures
        r@ == variant_bytes(*v),
{
    let mut buf: Vec<u8> = Vec::new();
    put_string_field(&mut buf, 1, &v.name);
    put_bool_field(&mut buf, 2, v.enabled);
    put_bool_field(&mut buf, 3, v.feature_enabled);
    put_bool_field(&mut buf, 4, v.old_feature_enabled);
    match &v.payload {
        Some(p) => {
            let inner = encode_payload(p);
            put_len_field(&mut buf, 5, inner.as_slice());
        },
        None => {},
    }
    proof {
        assert(buf@ =~= variant_bytes(*v));
    }
    buf
}

/// Encodes an evaluated toggle.
pub fn encode_toggle(t: &EvaluatedToggle) -> (r: Vec<u8>)
    ensures
        r@ == toggle_bytes(*t),
{
    let mut buf: Vec<u8> = Vec::new();
    put_string_field(&mut buf, 1, &t.name);
    put_bool_field(&mut buf, 2, t.enabled);
    put_bool_field(&mut buf, 3, t.impression_data);
    match &t.variant {
        Some(v) => {
            let inner = encode_variant(v);
            put_len_field(&mut buf, 4, inner.as_slice());
        },
        None => {},
    }
    proof {
        assert(buf@ =~= toggle_bytes(*t));
    }
    buf
}

/// Encodes a list of evaluated toggles.
pub fn encode_toggle_list(l: &EvaluatedToggleList) -> (r: Vec<u8>)
    ensures
        r@ == toggle_list_bytes(*l),
{
    let mut buf: Vec<u8> = Vec::new();
    let n = l.toggles.len();
    for i in 0..n
        invariant
            n == l.toggles@.len(),
            buf@ == toggles_bytes(l.toggles@.subrange(0, i as int)),
    {
        let inner = encode_toggle(&l.toggles[i]);
        put_len_field(&mut buf, 1, inner.as_slice());
        proof {
            assert(l.toggles@.subrange(0, i + 1) =~= l.toggles@.subrange(0, i as int).push(l.toggles@[i as int]));
            lemma_toggles_bytes_push(l.toggles@.subrange(0, i as int), l.toggles@[i as int]);
        }
    }
    proof {
        assert(l.toggles@.subrange(0, n as int) =~= l.toggles@);
    }
    buf
}

} // verus!
