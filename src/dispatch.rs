//! State ingestion and resolution against one engine instance: decode the
//! input, call the engine, encode what it answered.

use vstd::prelude::*;
use vstd::string::StringExecFns;
use unleash_yggdrasil::{Context, EngineState, ExtendedVariantDef, ResolvedToggle};
use crate::bindings::{
    apply_update, entry_names, has_state, is_property_map, is_update_message, json_error_text,
    names_after, parse_update, property_map, resolve_every, resolve_toggle, toggle_names,
    update_of,
};
use crate::context::{context_of, decode_context, WireContext};
use crate::envelope::{failure_text, status_envelope, success_text};
use crate::error::{is_message_of, BridgeError, INVALID_JSON_PREFIX, PARTIAL_UPDATE_PREFIX};
use crate::messages::{
    encode_toggle, encode_toggle_list, toggle_bytes, toggles_bytes, EvaluatedToggle,
    EvaluatedToggleList, EvaluatedVariant, VariantPayload,
};

verus! {

/// The engine context for a wire context: field by field, with the
/// properties gathered into a map.
pub fn translate_context(c: WireContext) -> (r: Context)
    ensures
        r.user_id == c.user_id,
        r.session_id == c.session_id,
        r.environment == c.environment,
        r.app_name == c.app_name,
        r.current_time == c.current_time,
        r.remote_address == c.remote_address,
        r.properties matches Some(m) && is_property_map(c.properties@, m@),
{
    Context {
        user_id: c.user_id,
        session_id: c.session_id,
        environment: c.environment,
        app_name: c.app_name,
        current_time: c.current_time,
        remote_address: c.remote_address,
        properties: Some(property_map(c.properties)),
    }
}

/// A resolved toggle together with the project it belongs to.
pub struct ResolvedToggleState {
    pub enabled: bool,
    pub impression_data: bool,
    pub project: String,
    pub variant: ExtendedVariantDef,
}

/// The variant that the engine picked, in wire form.
pub open spec fn variant_of(v: ExtendedVariantDef) -> EvaluatedVariant {
    EvaluatedVariant {
        name: v.name,
        enabled: v.enabled,
        feature_enabled: v.feature_enabled,
        old_feature_enabled: v.feature_enabled,
        payload: match v.payload {
            Some(p) => Some(VariantPayload { payload_type: p.payload_type, value: p.value }),
            None => None,
        },
    }
}

/// Whether `e` is the wire form of toggle `name` resolved as `t`.
pub open spec fn is_evaluation_of(e: EvaluatedToggle, name: Seq<char>, t: ResolvedToggle) -> bool {
    &&& e.name@ == name
    &&& e.enabled == t.enabled
    &&& e.impression_data == t.impression_data
    &&& e.variant == Some(variant_of(t.variant))
}

/// The wire form of toggle `name` resolved as `t`.
pub fn evaluated_toggle(name: String, t: ResolvedToggle) -> (r: EvaluatedToggle)
    ensures
        is_evaluation_of(r, name@, t),
{
    let variant = t.variant;
    let payload = match variant.payload {
        Some(p) => Some(VariantPayload { payload_type: p.payload_type, value: p.value }),
        None => None,
    };
    EvaluatedToggle {
        name,
        enabled: t.enabled,
        impression_data: t.impression_data,
        variant: Some(
            EvaluatedVariant {
                name: variant.name,
                enabled: variant.enabled,
                feature_enabled: variant.feature_enabled,
                old_feature_enabled: variant.feature_enabled,
                payload,
            },
        ),
    }
}

/// Whether an entry is kept: every entry when `include_all`, else the
/// enabled ones.
pub open spec fn keeps(include_all: bool) -> spec_fn((String, ResolvedToggle)) -> bool {
    |e: (String, ResolvedToggle)| include_all || e.1.enabled
}

/// The entries of `entries` that a list keeps, in their order.
pub open spec fn kept_entries(entries: Seq<(String, ResolvedToggle)>, include_all: bool) -> Seq<(String, ResolvedToggle)> {
    entries.filter(keeps(include_all))
}

/// Whether `toggles` are the wire forms of `entries`, one for one.
pub open spec fn evaluates(toggles: Seq<EvaluatedToggle>, entries: Seq<(String, ResolvedToggle)>) -> bool {
    &&& toggles.len() == entries.len()
    &&& forall|i: int| 0 <= i < toggles.len() ==> is_evaluation_of(#[trigger] toggles[i], entries[i].0@, entries[i].1)
}

/// The wire list of resolved toggles: all of them when `include_all`,
/// else only the enabled ones, in the order given.
pub fn into_list(entries: Vec<(String, ResolvedToggle)>, include_all: bool) -> (r: EvaluatedToggleList)
    ensures
        evaluates(r.toggles@, kept_entries(entries@, include_all)),
{
    let ghost all = entries@;
    let mut toggles: Vec<EvaluatedToggle> = Vec::new();
    let ghost mut done: Seq<(String, ResolvedToggle)> = Seq::empty();
    for entry in it: entries.into_iter()
        invariant
            it.seq() == all,
            done == all.take(it.index()),
            evaluates(toggles@, kept_entries(done, include_all)),
    {
        proof {
            assert(all.take(it.index() + 1) =~= done.push(entry));
            done.lemma_filter_push(entry, keeps(include_all));
            reveal(Seq::filter);
        }
        let (name, t) = entry;
        if include_all || t.enabled {
            let e = evaluated_toggle(name, t);
            toggles.push(e);
        }
        proof {
            done = done.push(entry);
        }
    }
    proof {
        assert(done =~= all);
    }
    EvaluatedToggleList { toggles }
}

/// Leaving out the disabled toggles keeps exactly the enabled entries: the
/// full list is every entry, each entry of the filtered list is enabled and
/// stands in the full list, each enabled entry of the full list is kept, and
/// where some entry is disabled the filtered list is shorter.
pub proof fn lemma_enabled_only(entries: Seq<(String, ResolvedToggle)>)
    ensures
        kept_entries(entries, true) == entries,
        forall|e: (String, ResolvedToggle)| #[trigger] kept_entries(entries, false).contains(e)
            ==> e.1.enabled && kept_entries(entries, true).contains(e),
        forall|e: (String, ResolvedToggle)| #[trigger] kept_entries(entries, true).contains(e) && e.1.enabled
            ==> kept_entries(entries, false).contains(e),
        (exists|i: int| 0 <= i < entries.len() && !(#[trigger] entries[i]).1.enabled)
            ==> kept_entries(entries, false).len() < kept_entries(entries, true).len(),
    decreases entries.len(),
{
    reveal(Seq::filter);
    if entries.len() > 0 {
        let rest = entries.drop_last();
        let last = entries.last();
        lemma_enabled_only(rest);
        assert(rest.push(last) =~= entries);
        rest.lemma_filter_push(last, keeps(true));
        rest.lemma_filter_push(last, keeps(false));
        rest.filter(keeps(false)).lemma_filter_len(keeps(false));
        if exists|i: int| 0 <= i < entries.len() && !(#[trigger] entries[i]).1.enabled {
            let i = choose|i: int| 0 <= i < entries.len() && !(#[trigger] entries[i]).1.enabled;
            if i < rest.len() {
                assert(!rest[i].1.enabled);
            }
        }
        assert forall|e: (String, ResolvedToggle)| #[trigger] kept_entries(entries, false).contains(e)
            implies e.1.enabled && kept_entries(entries, true).contains(e) by {
            if e == last {
                assert(entries[entries.len() - 1] == e);
            } else {
                assert(kept_entries(rest, false).contains(e));
                let k = choose|k: int| 0 <= k < rest.len() && rest[k] == e;
                assert(entries[k] == e);
            }
        }
        assert forall|e: (String, ResolvedToggle)| #[trigger] kept_entries(entries, true).contains(e) && e.1.enabled
            implies kept_entries(entries, false).contains(e) by {
            if e != last {
                let k = choose|k: int| 0 <= k < entries.len() && entries[k] == e;
                assert(rest.contains(e)) by { assert(rest[k] == e); }
            } else {
                assert(kept_entries(entries, false).last() == e);
            }
        }
    }
}

/// Applies a JSON state update to `engine`. Text that is not an update
/// leaves the engine as it was; warnings from the engine come back as
/// `PartialUpdate`, with the update applied.
pub fn apply_state(engine: &mut EngineState, json: &str) -> (r: Result<(), BridgeError>)
    ensures
        !is_update_message(json@) ==> *final(engine) == *old(engine) && r matches Err(BridgeError::InvalidJson(_)),
        is_update_message(json@) ==> r is Ok || r matches Err(BridgeError::PartialUpdate(_)),
        is_update_message(json@) ==> has_state(*final(engine)) && toggle_names(*final(engine))
            == names_after(toggle_names(*old(engine)), update_of(json@)),
{
    let update = match parse_update(json) {
        Ok(u) => u,
        Err(e) => return Err(BridgeError::InvalidJson(json_error_text(&e))),
    };
    match apply_update(engine, update) {
        Some(warnings) => Err(BridgeError::PartialUpdate(warnings)),
        None => Ok(()),
    }
}

/// Applies a JSON state update and answers with a status envelope.
pub fn take_state(engine: &mut EngineState, json: &str) -> (r: String)
    ensures
        !is_update_message(json@) ==> *final(engine) == *old(engine) && exists|detail: Seq<char>|
            r@ == failure_text(INVALID_JSON_PREFIX@ + detail),
        is_update_message(json@) ==> r@ == success_text() || exists|printed: Seq<char>|
            r@ == failure_text(PARTIAL_UPDATE_PREFIX@ + printed),
        is_update_message(json@) ==> has_state(*final(engine)) && toggle_names(*final(engine))
            == names_after(toggle_names(*old(engine)), update_of(json@)),
{
    let result = apply_state(engine, json);
    let ghost outcome = result;
    let r = status_envelope(result);
    proof {
        if let Err(e) = outcome {
            let m = choose|m: Seq<char>| is_message_of(&e, m) && r@ == failure_text(m);
            if let BridgeError::InvalidJson(d) = e {
                assert(r@ == failure_text(INVALID_JSON_PREFIX@ + d@));
            } else if let BridgeError::PartialUpdate(_) = e {
                let p = choose|p: Seq<char>| m == PARTIAL_UPDATE_PREFIX@ + p;
                assert(r@ == failure_text(PARTIAL_UPDATE_PREFIX@ + p));
            }
        }
    }
    r
}

/// The message for a context that does not decode.
pub const INVALID_CONTEXT: &'static str = "Invalid Context";

/// The encoded outcome of resolving toggle `name`; `NullError` where the
/// engine resolved nothing.
pub fn encode_resolution(name: &str, outcome: Option<ResolvedToggle>) -> (r: Result<Vec<u8>, BridgeError>)
    ensures
        outcome is None ==> r matches Err(BridgeError::NullError),
        outcome matches Some(t) ==> (r matches Ok(b) && exists|e: EvaluatedToggle|
            is_evaluation_of(e, name@, t) && b@ == toggle_bytes(e)),
{
    match outcome {
        Some(t) => {
            let e = evaluated_toggle(String::from_str(name), t);
            Ok(encode_toggle(&e))
        },
        None => Err(BridgeError::NullError),
    }
}

/// Resolves toggle `toggle_name` against the protobuf context `context` and
/// encodes the outcome.
pub fn resolve(engine: &EngineState, toggle_name: &str, context: &[u8]) -> (r: Result<Vec<u8>, BridgeError>)
    ensures
        context_of(context@) is None <==> r matches Err(BridgeError::InvalidProto(_)),
        context_of(context@) is Some && r is Err ==> r matches Err(BridgeError::NullError),
        context_of(context@) is Some ==> (r is Ok <==> toggle_names(*engine).contains(toggle_name@)),
        r matches Ok(b) ==> exists|e: EvaluatedToggle, t: ResolvedToggle|
            is_evaluation_of(e, toggle_name@, t) && b@ == toggle_bytes(e),
{
    let wire = match decode_context(context) {
        Some(c) => c,
        None => return Err(BridgeError::InvalidProto(String::from_str(INVALID_CONTEXT))),
    };
    let ctx = translate_context(wire);
    let outcome = resolve_toggle(engine, toggle_name, &ctx);
    encode_resolution(toggle_name, outcome)
}

/// The encoded list for the outcome of resolving every toggle;
/// `NullError` where the engine resolved nothing.
pub fn encode_resolutions(outcome: Option<Vec<(String, ResolvedToggle)>>, include_all: bool) -> (r: Result<Vec<u8>, BridgeError>)
    ensures
        outcome is None ==> r matches Err(BridgeError::NullError),
        outcome matches Some(v) ==> (r matches Ok(b) && exists|ts: Seq<EvaluatedToggle>|
            evaluates(ts, kept_entries(v@, include_all)) && b@ == toggles_bytes(ts)),
{
    match outcome {
        Some(v) => {
            let list = into_list(v, include_all);
            Ok(encode_toggle_list(&list))
        },
        None => Err(BridgeError::NullError),
    }
}

/// Whether no two entries share a toggle name.
pub open spec fn distinct_names(entries: Seq<(String, ResolvedToggle)>) -> bool {
    forall|i: int, j: int| 0 <= i < j < entries.len() ==> entries[i].0 != entries[j].0
}

/// Resolves every toggle against the protobuf context `context` and
/// encodes the list: all toggles when `include_all`, else the enabled ones.
pub fn resolve_all(engine: &EngineState, context: &[u8], include_all: bool) -> (r: Result<Vec<u8>, BridgeError>)
    ensures
        context_of(context@) is None <==> r matches Err(BridgeError::InvalidProto(_)),
        context_of(context@) is Some && r is Err ==> r matches Err(BridgeError::NullError),
        context_of(context@) is Some ==> (r is Ok <==> has_state(*engine)),
        r matches Ok(b) ==> exists|v: Seq<(String, ResolvedToggle)>, ts: Seq<EvaluatedToggle>|
            distinct_names(v) && entry_names(v) == toggle_names(*engine)
                && evaluates(ts, kept_entries(v, include_all)) && b@ == toggles_bytes(ts),
{
    let wire = match decode_context(context) {
        Some(c) => c,
        None => return Err(BridgeError::InvalidProto(String::from_str(INVALID_CONTEXT))),
    };
    let ctx = translate_context(wire);
    let outcome = resolve_every(engine, &ctx);
    let ghost entries = outcome;
    let r = encode_resolutions(outcome, include_all);
    proof {
        if let Some(v) = entries {
            assert(distinct_names(v@));
            assert(entry_names(v@) == toggle_names(*engine));
        }
    }
    r
}

} // verus!
