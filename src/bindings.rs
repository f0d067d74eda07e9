//! The engine's types and calls, as this library relies on them.

use vstd::prelude::*;
use unleash_yggdrasil::{Context, EngineState, EvalWarning, ExtendedVariantDef, ResolvedToggle, UpdateMessage};
use unleash_types::client_features::Payload;
use std::collections::HashMap;

verus! {

#[verifier::external_type_specification]
#[verifier::external_body]
pub struct ExEngineState(EngineState);

#[verifier::external_type_specification]
#[verifier::external_body]
pub struct ExUpdateMessage(UpdateMessage);

#[verifier::external_type_specification]
#[verifier::external_body]
pub struct ExEvalWarning(EvalWarning);

#[verifier::external_type_specification]
#[verifier::external_body]
pub struct ExJsonError(serde_json::Error);

#[verifier::external_type_specification]
pub struct ExContext(Context);

#[verifier::external_type_specification]
pub struct ExPayload(Payload);

#[verifier::external_type_specification]
pub struct ExExtendedVariantDef(ExtendedVariantDef);

#[verifier::external_type_specification]
pub struct ExResolvedToggle(ResolvedToggle);

/// Whether `text` is the JSON form of an engine state update.
pub uninterp spec fn is_update_message(text: Seq<char>) -> bool;

/// The names of the toggles that the engine holds; none before it has
/// received any state.
pub uninterp spec fn toggle_names(e: EngineState) -> Set<Seq<char>>;

/// Whether the engine has received any state.
pub uninterp spec fn has_state(e: EngineState) -> bool;

/// The update that the JSON text `text` parses to.
pub uninterp spec fn update_of(text: Seq<char>) -> UpdateMessage;

/// The toggle names an engine holds after `update`, from those it held
/// before: a full update replaces them, a delta adds and removes.
pub uninterp spec fn names_after(before: Set<Seq<char>>, update: UpdateMessage) -> Set<Seq<char>>;

/// The toggle names that `entries` hold.
pub open spec fn entry_names(entries: Seq<(String, ResolvedToggle)>) -> Set<Seq<char>> {
    Set::new(|n: Seq<char>| exists|i: int| 0 <= i < entries.len() && entries[i].0@ == n)
}

/// Relies on serde_json::from_str for `UpdateMessage`: whether the text
/// parses, and what it parses to, depends on the text alone.
#[verifier::external_body]
pub(crate) fn parse_update(text: &str) -> (r: Result<UpdateMessage, serde_json::Error>)
    ensures
        r is Ok <==> is_update_message(text@),
        r matches Ok(u) ==> u == update_of(text@),
{
    serde_json::from_str(text)
}

/// Relies on the `Display` text of serde_json's error, which says what
/// was wrong and where.
#[verifier::external_body]
pub(crate) fn json_error_text(e: &serde_json::Error) -> String {
    e.to_string()
}

/// Relies on EngineState::take_state: it installs the update, warnings or
/// not, and returns the warnings it raised while compiling it, if any. The
/// toggles it then holds are those of its previous features with the update
/// applied, and it holds state from then on.
#[verifier::external_body]
pub(crate) fn apply_update(engine: &mut EngineState, update: UpdateMessage) -> (r: Option<Vec<EvalWarning>>)
    ensures
        has_state(*final(engine)),
        toggle_names(*final(engine)) == names_after(toggle_names(*old(engine)), update),
{
    engine.take_state(update)
}

/// Relies on EngineState::resolve, with no overrides of external values:
/// `None` where the engine holds no state or no toggle of that name.
#[verifier::external_body]
pub(crate) fn resolve_toggle(engine: &EngineState, name: &str, context: &Context) -> (r: Option<ResolvedToggle>)
    ensures
        r is Some <==> toggle_names(*engine).contains(name@),
{
    engine.resolve(name, context, &None)
}

/// Relies on EngineState::resolve_all, with no overrides of external
/// values: `None` where the engine holds no state. Its map has one entry per
/// toggle name; the order in which they come out is the map's.
#[verifier::external_body]
pub(crate) fn resolve_every(engine: &EngineState, context: &Context) -> (r: Option<Vec<(String, ResolvedToggle)>>)
    ensures
        r is Some <==> has_state(*engine),
        r matches Some(v) ==> forall|i: int, j: int| 0 <= i < j < v@.len() ==> v@[i].0 != v@[j].0,
        r matches Some(v) ==> entry_names(v@) == toggle_names(*engine),
{
    engine.resolve_all(context, &None).map(|m| m.into_iter().collect())
}

/// Whether `m` maps each key of `entries` to the value of its last entry,
/// and holds no other key.
pub open spec fn is_property_map(entries: Seq<(String, String)>, m: Map<String, String>) -> bool {
    &&& forall|k: String| m.contains_key(k) <==> exists|i: int| 0 <= i < entries.len() && entries[i].0 == k
    &&& forall|i: int|
        0 <= i < entries.len() && (forall|j: int| i < j < entries.len() ==> entries[j].0 != entries[i].0)
            ==> m[entries[i].0] == entries[i].1
}

/// Relies on collecting pairs into a `HashMap`: each pair is inserted in
/// turn, so a later value replaces an earlier one under the same key.
#[verifier::external_body]
pub(crate) fn property_map(entries: Vec<(String, String)>) -> (r: HashMap<String, String>)
    ensures
        is_property_map(entries@, r@),
{
    entries.into_iter().collect()
}


/// Relies on the engine's `Debug` output for its warnings, which names each
/// toggle and what went wrong with it.
#[verifier::external_body]
pub(crate) fn describe_warnings(warnings: &Vec<EvalWarning>) -> String {
    format!("{:?}", warnings)
}

} // verus!
