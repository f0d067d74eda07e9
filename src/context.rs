//! The evaluation context as it arrives on the wire, and its decoder.

use vstd::prelude::*;
use vstd::utf8::*;
use crate::wire::{field_at, lemma_field_at_len, read_field};

verus! {

/// An evaluation context as the host sends it. Each entry of `properties`
/// is a key and a value, in the order in which they arrived.
pub struct WireContext {
    pub user_id: Option<String>,
    pub session_id: Option<String>,
    pub environment: Option<String>,
    pub app_name: Option<String>,
    pub current_time: Option<String>,
    pub remote_address: Option<String>,
    pub properties: Vec<(String, String)>,
}

/// The text of a `WireContext`.
pub struct ContextModel {
    pub user_id: Option<Seq<char>>,
    pub session_id: Option<Seq<char>>,
    pub environment: Option<Seq<char>>,
    pub app_name: Option<Seq<char>>,
    pub current_time: Option<Seq<char>>,
    pub remote_address: Option<Seq<char>>,
    pub properties: Seq<(Seq<char>, Seq<char>)>,
}

pub open spec fn text_view(s: Option<String>) -> Option<Seq<char>> {
    match s {
        Some(t) => Some(t@),
        None => None,
    }
}

pub open spec fn entry_view(e: (String, String)) -> (Seq<char>, Seq<char>) {
    (e.0@, e.1@)
}

impl View for WireContext {
    type V = ContextModel;

    open spec fn view(&self) -> ContextModel {
        ContextModel {
            user_id: text_view(self.user_id),
            session_id: text_view(self.session_id),
            environment: text_view(self.environment),
            app_name: text_view(self.app_name),
            current_time: text_view(self.current_time),
            remote_address: text_view(self.remote_address),
            properties: self.properties@.map_values(|e: (String, String)| entry_view(e)),
        }
    }
}

/// A context with no field set.
pub open spec fn empty_context() -> ContextModel {
    ContextModel {
        user_id: None,
        session_id: None,
        environment: None,
        app_name: None,
        current_time: None,
        remote_address: None,
        properties: Seq::empty(),
    }
}

/// `m` with text field `field` (1 to 6: user id, session id, environment,
/// app name, current time, remote address) set to `s`.
pub open spec fn with_text(m: ContextModel, field: nat, s: Seq<char>) -> ContextModel {
    if field == 1 {
        ContextModel { user_id: Some(s), ..m }
    } else if field == 2 {
        ContextModel { session_id: Some(s), ..m }
    } else if field == 3 {
        ContextModel { environment: Some(s), ..m }
    } else if field == 4 {
        ContextModel { app_name: Some(s), ..m }
    } else if field == 5 {
        ContextModel { current_time: Some(s), ..m }
    } else {
        ContextModel { remote_address: Some(s), ..m }
    }
}

/// Reads the fields of a property entry (key = 1, value = 2) from `b` into
/// `kv`. A later occurrence of a field replaces an earlier one; unknown
/// fields are skipped; key and value must be UTF-8 text.
pub open spec fn entry_fields(b: Seq<u8>, kv: (Seq<char>, Seq<char>)) -> Option<(Seq<char>, Seq<char>)>
    decreases b.len(),
    via entry_fields_decreases
{
    if b.len() == 0 {
        Some(kv)
    } else {
        match field_at(b) {
            None => None,
            Some((f, w, s, e)) => {
                let value = b.subrange(s as int, e as int);
                let rest = b.skip(e as int);
                if f == 1 || f == 2 {
                    if w != 2 || !valid_utf8(value) {
                        None
                    } else if f == 1 {
                        entry_fields(rest, (decode_utf8(value), kv.1))
                    } else {
                        entry_fields(rest, (kv.0, decode_utf8(value)))
                    }
                } else {
                    entry_fields(rest, kv)
                }
            },
        }
    }
}

#[via_fn]
proof fn entry_fields_decreases(b: Seq<u8>, kv: (Seq<char>, Seq<char>)) {
    lemma_field_at_len(b);
}

/// Reads the fields of a context from `b` into `acc`: text fields 1 to 6,
/// property entries as field 7. A later occurrence of a text field replaces
/// an earlier one; entries accumulate; unknown fields are skipped.
pub open spec fn context_fields(b: Seq<u8>, acc: ContextModel) -> Option<ContextModel>
    decreases b.len(),
    via context_fields_decreases
{
    if b.len() == 0 {
        Some(acc)
    } else {
        match field_at(b) {
            None => None,
            Some((f, w, s, e)) => {
                let value = b.subrange(s as int, e as int);
                let rest = b.skip(e as int);
                if 1 <= f <= 7 && w != 2 {
                    None
                } else if 1 <= f <= 6 {
                    if valid_utf8(value) {
                        context_fields(rest, with_text(acc, f, decode_utf8(value)))
                    } else {
                        None
                    }
                } else if f == 7 {
                    match entry_fields(value, (Seq::empty(), Seq::empty())) {
                        Some(kv) => context_fields(rest, ContextModel { properties: acc.properties.push(kv), ..acc }),
                        None => None,
                    }
                } else {
                    context_fields(rest, acc)
                }
            },
        }
    }
}

#[via_fn]
proof fn context_fields_decreases(b: Seq<u8>, acc: ContextModel) {
    lemma_field_at_len(b);
}

/// The context that `b` encodes, or `None` where `b` is malformed.
pub open spec fn context_of(b: Seq<u8>) -> Option<ContextModel> {
    context_fields(b, empty_context())
}

/// Relies on std::str::from_utf8: it accepts exactly the valid UTF-8
/// sequences, and the text it gives back has `b` as its bytes.
#[verifier::external_body]
fn utf8_text(b: &[u8]) -> (r: Option<String>)
    ensures
        r is Some <==> valid_utf8(b@),
        r matches Some(s) ==> encode_utf8(s@) == b@,
{
    match std::str::from_utf8(b) {
        Ok(s) => Some(s.to_owned()),
        Err(_) => None,
    }
}

/// Decodes UTF-8 text; `None` where `b` is not valid UTF-8.
fn decode_text(b: &[u8]) -> (r: Option<String>)
    ensures
        r is Some <==> valid_utf8(b@),
        r matches Some(s) ==> s@ == decode_utf8(b@),
{
    let r = utf8_text(b);
    proof {
        broadcast use encode_utf8_decode_utf8;
        if r is Some {
            assert(decode_utf8(encode_utf8(r->0@)) == r->0@);
        }
    }
    r
}

/// Decodes one property entry.
fn decode_entry(b: &[u8]) -> (r: Option<(String, String)>)
    ensures
        r matches Some(kv) ==> entry_fields(b@, (Seq::empty(), Seq::empty())) == Some(entry_view(kv)),
        r is None ==> entry_fields(b@, (Seq::empty(), Seq::empty())) is None,
{
    let mut key = String::new();
    let mut value = String::new();
    let mut pos: usize = 0;
    proof {
        assert(b@.skip(0) =~= b@);
    }
    while pos < b.len()
        invariant
            pos <= b@.len(),
            entry_fields(b@.skip(pos as int), (key@, value@)) == entry_fields(
                b@,
                (Seq::empty(), Seq::empty()),
            ),
        decreases b@.len() - pos,
    {
        let ghost t = b@.skip(pos as int);
        let (f, w, s, e) = match read_field(b, pos) {
            Some(x) => x,
            None => return None,
        };
        proof {
            lemma_field_at_len(t);
            assert(t.subrange((s - pos) as int, (e - pos) as int) =~= b@.subrange(s as int, e as int));
            assert(t.skip((e - pos) as int) =~= b@.skip(e as int));
        }
        if f == 1 || f == 2 {
            if w != 2 {
                return None;
            }
            let text = match decode_text(&b[s..e]) {
                Some(x) => x,
                None => return None,
            };
            if f == 1 {
                key = text;
            } else {
                value = text;
            }
        }
        pos = e;
    }
    Some((key, value))
}

/// Decodes an evaluation context from its protobuf bytes; `None` exactly
/// where the bytes are malformed.
pub fn decode_context(b: &[u8]) -> (r: Option<WireContext>)
    ensures
        r matches Some(c) ==> context_of(b@) == Some(c@),
        r is None ==> context_of(b@) is None,
{
    let mut ctx = WireContext {
        user_id: None,
        session_id: None,
        environment: None,
        app_name: None,
        current_time: None,
        remote_address: None,
        properties: Vec::new(),
    };
    let mut pos: usize = 0;
    proof {
        assert(b@.skip(0) =~= b@);
        assert(ctx.properties@.map_values(|e: (String, String)| entry_view(e)) =~= Seq::empty());
        assert(ctx@ =~= empty_context());
    }
    while pos < b.len()
        invariant
            pos <= b@.len(),
            context_fields(b@.skip(pos as int), ctx@) == context_of(b@),
        decreases b@.len() - pos,
    {
        let ghost t = b@.skip(pos as int);
        let ghost before = ctx@;
        let (f, w, s, e) = match read_field(b, pos) {
            Some(x) => x,
            None => return None,
        };
        proof {
            lemma_field_at_len(t);
            assert(t.subrange((s - pos) as int, (e - pos) as int) =~= b@.subrange(s as int, e as int));
            assert(t.skip((e - pos) as int) =~= b@.skip(e as int));
        }
        if 1 <= f && f <= 7 && w != 2 {
            return None;
        }
        if 1 <= f && f <= 6 {
            let text = match decode_text(&b[s..e]) {
                Some(x) => x,
                None => return None,
            };
            if f == 1 {
                ctx.user_id = Some(text);
            } else if f == 2 {
                ctx.session_id = Some(text);
            } else if f == 3 {
                ctx.environment = Some(text);
            } else if f == 4 {
                ctx.app_name = Some(text);
            } else if f == 5 {
                ctx.current_time = Some(text);
            } else {
                ctx.remote_address = Some(text);
            }
            proof {
                assert(ctx@ =~= with_text(before, f as nat, decode_utf8(b@.subrange(s as int, e as int))));
            }
        } else if f == 7 {
            let kv = match decode_entry(&b[s..e]) {
                Some(x) => x,
                None => return None,
            };
            ctx.properties.push(kv);
            proof {
                assert(ctx.properties@.map_values(|e: (String, String)| entry_view(e)) =~= before.properties.push(
                    entry_view(kv),
                ));
                assert(ctx@ =~= ContextModel { properties: before.properties.push(entry_view(kv)), ..before });
            }
        }
        pos = e;
    }
    proof {
        assert(b@.skip(pos as int) =~= Seq::<u8>::empty());
    }
    Some(ctx)
}

} // verus!
