//! The laws the service obeys, stated and proved once for all inputs.
//!
//! Each law speaks over the store model of [`crate::outcome`]: a map from
//! keys to values that a write inserts into and a delete removes from.
//! The laws therefore hold whenever the store is reachable and behaves as
//! a key-value map — in particular before any written entry expires.

use vstd::prelude::*;
use crate::outcome::{store_after_delete, store_after_put, store_read};
use crate::request::{validate_spec, WriteView};
use crate::respond::{read_reply, write_plan_of, BodyView, HttpReplyView, WritePlanView};

verus! {

/// The store after a planned write is carried out: a rejected payload
/// asks nothing of it; an accepted one writes the value at the key.
pub open spec fn store_after_plan(m: Map<Seq<u8>, Seq<u8>>, p: WritePlanView) -> Map<
    Seq<u8>,
    Seq<u8>,
> {
    match p {
        WritePlanView::Reject(_) => m,
        WritePlanView::Store(w) => store_after_put(m, w.key, w.value),
    }
}

/// Round trip: writing a value at a key, then reading that key, answers
/// 200 with exactly that value — whatever the store held before.
pub proof fn law_write_then_read(m: Map<Seq<u8>, Seq<u8>>, k: Seq<u8>, v: Seq<u8>)
    ensures
        read_reply(k, store_read(store_after_put(m, k, v), k)) == (HttpReplyView {
            status: 200,
            body: BodyView::Value(v),
        }),
{
}

/// Reading a key never written answers 404.
pub proof fn law_read_absent(m: Map<Seq<u8>, Seq<u8>>, k: Seq<u8>)
    requires
        !m.contains_key(k),
    ensures
        read_reply(k, store_read(m, k)).status == 404,
{
}

/// Deleting a key, then reading it, answers 404 — whether or not the key
/// was there.
pub proof fn law_delete_then_read(m: Map<Seq<u8>, Seq<u8>>, k: Seq<u8>)
    ensures
        read_reply(k, store_read(store_after_delete(m, k), k)).status == 404,
{
}

/// A write payload that fails validation — malformed JSON, a missing
/// `key` or `value`, a wrong type anywhere — is answered 400, and the
/// store is left exactly as it was.
pub proof fn law_invalid_write_changes_nothing(s: Seq<u8>, m: Map<Seq<u8>, Seq<u8>>)
    requires
        validate_spec(s) is None,
    ensures
        write_plan_of(s) matches WritePlanView::Reject(h) && h.status == 400
            && h.body == BodyView::BadPayload,
        store_after_plan(m, write_plan_of(s)) == m,
{
}

/// An accepted write carries the key, the value and the expiration of the
/// payload through unchanged, and the store gains exactly that entry.
pub proof fn law_accepted_write(s: Seq<u8>, m: Map<Seq<u8>, Seq<u8>>, w: WriteView)
    requires
        validate_spec(s) == Some(w),
    ensures
        write_plan_of(s) == WritePlanView::Store(w),
        store_after_plan(m, write_plan_of(s)) == store_after_put(m, w.key, w.value),
{
}

} // verus!
