//! Rendering store outcomes as HTTP replies.
//!
//! Each handler ends by mapping what the store reported to a status code and
//! a body.  The mapping is total and exhaustive: a read hit carries the
//! stored value through unchanged; a read miss and a read failure both
//! surface as 404 with a diagnostic naming the key; a write failure is 500;
//! a delete failure is 404.  The fixed message texts are exposed through
//! [`body_message`], so the wording the service answers with is part of the
//! contract.

use vstd::prelude::*;
use crate::outcome::{ReadOutcome, ReadOutcomeView, StoreAck};
use crate::request::{parse_write_request, validate_spec, WriteRequest, WriteView};

verus! {

/// The body of an HTTP reply.
pub enum Body {
    /// A read hit: the stored value, served as the body verbatim.
    Value(Vec<u8>),
    /// Confirmation of a successful write.
    SetDone,
    /// Confirmation of a successful delete.
    DeleteDone,
    /// A write payload that failed validation.
    BadPayload,
    /// A write the store did not acknowledge.
    StoreTrouble,
    /// A read that found nothing (or could not reach the store); holds the
    /// key the diagnostic names.
    ReadMiss(Vec<u8>),
    /// A delete the store did not acknowledge.
    DeleteMiss,
}

/// Mathematical counterpart of `Body`.
pub ghost enum BodyView {
    Value(Seq<u8>),
    SetDone,
    DeleteDone,
    BadPayload,
    StoreTrouble,
    ReadMiss(Seq<u8>),
    DeleteMiss,
}

impl View for Body {
    type V = BodyView;

    open spec fn view(&self) -> BodyView {
        match self {
            Body::Value(v) => BodyView::Value(v@),
            Body::SetDone => BodyView::SetDone,
            Body::DeleteDone => BodyView::DeleteDone,
            Body::BadPayload => BodyView::BadPayload,
            Body::StoreTrouble => BodyView::StoreTrouble,
            Body::ReadMiss(k) => BodyView::ReadMiss(k@),
            Body::DeleteMiss => BodyView::DeleteMiss,
        }
    }
}

/// An HTTP reply: a status code and a body.
pub struct HttpReply {
    pub status: u16,
    pub body: Body,
}

/// Mathematical counterpart of `HttpReply`.
pub ghost struct HttpReplyView {
    pub status: u16,
    pub body: BodyView,
}

impl View for HttpReply {
    type V = HttpReplyView;

    open spec fn view(&self) -> HttpReplyView {
        HttpReplyView { status: self.status, body: self.body@ }
    }
}

/// The reply owed to a read of `k` that reported `o`: the value with 200 on
/// a hit; 404 with a diagnostic naming the key on a miss and equally on a
/// store failure, which the read path does not distinguish.
pub open spec fn read_reply(k: Seq<u8>, o: ReadOutcomeView) -> HttpReplyView {
    match o {
        ReadOutcomeView::Found(v) => HttpReplyView { status: 200, body: BodyView::Value(v) },
        ReadOutcomeView::Absent => HttpReplyView { status: 404, body: BodyView::ReadMiss(k) },
        ReadOutcomeView::Failed => HttpReplyView { status: 404, body: BodyView::ReadMiss(k) },
    }
}

/// The reply owed to a write the store answered with `a`: confirmation with
/// 200 when acknowledged, 500 otherwise.
pub open spec fn write_reply(a: StoreAck) -> HttpReplyView {
    match a {
        StoreAck::Acked => HttpReplyView { status: 200, body: BodyView::SetDone },
        StoreAck::Failed => HttpReplyView { status: 500, body: BodyView::StoreTrouble },
    }
}

/// The reply owed to a delete the store answered with `a`: confirmation
/// with 200 when acknowledged, 404 otherwise.
pub open spec fn delete_reply(a: StoreAck) -> HttpReplyView {
    match a {
        StoreAck::Acked => HttpReplyView { status: 200, body: BodyView::DeleteDone },
        StoreAck::Failed => HttpReplyView { status: 404, body: BodyView::DeleteMiss },
    }
}

/// Renders the outcome of a read of `key`.
pub fn reply_to_read(key: Vec<u8>, o: ReadOutcome) -> (r: HttpReply)
    ensures
        r@ == read_reply(key@, o@),
{
    match o {
        ReadOutcome::Found(v) => HttpReply { status: 200, body: Body::Value(v) },
        ReadOutcome::Absent => HttpReply { status: 404, body: Body::ReadMiss(key) },
        ReadOutcome::Failed => HttpReply { status: 404, body: Body::ReadMiss(key) },
    }
}

/// Renders the outcome of a write.
pub fn reply_to_write(a: StoreAck) -> (r: HttpReply)
    ensures
        r@ == write_reply(a),
{
    match a {
        StoreAck::Acked => HttpReply { status: 200, body: Body::SetDone },
        StoreAck::Failed => HttpReply { status: 500, body: Body::StoreTrouble },
    }
}

/// Renders the outcome of a delete.
pub fn reply_to_delete(a: StoreAck) -> (r: HttpReply)
    ensures
        r@ == delete_reply(a),
{
    match a {
        StoreAck::Acked => HttpReply { status: 200, body: Body::DeleteDone },
        StoreAck::Failed => HttpReply { status: 404, body: Body::DeleteMiss },
    }
}

/// How a write request proceeds after validation.
pub enum WritePlan {
    /// The payload failed validation: this reply goes out and the store is
    /// asked nothing.
    Reject(HttpReply),
    /// The store is to write the value at the key, with the optional
    /// expiration.
    Store(WriteRequest),
}

/// Mathematical counterpart of `WritePlan`.
pub ghost enum WritePlanView {
    Reject(HttpReplyView),
    Store(WriteView),
}

impl View for WritePlan {
    type V = WritePlanView;

    open spec fn view(&self) -> WritePlanView {
        match self {
            WritePlan::Reject(h) => WritePlanView::Reject(h@),
            WritePlan::Store(w) => WritePlanView::Store(w@),
        }
    }
}

/// The plan owed to a write with payload `s`: a payload that fails
/// validation is answered 400 with `Bad request` at once; an accepted one
/// has its key, value and expiration handed to the store unchanged.
pub open spec fn write_plan_of(s: Seq<u8>) -> WritePlanView {
    match validate_spec(s) {
        Some(w) => WritePlanView::Store(w),
        None => WritePlanView::Reject(
            HttpReplyView { status: 400, body: BodyView::BadPayload },
        ),
    }
}

/// Decides a write from its raw payload.
pub fn plan_write(body: &Vec<u8>) -> (r: WritePlan)
    requires
        body@.len() < usize::MAX,
    ensures
        r@ == write_plan_of(body@),
{
    match parse_write_request(body) {
        Some(w) => WritePlan::Store(w),
        None => WritePlan::Reject(HttpReply { status: 400, body: Body::BadPayload }),
    }
}

/// The fixed text a body is rendered with, where it has one.  A read hit
/// serves the stored bytes themselves and a read miss is formatted around
/// its key, so both answer `None` here.
pub fn body_message(b: &Body) -> (r: Option<&'static str>)
    ensures
        match b {
            Body::SetDone => (r matches Some(s) && s@ == "Value was successfully set"@),
            Body::DeleteDone => (r matches Some(s) && s@ == "Value was successfully deleted"@),
            Body::BadPayload => (r matches Some(s) && s@ == "Bad request"@),
            Body::StoreTrouble => (r matches Some(s) && s@ == "Internal server error"@),
            Body::DeleteMiss => (r matches Some(s) && s@ == "Value was not deleted"@),
            Body::Value(_) => r is None,
            Body::ReadMiss(_) => r is None,
        },
{
    match b {
        Body::SetDone => Some("Value was successfully set"),
        Body::DeleteDone => Some("Value was successfully deleted"),
        Body::BadPayload => Some("Bad request"),
        Body::StoreTrouble => Some("Internal server error"),
        Body::DeleteMiss => Some("Value was not deleted"),
        Body::Value(_) => None,
        Body::ReadMiss(_) => None,
    }
}

} // verus!
