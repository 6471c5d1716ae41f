//! What the router tells a client: short notices on the paths that refuse a
//! request, and the headers of the frames that it emits.

use serde_json::Value;
use vstd::prelude::*;
use crate::frame::{Frame, FrameView, Meta, MetaView, Payload, PayloadView, Window};
use crate::canonical::{decimal, push_decimal};
use crate::json::{json_object_of, json_quoted, json_string_of, quote, string_value, text_object};
use crate::text::texts;

verus! {

/// How long a client that was told `BUSY` should wait, in milliseconds.
pub const SUGGESTED_WAIT_MS: u64 = 200;

/// How long a provisional result stays valid, in milliseconds.
pub const PROVISIONAL_EXPIRY_MS: u64 = 1500;

/// A short reply that ends the handling of a message.
#[derive(Debug, Clone, Copy, PartialEq, Eq, Structural)]
pub enum Notice {
    /// The text was no frame: `{"error":"invalid_frame"}`.
    InvalidFrame,
    /// A binary message: `{"error":"binary_not_supported"}`.
    BinaryNotSupported,
    /// A frame with no hops left: `{"error":"ttl_expired"}`.
    TtlExpired,
    /// The policy oracle said no: `{"error":"policy_denied"}`.
    PolicyDenied,
    /// The budget is used up:
    /// `{"control.status":"BUSY","suggested_wait_ms":200}`.
    Busy { suggested_wait_ms: u64 },
    /// Shed under pressure:
    /// `{"control.status":"ECN","action":"drop","reason":"pressure"}`.
    Dropped,
}

/// The JSON text of a notice.
pub open spec fn notice_text(n: Notice) -> Seq<char> {
    match n {
        Notice::InvalidFrame => "{\"error\":\"invalid_frame\"}"@,
        Notice::BinaryNotSupported => "{\"error\":\"binary_not_supported\"}"@,
        Notice::TtlExpired => "{\"error\":\"ttl_expired\"}"@,
        Notice::PolicyDenied => "{\"error\":\"policy_denied\"}"@,
        Notice::Busy { suggested_wait_ms } => "{\"control.status\":\"BUSY\",\"suggested_wait_ms\":"@
            + decimal(suggested_wait_ms as nat) + "}"@,
        Notice::Dropped => "{\"control.status\":\"ECN\",\"action\":\"drop\",\"reason\":\"pressure\"}"@,
    }
}

/// Writes a notice as JSON.
pub fn notice_json(n: Notice) -> (r: String)
    ensures
        r@ == notice_text(n),
{
    match n {
        Notice::InvalidFrame => String::from_str("{\"error\":\"invalid_frame\"}"),
        Notice::BinaryNotSupported => String::from_str("{\"error\":\"binary_not_supported\"}"),
        Notice::TtlExpired => String::from_str("{\"error\":\"ttl_expired\"}"),
        Notice::PolicyDenied => String::from_str("{\"error\":\"policy_denied\"}"),
        Notice::Busy { suggested_wait_ms } => {
            let mut out = String::from_str("{\"control.status\":\"BUSY\",\"suggested_wait_ms\":");
            push_decimal(&mut out, suggested_wait_ms);
            out.append("}");
            out
        },
        Notice::Dropped => String::from_str(
            "{\"control.status\":\"ECN\",\"action\":\"drop\",\"reason\":\"pressure\"}",
        ),
    }
}

/// The JSON text that reports the failure of an adapter: a partial result
/// whose content holds, as `adapter_error`, what failed, at which adapter,
/// and why.
pub open spec fn adapter_error_text(error: Seq<char>, adapter: Seq<char>, reason: Seq<char>) -> Seq<
    char,
> {
    "{\"payload\":{\"type\":\"agent.result.partial\",\"content\":{\"adapter_error\":{\"error\":"@
        + json_quoted(error) + ",\"adapter\":"@ + json_quoted(adapter) + ",\"reason\":"@
        + json_quoted(reason) + "}}}}"@
}

/// Writes the report of an adapter's failure as JSON.
pub fn adapter_error_json(error: &str, adapter: &str, reason: &str) -> (r: String)
    ensures
        r@ == adapter_error_text(error@, adapter@, reason@),
{
    let mut out = String::from_str(
        "{\"payload\":{\"type\":\"agent.result.partial\",\"content\":{\"adapter_error\":{\"error\":",
    );
    let e = quote(error);
    out.append(e.as_str());
    out.append(",\"adapter\":");
    let a = quote(adapter);
    out.append(a.as_str());
    out.append(",\"reason\":");
    let w = quote(reason);
    out.append(w.as_str());
    out.append("}}}}");
    out
}

/// The fields that every frame of the router shares with the request it
/// answers.
#[derive(Debug)]
pub struct Header {
    pub v: u8,
    pub session_id: String,
    pub stream_id: String,
    pub msg_seq: u64,
    pub frag_seq: u32,
    pub flags: Vec<String>,
    pub qos: String,
    pub ttl: u8,
    pub window: Window,
    pub meta: Meta,
}

pub struct HeaderView {
    pub v: u8,
    pub session_id: Seq<char>,
    pub stream_id: Seq<char>,
    pub msg_seq: u64,
    pub frag_seq: u32,
    pub flags: Seq<Seq<char>>,
    pub qos: Seq<char>,
    pub ttl: u8,
    pub window: Window,
    pub meta: MetaView,
}

impl View for Header {
    type V = HeaderView;

    open spec fn view(&self) -> HeaderView {
        HeaderView {
            v: self.v,
            session_id: self.session_id@,
            stream_id: self.stream_id@,
            msg_seq: self.msg_seq,
            frag_seq: self.frag_seq,
            flags: texts(self.flags@),
            qos: self.qos@,
            ttl: self.ttl,
            window: self.window,
            meta: self.meta@,
        }
    }
}

/// The header of a frame that answers `f`: its identity, the sequence number
/// moved on by `bump`, the one flag `flag`, and one hop less to live.
pub open spec fn header_of(f: FrameView, bump: int, flag: Seq<char>) -> HeaderView
    recommends
        f.ttl > 0,
        f.msg_seq + bump <= u64::MAX,
{
    HeaderView {
        v: f.v,
        session_id: f.session_id,
        stream_id: f.stream_id,
        msg_seq: (f.msg_seq + bump) as u64,
        frag_seq: f.frag_seq,
        flags: seq![flag],
        qos: f.qos,
        ttl: (f.ttl - 1) as u8,
        window: f.window,
        meta: f.meta,
    }
}

/// The header of the acknowledgment of `f`.
pub open spec fn ack_header(f: FrameView) -> HeaderView {
    header_of(f, 0, "ACK"@)
}

/// The header of a partial or provisional result for `f`.
pub open spec fn partial_header(f: FrameView) -> HeaderView {
    header_of(f, 1, "MORE"@)
}

/// The header of the final result for `f`.
pub open spec fn final_header(f: FrameView) -> HeaderView {
    header_of(f, 2, "FIN"@)
}

/// The kind of a partial result, and of the acknowledgment.
pub open spec fn partial_kind() -> Seq<char> {
    "agent.result.partial"@
}

/// The kind of a provisional consensus.
pub open spec fn provisional_kind() -> Seq<char> {
    "agent.result.provisional"@
}

/// The kind of the final consensus.
pub open spec fn final_kind() -> Seq<char> {
    "agent.result.final"@
}

/// The kind of a word on the state of the request.
pub open spec fn status_kind() -> Seq<char> {
    "control.status"@
}

/// The frame with the given header and payload, unsigned and without a
/// checksum.
pub open spec fn framed(h: HeaderView, payload: PayloadView) -> FrameView {
    FrameView {
        v: h.v,
        session_id: h.session_id,
        stream_id: h.stream_id,
        msg_seq: h.msg_seq,
        frag_seq: h.frag_seq,
        flags: h.flags,
        qos: h.qos,
        ttl: h.ttl,
        window: h.window,
        meta: h.meta,
        payload: payload,
        sig: None,
        checksum: None,
    }
}

/// The acknowledgment of `f`: a partial result with the content
/// `{"router":"ack"}`, under the number of the request.
pub open spec fn ack_frame_of(f: FrameView) -> FrameView {
    framed(
        ack_header(f),
        PayloadView {
            kind: partial_kind(),
            content: json_object_of("router"@, json_string_of("ack"@)),
            confidence: None,
            cost_est: None,
            checksum: None,
            expiry_ms: None,
        },
    )
}

/// The frame that passes a chunk of an adapter on: the chunk's kind, its
/// content as a string, and its confidence, under the next number.
pub open spec fn partial_frame_of(
    f: FrameView,
    kind: Seq<char>,
    content_json: Seq<char>,
    confidence: Option<Value>,
) -> FrameView {
    framed(
        partial_header(f),
        PayloadView {
            kind: kind,
            content: json_string_of(content_json),
            confidence: confidence,
            cost_est: None,
            checksum: None,
            expiry_ms: None,
        },
    )
}

/// Builds the header of a frame that answers `f`.
pub fn make_header(f: &Frame, bump: u64, flag: &str) -> (h: Header)
    requires
        f.ttl > 0,
        f.msg_seq + bump <= u64::MAX,
    ensures
        h@ == header_of(f@, bump as int, flag@),
{
    let mut flags: Vec<String> = Vec::new();
    flags.push(String::from_str(flag));
    assert(texts(flags@) =~= seq![flag@]);
    Header {
        v: f.v,
        session_id: f.session_id.clone(),
        stream_id: f.stream_id.clone(),
        msg_seq: f.msg_seq + bump,
        frag_seq: f.frag_seq,
        flags: flags,
        qos: f.qos.clone(),
        ttl: f.ttl - 1,
        window: f.window,
        meta: f.meta.clone(),
    }
}

fn frame_under(h: Header, payload: Payload) -> (r: Frame)
    ensures
        r@ == framed(h@, payload@),
{
    Frame {
        v: h.v,
        session_id: h.session_id,
        stream_id: h.stream_id,
        msg_seq: h.msg_seq,
        frag_seq: h.frag_seq,
        flags: h.flags,
        qos: h.qos,
        ttl: h.ttl,
        window: h.window,
        meta: h.meta,
        payload: payload,
        sig: None,
        checksum: None,
    }
}

/// Builds the acknowledgment of `f`.
pub fn ack_frame(f: &Frame) -> (r: Frame)
    requires
        f.ttl > 0,
    ensures
        r@ == ack_frame_of(f@),
{
    let payload = Payload {
        kind: String::from_str("agent.result.partial"),
        content: text_object("router", "ack"),
        confidence: None,
        cost_est: None,
        checksum: None,
        expiry_ms: None,
    };
    frame_under(make_header(f, 0, "ACK"), payload)
}

/// Builds the frame that passes a chunk on.
pub fn partial_frame(f: &Frame, kind: String, content_json: &str, confidence: Option<Value>) -> (r:
    Frame)
    requires
        f.ttl > 0,
        f.msg_seq < u64::MAX,
    ensures
        r@ == partial_frame_of(f@, kind@, content_json@, confidence),
{
    let payload = Payload {
        kind: kind,
        content: string_value(content_json),
        confidence: confidence,
        cost_est: None,
        checksum: None,
        expiry_ms: None,
    };
    frame_under(make_header(f, 1, "MORE"), payload)
}

} // verus!
