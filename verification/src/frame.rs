//! The frame: the unit of communication between a client and the router.

use serde_json::Value;
use vstd::prelude::*;
use crate::text::{copy_opt_text, copy_opt_texts, copy_texts, opt_text, opt_texts, texts};

verus! {

/// Largest text, in bytes, that a fragment carries when no other limit is set.
pub const DEFAULT_MAX_FRAGMENT_BYTES: usize = 8192;

/// The budget of one stream: messages in flight, tokens, and cost in
/// millionths of a dollar.
#[derive(Debug, Clone, Copy, PartialEq, Eq, Structural)]
pub struct Window {
    pub max_parallel: u32,
    pub max_tokens: u64,
    pub max_usd_micros: u64,
}

/// An estimate of what a request costs.
#[derive(Debug, Clone, Copy, PartialEq, Eq, Structural)]
pub struct CostEst {
    pub in_tokens: u64,
    pub out_tokens: u64,
    pub usd_micros: u64,
}

/// Attributes that the policy oracle reads. The router passes them on as they
/// are.
#[derive(Debug)]
pub struct Meta {
    pub task_type: Option<String>,
    pub languages: Option<Vec<String>>,
    pub risk: Option<String>,
    pub data_scope: Option<Vec<String>>,
    pub trace: Option<Value>,
    pub tool_permissions: Option<Vec<String>>,
    pub environment_id: Option<String>,
    pub security_groups: Option<Vec<String>>,
}

/// What a frame carries: a tag for the kind of content, the content itself,
/// and optional annotations. `confidence` is a JSON number that the router
/// does not read.
#[derive(Debug)]
pub struct Payload {
    pub kind: String,
    pub content: Value,
    pub confidence: Option<Value>,
    pub cost_est: Option<CostEst>,
    pub checksum: Option<String>,
    pub expiry_ms: Option<u64>,
}

/// One message on the client transport.
#[derive(Debug)]
pub struct Frame {
    pub v: u8,
    pub session_id: String,
    pub stream_id: String,
    pub msg_seq: u64,
    pub frag_seq: u32,
    pub flags: Vec<String>,
    pub qos: String,
    pub ttl: u8,
    pub window: Window,
    pub meta: Meta,
    pub payload: Payload,
    pub sig: Option<String>,
    pub checksum: Option<String>,
}

/// A claim reported by an adapter.
#[derive(Debug)]
pub struct Finding {
    pub id: String,
    pub severity: Option<String>,
    pub claim: String,
    pub confidence: Option<Value>,
    pub provenance: Option<Vec<String>>,
}

pub struct MetaView {
    pub task_type: Option<Seq<char>>,
    pub languages: Option<Seq<Seq<char>>>,
    pub risk: Option<Seq<char>>,
    pub data_scope: Option<Seq<Seq<char>>>,
    pub trace: Option<Value>,
    pub tool_permissions: Option<Seq<Seq<char>>>,
    pub environment_id: Option<Seq<char>>,
    pub security_groups: Option<Seq<Seq<char>>>,
}

pub struct PayloadView {
    pub kind: Seq<char>,
    pub content: Value,
    pub confidence: Option<Value>,
    pub cost_est: Option<CostEst>,
    pub checksum: Option<Seq<char>>,
    pub expiry_ms: Option<u64>,
}

pub struct FrameView {
    pub v: u8,
    pub session_id: Seq<char>,
    pub stream_id: Seq<char>,
    pub msg_seq: u64,
    pub frag_seq: u32,
    pub flags: Seq<Seq<char>>,
    pub qos: Seq<char>,
    pub ttl: u8,
    pub window: Window,
    pub meta: MetaView,
    pub payload: PayloadView,
    pub sig: Option<Seq<char>>,
    pub checksum: Option<Seq<char>>,
}

pub struct FindingView {
    pub id: Seq<char>,
    pub severity: Option<Seq<char>>,
    pub claim: Seq<char>,
    pub confidence: Option<Value>,
    pub provenance: Option<Seq<Seq<char>>>,
}

impl View for Meta {
    type V = MetaView;

    open spec fn view(&self) -> MetaView {
        MetaView {
            task_type: opt_text(self.task_type),
            languages: opt_texts(self.languages),
            risk: opt_text(self.risk),
            data_scope: opt_texts(self.data_scope),
            trace: self.trace,
            tool_permissions: opt_texts(self.tool_permissions),
            environment_id: opt_text(self.environment_id),
            security_groups: opt_texts(self.security_groups),
        }
    }
}

impl View for Payload {
    type V = PayloadView;

    open spec fn view(&self) -> PayloadView {
        PayloadView {
            kind: self.kind@,
            content: self.content,
            confidence: self.confidence,
            cost_est: self.cost_est,
            checksum: opt_text(self.checksum),
            expiry_ms: self.expiry_ms,
        }
    }
}

impl View for Frame {
    type V = FrameView;

    open spec fn view(&self) -> FrameView {
        FrameView {
            v: self.v,
            session_id: self.session_id@,
            stream_id: self.stream_id@,
            msg_seq: self.msg_seq,
            frag_seq: self.frag_seq,
            flags: texts(self.flags@),
            qos: self.qos@,
            ttl: self.ttl,
            window: self.window,
            meta: self.meta@,
            payload: self.payload@,
            sig: opt_text(self.sig),
            checksum: opt_text(self.checksum),
        }
    }
}

impl View for Finding {
    type V = FindingView;

    open spec fn view(&self) -> FindingView {
        FindingView {
            id: self.id@,
            severity: opt_text(self.severity),
            claim: self.claim@,
            confidence: self.confidence,
            provenance: opt_texts(self.provenance),
        }
    }
}

/// A copy of an optional JSON value.
pub fn copy_opt_value(o: &Option<Value>) -> (r: Option<Value>)
    ensures
        r == *o,
{
    match o {
        Some(v) => Some(v.clone()),
        None => None,
    }
}

impl Clone for Meta {
    fn clone(&self) -> (r: Self)
        ensures
            r@ == self@,
    {
        Meta {
            task_type: copy_opt_text(&self.task_type),
            languages: copy_opt_texts(&self.languages),
            risk: copy_opt_text(&self.risk),
            data_scope: copy_opt_texts(&self.data_scope),
            trace: copy_opt_value(&self.trace),
            tool_permissions: copy_opt_texts(&self.tool_permissions),
            environment_id: copy_opt_text(&self.environment_id),
            security_groups: copy_opt_texts(&self.security_groups),
        }
    }
}

impl Clone for Payload {
    fn clone(&self) -> (r: Self)
        ensures
            r@ == self@,
    {
        Payload {
            kind: self.kind.clone(),
            content: self.content.clone(),
            confidence: copy_opt_value(&self.confidence),
            cost_est: self.cost_est,
            checksum: copy_opt_text(&self.checksum),
            expiry_ms: self.expiry_ms,
        }
    }
}

impl Clone for Frame {
    fn clone(&self) -> (r: Self)
        ensures
            r@ == self@,
    {
        Frame {
            v: self.v,
            session_id: self.session_id.clone(),
            stream_id: self.stream_id.clone(),
            msg_seq: self.msg_seq,
            frag_seq: self.frag_seq,
            flags: copy_texts(&self.flags),
            qos: self.qos.clone(),
            ttl: self.ttl,
            window: self.window,
            meta: self.meta.clone(),
            payload: self.payload.clone(),
            sig: copy_opt_text(&self.sig),
            checksum: copy_opt_text(&self.checksum),
        }
    }
}

impl Clone for Finding {
    fn clone(&self) -> (r: Self)
        ensures
            r@ == self@,
    {
        Finding {
            id: self.id.clone(),
            severity: copy_opt_text(&self.severity),
            claim: self.claim.clone(),
            confidence: copy_opt_value(&self.confidence),
            provenance: copy_opt_texts(&self.provenance),
        }
    }
}

} // verus!
