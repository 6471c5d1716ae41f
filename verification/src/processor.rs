//! The handling of one request, as a machine that is driven by events.
//!
//! The caller does what only it can do: it asks the policy oracle and the
//! adapters, reads the clock and writes to the client. Each thing that
//! happens is handed to [`Processor::step`] as an event; the step decides
//! what follows and says what to send.

use serde_json::Value;
use vstd::prelude::*;
use crate::consensus::{
    consensus_of, embeddings, groups, is_consensus, rows, ConsensusResult, Score,
};
use crate::embedding::{embed, is_embedding};
use crate::frame::{CostEst, Frame, FrameView};
use crate::json::{json_quoted, quote};
use crate::messages::{
    ack_frame, ack_frame_of, adapter_error_json, adapter_error_text, final_header, final_kind,
    make_header, partial_frame, partial_frame_of, partial_header, provisional_kind, status_kind,
    Header, Notice, PROVISIONAL_EXPIRY_MS, SUGGESTED_WAIT_MS,
};
use crate::scheduler::{lane_from_qos, lane_of, Lane};
use crate::text::{chars_of, lowercase, texts};
use crate::window::{
    admits, marked, pressed, released, reserved, state_of, StreamKey, WindowState, WindowTable,
};

verus! {

/// After so many milliseconds of streaming a provisional result goes out
/// whatever the confidence.
pub const PROVISIONAL_DEADLINE_MS: u64 = 700;

/// What the processor waits for.
#[derive(Debug, Clone, Copy, PartialEq, Eq, Structural)]
pub enum Phase {
    /// The answer of the policy oracle.
    Policy,
    /// The cost estimates of the adapters.
    Estimates,
    /// What the adapters stream.
    Streaming,
    /// Nothing: the request is over.
    Done,
}

/// What an adapter answered when asked for an estimate; `None` where it could
/// not be reached.
#[derive(Debug)]
pub struct Estimate {
    pub adapter: String,
    pub cost: Option<CostEst>,
}

/// What an adapter is expected to use.
#[derive(Debug)]
pub struct Prediction {
    pub adapter: String,
    pub tokens: u64,
    pub usd: u64,
}

pub struct PredictionView {
    pub adapter: Seq<char>,
    pub tokens: u64,
    pub usd: u64,
}

impl View for Prediction {
    type V = PredictionView;

    open spec fn view(&self) -> PredictionView {
        PredictionView { adapter: self.adapter@, tokens: self.tokens, usd: self.usd }
    }
}

/// Something that happened.
#[derive(Debug)]
pub enum Event {
    /// The policy oracle answered.
    Policy { allowed: bool },
    /// The adapters were asked for estimates, at the time `now`.
    Estimates { estimates: Vec<Estimate>, now: u64 },
    /// An adapter could not be reached or broke off: what failed, at which
    /// adapter, and why.
    AdapterFailed { error: String, adapter: String, reason: String },
    /// An adapter's stream ended, with what it used in all.
    AdapterStats { adapter: String, observed_tokens: u64, observed_usd: u64 },
    /// An adapter sent a chunk, so long after streaming began.
    AdapterMessage {
        kind: String,
        content_json: String,
        confidence: Option<Value>,
        elapsed_ms: u64,
    },
    /// All adapters are done.
    Drained,
}

/// Why an event was not taken.
#[derive(Debug, Clone, Copy, PartialEq, Eq, Structural)]
pub enum Fault {
    /// The processor waits for something else.
    OutOfPhase,
    /// The estimates add up to more than 64 bits hold.
    Overflow,
}

/// A part of a whole; nothing of one where nothing was predicted.
#[derive(Debug, Clone, Copy, PartialEq, Eq, Structural)]
pub struct Ratio {
    pub num: u64,
    pub den: u64,
}

/// How far what an adapter used lies from what was predicted.
#[derive(Debug, Clone, Copy, PartialEq, Eq, Structural)]
pub struct Accuracy {
    pub tokens: Ratio,
    pub usd: Ratio,
    pub under_tokens: bool,
    pub under_usd: bool,
}

/// What the caller is to do after a step.
#[derive(Debug)]
pub enum Output {
    /// Send the notice; the request is over.
    Notice(Notice),
    /// Send the acknowledgment.
    Ack(Frame),
    /// Send this report of an adapter's failure.
    AdapterError(String),
    /// Record how accurate the prediction was.
    Accuracy(Accuracy),
    /// Send the chunk that the event brought, as this frame.
    Partial(Frame),
    /// Send the provisional consensus, as the content of a payload of this
    /// kind under the header.
    Provisional { header: Header, kind: String, consensus: ConsensusResult, expiry_ms: u64 },
    /// Tell that the final consensus is weaker than the provisional one was,
    /// in a payload of this kind.
    Downgraded { kind: String, from: Score, to: Score },
    /// Send the final consensus, as the content of a payload of this kind
    /// under the header.
    Final { header: Header, kind: String, consensus: ConsensusResult },
    /// The event was not taken.
    Fault(Fault),
}

/// What a processor holds.
pub struct ProcessorView {
    pub frame: FrameView,
    pub phase: Phase,
    pub need_tokens: u64,
    pub need_usd: u64,
    pub predictions: Seq<PredictionView>,
    pub finals: Seq<Seq<char>>,
    pub provisional: Option<Score>,
}

/// The key of the stream of a frame.
pub open spec fn stream_key(f: FrameView) -> StreamKey {
    (f.session_id, f.stream_id)
}

/// What the estimate of one adapter adds to the tokens needed.
pub open spec fn estimate_tokens(e: Estimate) -> int {
    match e.cost {
        Some(c) => c.in_tokens + c.out_tokens,
        None => 0,
    }
}

/// What the estimate of one adapter adds to the cost needed.
pub open spec fn estimate_usd(e: Estimate) -> int {
    match e.cost {
        Some(c) => c.usd_micros as int,
        None => 0,
    }
}

/// The tokens that all adapters together are expected to use.
pub open spec fn total_tokens(list: Seq<Estimate>) -> int
    decreases list.len(),
{
    if list.len() == 0 {
        0
    } else {
        total_tokens(list.drop_last()) + estimate_tokens(list.last())
    }
}

/// The cost that all adapters together are expected to run up.
pub open spec fn total_usd(list: Seq<Estimate>) -> int
    decreases list.len(),
{
    if list.len() == 0 {
        0
    } else {
        total_usd(list.drop_last()) + estimate_usd(list.last())
    }
}

/// The predictions that the estimates give: one for each adapter that
/// answered, in their order.
pub open spec fn predictions_of(list: Seq<Estimate>) -> Seq<PredictionView>
    decreases list.len(),
{
    if list.len() == 0 {
        Seq::empty()
    } else {
        match list.last().cost {
            Some(c) => predictions_of(list.drop_last()).push(
                PredictionView {
                    adapter: list.last().adapter@,
                    tokens: (c.in_tokens + c.out_tokens) as u64,
                    usd: c.usd_micros,
                },
            ),
            None => predictions_of(list.drop_last()),
        }
    }
}

/// The prediction for an adapter: the last one under its name.
pub open spec fn predicted(list: Seq<PredictionView>, adapter: Seq<char>) -> Option<PredictionView>
    decreases list.len(),
{
    if list.len() == 0 {
        None
    } else if list.last().adapter == adapter {
        Some(list.last())
    } else {
        predicted(list.drop_last(), adapter)
    }
}

/// The distance between what was observed and what was predicted, as a part
/// of what was predicted.
pub open spec fn deviation(observed: u64, predicted: u64) -> Ratio {
    if predicted > 0 {
        Ratio {
            num: if observed >= predicted {
                (observed - predicted) as u64
            } else {
                (predicted - observed) as u64
            },
            den: predicted,
        }
    } else {
        Ratio { num: 0, den: 1 }
    }
}

/// The accuracy of a prediction.
pub open spec fn accuracy_of(p: PredictionView, observed_tokens: u64, observed_usd: u64) -> Accuracy {
    Accuracy {
        tokens: deviation(observed_tokens, p.tokens),
        usd: deviation(observed_usd, p.usd),
        under_tokens: observed_tokens > p.tokens,
        under_usd: observed_usd > p.usd,
    }
}

/// Whether a text ends with another.
pub open spec fn ends_with(s: Seq<char>, suffix: Seq<char>) -> bool {
    s.len() >= suffix.len() && s.subrange(s.len() - suffix.len(), s.len() as int) == suffix
}

/// The size of the largest of the first `n` groups.
pub open spec fn largest(groups: Seq<Seq<int>>, n: int) -> int
    decreases n,
{
    if n <= 0 {
        0
    } else if groups[n - 1].len() > largest(groups, n - 1) {
        groups[n - 1].len() as int
    } else {
        largest(groups, n - 1)
    }
}

/// The best score of the consensus over a list of answers.
pub open spec fn top_score(finals: Seq<Seq<char>>) -> Score {
    let g = groups(embeddings(finals));
    Score {
        members: largest(g, g.len() as int) as usize,
        total: if finals.len() == 0 {
            1
        } else {
            finals.len() as usize
        },
    }
}

/// Whether a score reaches the confidence, 0.66, at which a provisional
/// result goes out at once.
pub open spec fn confident(s: Score) -> bool {
    100 * s.members >= 66 * s.total
}

/// Whether `to` lies below `from` by more than 0.05.
pub open spec fn fallen(to: Score, from: Score) -> bool {
    20 * (to.members * from.total) + to.total * from.total < 20 * (from.members * to.total)
}

pub open spec fn is_notice(o: Output, n: Notice) -> bool {
    o matches Output::Notice(x) && x == n
}

pub open spec fn is_fault(o: Output, f: Fault) -> bool {
    o matches Output::Fault(x) && x == f
}

pub open spec fn is_ack(o: Output, f: FrameView) -> bool {
    o matches Output::Ack(x) && x@ == ack_frame_of(f)
}

pub open spec fn is_partial(
    o: Output,
    f: FrameView,
    kind: Seq<char>,
    content_json: Seq<char>,
    confidence: Option<Value>,
) -> bool {
    o matches Output::Partial(x) && x@ == partial_frame_of(f, kind, content_json, confidence)
}

pub open spec fn is_adapter_error(
    o: Output,
    error: Seq<char>,
    adapter: Seq<char>,
    reason: Seq<char>,
) -> bool {
    o matches Output::AdapterError(text) && text@ == adapter_error_text(error, adapter, reason)
}

pub open spec fn is_accuracy(o: Output, a: Accuracy) -> bool {
    o matches Output::Accuracy(x) && x == a
}

pub open spec fn is_provisional(o: Output, f: FrameView, finals: Seq<Seq<char>>) -> bool {
    o matches Output::Provisional { header, kind, consensus, expiry_ms } && header@
        == partial_header(f) && kind@ == provisional_kind() && is_consensus(consensus, finals)
        && expiry_ms == PROVISIONAL_EXPIRY_MS
}

pub open spec fn is_downgrade(o: Output, from: Score, to: Score) -> bool {
    o matches Output::Downgraded { kind, from: a, to: b } && kind@ == status_kind() && a == from
        && b == to
}

pub open spec fn is_final(o: Output, f: FrameView, finals: Seq<Seq<char>>) -> bool {
    o matches Output::Final { header, kind, consensus } && header@ == final_header(f) && kind@
        == final_kind() && is_consensus(consensus, finals)
}

/// The step on the answer of the policy oracle: a refusal ends the request
/// with a notice, and nothing was reserved.
pub open spec fn policy_step(
    pre: ProcessorView,
    allowed: bool,
    post: ProcessorView,
    out: Seq<Output>,
) -> bool {
    if allowed {
        &&& post == ProcessorView { phase: Phase::Estimates, ..pre }
        &&& out.len() == 0
    } else {
        &&& post == ProcessorView { phase: Phase::Done, ..pre }
        &&& out.len() == 1
        &&& is_notice(out[0], Notice::PolicyDenied)
    }
}

/// The step on the estimates: the needs are added up and room is asked for.
/// Without room the client is told to wait and the rejection is recorded. A
/// request of the bronze lane, which is that of every class of service but
/// gold and silver, that finds room while the stream is under pressure is shed
/// and its room given back. Otherwise the request is acknowledged and
/// streaming begins.
pub open spec fn estimates_step(
    pre: ProcessorView,
    table: Map<StreamKey, WindowState>,
    estimates: Seq<Estimate>,
    now: u64,
    post: ProcessorView,
    table_after: Map<StreamKey, WindowState>,
    out: Seq<Output>,
) -> bool {
    let key = stream_key(pre.frame);
    let before = state_of(table, key);
    let tokens = total_tokens(estimates);
    let usd = total_usd(estimates);
    if tokens > u64::MAX || usd > u64::MAX {
        &&& post == ProcessorView { phase: Phase::Done, ..pre }
        &&& table_after == table
        &&& out.len() == 1
        &&& is_fault(out[0], Fault::Overflow)
    } else if !admits(before, pre.frame.window, tokens as u64, usd as u64) {
        &&& post == ProcessorView { phase: Phase::Done, ..pre }
        &&& table_after == table.insert(key, marked(before, now))
        &&& out.len() == 1
        &&& is_notice(out[0], Notice::Busy { suggested_wait_ms: SUGGESTED_WAIT_MS })
    } else if pressed(before, now) && lane_of(lowercase(pre.frame.qos)) == Lane::Bronze {
        &&& post == ProcessorView { phase: Phase::Done, ..pre }
        &&& table_after == table.insert(key, before)
        &&& out.len() == 1
        &&& is_notice(out[0], Notice::Dropped)
    } else {
        &&& post == ProcessorView {
            phase: Phase::Streaming,
            need_tokens: tokens as u64,
            need_usd: usd as u64,
            predictions: predictions_of(estimates),
            ..pre
        }
        &&& table_after == table.insert(key, reserved(before, tokens as u64, usd as u64))
        &&& out.len() == 1
        &&& is_ack(out[0], pre.frame)
    }
}

/// The step on the end of an adapter's stream: where the adapter had made a
/// prediction, its accuracy is to be recorded.
pub open spec fn stats_step(
    pre: ProcessorView,
    adapter: Seq<char>,
    observed_tokens: u64,
    observed_usd: u64,
    post: ProcessorView,
    out: Seq<Output>,
) -> bool {
    &&& post == pre
    &&& match predicted(pre.predictions, adapter) {
        Some(p) => out.len() == 1 && is_accuracy(
            out[0],
            accuracy_of(p, observed_tokens, observed_usd),
        ),
        None => out.len() == 0,
    }
}

/// Whether a provisional result goes out once `finals` have arrived: there
/// was none yet, there are two answers or more, and either their best score
/// is confident or the deadline has passed.
pub open spec fn provisional_due(
    pre: ProcessorView,
    finals: Seq<Seq<char>>,
    elapsed_ms: u64,
) -> bool {
    &&& pre.provisional is None
    &&& finals.len() >= 2
    &&& (confident(top_score(finals)) || elapsed_ms > PROVISIONAL_DEADLINE_MS)
}

/// The step on a chunk: it is passed on. A chunk whose kind ends with
/// `final` is an answer: its content, as a JSON string, joins the answers,
/// and a provisional result may be due.
pub open spec fn message_step(
    pre: ProcessorView,
    kind: Seq<char>,
    content_json: Seq<char>,
    confidence: Option<Value>,
    elapsed_ms: u64,
    post: ProcessorView,
    out: Seq<Output>,
) -> bool {
    let answer = json_quoted(content_json);
    let finals = pre.finals.push(answer);
    &&& out.len() >= 1
    &&& is_partial(out[0], pre.frame, kind, content_json, confidence)
    &&& if !ends_with(kind, "final"@) {
        &&& post == pre
        &&& out.len() == 1
    } else if provisional_due(pre, finals, elapsed_ms) {
        &&& post == ProcessorView { finals: finals, provisional: Some(top_score(finals)), ..pre }
        &&& out.len() == 2
        &&& is_provisional(out[1], pre.frame, finals)
    } else {
        &&& post == ProcessorView { finals: finals, ..pre }
        &&& out.len() == 1
    }
}

/// The step on the end of all streams: the final consensus goes out, after a
/// word on the downgrade where it is weaker than the provisional one by more
/// than the margin, and the room is given back.
pub open spec fn drained_step(
    pre: ProcessorView,
    table: Map<StreamKey, WindowState>,
    post: ProcessorView,
    table_after: Map<StreamKey, WindowState>,
    out: Seq<Output>,
) -> bool {
    let key = stream_key(pre.frame);
    &&& post == ProcessorView { phase: Phase::Done, ..pre }
    &&& table_after == if table.dom().contains(key) {
        table.insert(key, released(table[key], pre.need_tokens, pre.need_usd))
    } else {
        table
    }
    &&& closes(pre.frame, pre.finals, pre.provisional, out)
}

/// An event for which the processor does not wait leaves everything as it is
/// and is reported as a fault.
pub open spec fn refused_step(
    pre: ProcessorView,
    table: Map<StreamKey, WindowState>,
    post: ProcessorView,
    table_after: Map<StreamKey, WindowState>,
    out: Seq<Output>,
) -> bool {
    &&& post == pre
    &&& table_after == table
    &&& out.len() == 1
    &&& is_fault(out[0], Fault::OutOfPhase)
}

/// What goes out when all streams have ended.
pub open spec fn closes(
    f: FrameView,
    finals: Seq<Seq<char>>,
    provisional: Option<Score>,
    out: Seq<Output>,
) -> bool {
    match provisional {
        Some(p) if fallen(top_score(finals), p) => {
            &&& out.len() == 2
            &&& is_downgrade(out[0], p, top_score(finals))
            &&& is_final(out[1], f, finals)
        },
        _ => {
            &&& out.len() == 1
            &&& is_final(out[0], f, finals)
        },
    }
}

/// What a step does, by the phase and the event.
pub open spec fn reacts(
    pre: ProcessorView,
    table: Map<StreamKey, WindowState>,
    event: Event,
    post: ProcessorView,
    table_after: Map<StreamKey, WindowState>,
    out: Seq<Output>,
) -> bool {
    match (pre.phase, event) {
        (Phase::Policy, Event::Policy { allowed }) => table_after == table && policy_step(
            pre,
            allowed,
            post,
            out,
        ),
        (Phase::Estimates, Event::Estimates { estimates, now }) => estimates_step(
            pre,
            table,
            estimates@,
            now,
            post,
            table_after,
            out,
        ),
        (Phase::Streaming, Event::AdapterFailed { error, adapter, reason }) => {
            &&& post == pre
            &&& table_after == table
            &&& out.len() == 1
            &&& is_adapter_error(out[0], error@, adapter@, reason@)
        },
        (
            Phase::Streaming,
            Event::AdapterStats { adapter, observed_tokens, observed_usd },
        ) => table_after == table && stats_step(
            pre,
            adapter@,
            observed_tokens,
            observed_usd,
            post,
            out,
        ),
        (
            Phase::Streaming,
            Event::AdapterMessage { kind, content_json, confidence, elapsed_ms },
        ) => table_after == table && message_step(
            pre,
            kind@,
            content_json@,
            confidence,
            elapsed_ms,
            post,
            out,
        ),
        (Phase::Streaming, Event::Drained) => drained_step(pre, table, post, table_after, out),
        _ => refused_step(pre, table, post, table_after, out),
    }
}

/// The processor of one request. It holds the request, what was reserved
/// for it, what the adapters predicted, and the answers that have arrived
/// with their embeddings.
#[derive(Debug)]
pub struct Processor {
    frame: Frame,
    phase: Phase,
    need_tokens: u64,
    need_usd: u64,
    predictions: Vec<Prediction>,
    finals: Vec<String>,
    vectors: Vec<Vec<u64>>,
    provisional: Option<Score>,
}

/// The views of a list of predictions.
pub open spec fn prediction_views(v: Seq<Prediction>) -> Seq<PredictionView> {
    Seq::new(v.len(), |i: int| v[i]@)
}

impl View for Processor {
    type V = ProcessorView;

    closed spec fn view(&self) -> ProcessorView {
        ProcessorView {
            frame: self.frame@,
            phase: self.phase,
            need_tokens: self.need_tokens,
            need_usd: self.need_usd,
            predictions: prediction_views(self.predictions@),
            finals: texts(self.finals@),
            provisional: self.provisional,
        }
    }
}

/// A state and what to do on the way to it.
#[derive(Debug)]
pub struct Step {
    pub next: Processor,
    pub outputs: Vec<Output>,
}

/// The state in which the handling of a request begins.
pub open spec fn initial(f: FrameView) -> ProcessorView {
    ProcessorView {
        frame: f,
        phase: Phase::Policy,
        need_tokens: 0,
        need_usd: 0,
        predictions: Seq::empty(),
        finals: Seq::empty(),
        provisional: None,
    }
}

proof fn lemma_totals_grow(list: Seq<Estimate>, i: int)
    requires
        0 <= i <= list.len(),
    ensures
        0 <= total_tokens(list.take(i)) <= total_tokens(list),
        0 <= total_usd(list.take(i)) <= total_usd(list),
    decreases list.len() - i,
{
    if i < list.len() {
        lemma_totals_grow(list, i + 1);
        lemma_totals_nonnegative(list.take(i));
        assert(list.take(i + 1).drop_last() =~= list.take(i));
        assert(list.take(i + 1).last() == list[i]);
        assert(estimate_tokens(list[i]) >= 0);
        assert(estimate_usd(list[i]) >= 0);
    } else {
        assert(list.take(i) =~= list);
        lemma_totals_nonnegative(list);
    }
}

proof fn lemma_totals_nonnegative(list: Seq<Estimate>)
    ensures
        0 <= total_tokens(list),
        0 <= total_usd(list),
    decreases list.len(),
{
    if list.len() > 0 {
        lemma_totals_nonnegative(list.drop_last());
    }
}

proof fn lemma_largest_bound(groups: Seq<Seq<int>>, n: int, cap: int)
    requires
        0 <= n <= groups.len(),
        0 <= cap,
        forall|g: int| 0 <= g < n ==> (#[trigger] groups[g]).len() <= cap,
    ensures
        0 <= largest(groups, n) <= cap,
    decreases n,
{
    if n > 0 {
        lemma_largest_bound(groups, n - 1, cap);
    }
}

/// The best score lies between nothing and the whole.
pub proof fn lemma_top_score(finals: Seq<Seq<char>>)
    ensures
        0 <= top_score(finals).members <= finals.len(),
        finals.len() <= usize::MAX ==> top_score(finals).members <= top_score(finals).total,
{
    let emb = embeddings(finals);
    let g = groups(emb);
    assert forall|i: int| 0 <= i < g.len() implies (#[trigger] g[i]).len() <= finals.len() by {
        crate::consensus::lemma_members(emb, i, emb.len() as int);
    }
    lemma_largest_bound(g, g.len() as int, finals.len() as int);
}

fn add_up(estimates: &Vec<Estimate>) -> (r: Option<(u64, u64, Vec<Prediction>)>)
    ensures
        r is Some <==> total_tokens(estimates@) <= u64::MAX && total_usd(estimates@) <= u64::MAX,
        r matches Some(t) ==> t.0 == total_tokens(estimates@) && t.1 == total_usd(estimates@)
            && prediction_views(t.2@) == predictions_of(estimates@),
{
    let mut tokens: u64 = 0;
    let mut usd: u64 = 0;
    let mut predictions: Vec<Prediction> = Vec::new();
    let mut i: usize = 0;
    proof {
        assert(prediction_views(predictions@) =~= predictions_of(estimates@.take(0)));
    }
    while i < estimates.len()
        invariant
            i <= estimates@.len(),
            tokens == total_tokens(estimates@.take(i as int)),
            usd == total_usd(estimates@.take(i as int)),
            prediction_views(predictions@) == predictions_of(estimates@.take(i as int)),
        decreases estimates@.len() - i,
    {
        proof {
            assert(estimates@.take(i + 1).drop_last() =~= estimates@.take(i as int));
            assert(estimates@.take(i + 1).last() == estimates@[i as int]);
            lemma_totals_grow(estimates@, i + 1);
            lemma_totals_nonnegative(estimates@.take(i as int));
        }
        match estimates[i].cost {
            Some(c) => {
                let both = match c.in_tokens.checked_add(c.out_tokens) {
                    Some(b) => b,
                    None => {
                        return None;
                    },
                };
                tokens = match tokens.checked_add(both) {
                    Some(t) => t,
                    None => {
                        return None;
                    },
                };
                usd = match usd.checked_add(c.usd_micros) {
                    Some(u) => u,
                    None => {
                        return None;
                    },
                };
                let ghost before = prediction_views(predictions@);
                let p = Prediction {
                    adapter: estimates[i].adapter.clone(),
                    tokens: both,
                    usd: c.usd_micros,
                };
                predictions.push(p);
                assert(prediction_views(predictions@) =~= before.push(p@));
            },
            None => {},
        }
        i += 1;
    }
    proof {
        assert(estimates@.take(i as int) =~= estimates@);
    }
    Some((tokens, usd, predictions))
}

fn find_prediction(predictions: &Vec<Prediction>, adapter: &String) -> (r: Option<(u64, u64)>)
    ensures
        match predicted(prediction_views(predictions@), adapter@) {
            Some(p) => r == Some((p.tokens, p.usd)),
            None => r is None,
        },
{
    let ghost all = prediction_views(predictions@);
    let mut i: usize = predictions.len();
    proof {
        assert(all.take(i as int) =~= all);
    }
    while i > 0
        invariant
            i <= predictions@.len(),
            all == prediction_views(predictions@),
            predicted(all, adapter@) == predicted(all.take(i as int), adapter@),
        decreases i,
    {
        proof {
            assert(all.take(i as int).drop_last() =~= all.take(i - 1));
            assert(all.take(i as int).last() == predictions@[i - 1]@);
        }
        if predictions[i - 1].adapter == *adapter {
            return Some((predictions[i - 1].tokens, predictions[i - 1].usd));
        }
        i -= 1;
    }
    proof {
        assert(all.take(0) =~= Seq::<PredictionView>::empty());
    }
    None
}

fn measure(observed: u64, predicted: u64) -> (r: Ratio)
    ensures
        r == deviation(observed, predicted),
{
    if predicted > 0 {
        Ratio {
            num: if observed >= predicted {
                observed - predicted
            } else {
                predicted - observed
            },
            den: predicted,
        }
    } else {
        Ratio { num: 0, den: 1 }
    }
}

/// Whether the kind of a chunk ends with `final`.
pub fn is_final_kind(kind: &str) -> (r: bool)
    ensures
        r == ends_with(kind@, "final"@),
{
    let text = chars_of(kind);
    let suffix = chars_of("final");
    let n = text.len();
    let m = suffix.len();
    if n < m {
        return false;
    }
    let mut i: usize = 0;
    while i < m
        invariant
            i <= m,
            m <= n,
            n == text@.len(),
            m == suffix@.len(),
            text@ == kind@,
            suffix@ == "final"@,
            forall|j: int| 0 <= j < i ==> text@[n - m + j] == suffix@[j],
        decreases m - i,
    {
        if text[n - m + i] != suffix[i] {
            proof {
                let tail = kind@.subrange(kind@.len() - "final"@.len(), kind@.len() as int);
                assert(tail[i as int] == text@[n - m + i]);
                assert(tail[i as int] != "final"@[i as int]);
            }
            return false;
        }
        i += 1;
    }
    assert(text@.subrange(n - m, n as int) =~= suffix@);
    true
}

fn best(c: &ConsensusResult, Ghost(finals): Ghost<Seq<Seq<char>>>) -> (r: Score)
    requires
        is_consensus(*c, finals),
        finals.len() <= usize::MAX,
    ensures
        r == top_score(finals),
{
    let ghost g = groups(embeddings(finals));
    let total = if c.finals.len() == 0 {
        1
    } else {
        c.finals.len()
    };
    let mut top: usize = 0;
    let mut i: usize = 0;
    while i < c.scores.len()
        invariant
            i <= c.scores@.len(),
            is_consensus(*c, finals),
            g == groups(embeddings(finals)),
            top == largest(g, i as int),
        decreases c.scores@.len() - i,
    {
        if c.scores[i].members > top {
            top = c.scores[i].members;
        }
        i += 1;
    }
    assert(texts(c.finals@).len() == c.finals@.len());
    Score { members: top, total: total }
}

fn is_confident(s: Score) -> (r: bool)
    ensures
        r == confident(s),
{
    100 * (s.members as u128) >= 66 * (s.total as u128)
}

fn product(a: usize, b: usize) -> (r: u128)
    ensures
        r == a * b,
{
    let x = a as u128;
    let y = b as u128;
    assert(x * y <= 0xFFFF_FFFF_FFFF_FFFF * 0xFFFF_FFFF_FFFF_FFFF) by (nonlinear_arith)
        requires
            x <= 0xFFFF_FFFF_FFFF_FFFF,
            y <= 0xFFFF_FFFF_FFFF_FFFF,
    ;
    x * y
}

fn has_fallen(to: Score, from: Score) -> (r: bool)
    ensures
        r == fallen(to, from),
{
    let lower = product(to.members, from.total);
    let margin = product(to.total, from.total);
    let upper = product(from.members, to.total);
    if upper <= lower {
        return false;
    }
    let gap = upper - lower;
    if gap > u128::MAX / 20 {
        return true;
    }
    margin < 20 * gap
}

fn closing(
    frame: &Frame,
    consensus: ConsensusResult,
    provisional: Option<Score>,
    Ghost(finals): Ghost<Seq<Seq<char>>>,
) -> (r: Vec<Output>)
    requires
        frame.ttl > 0,
        frame.msg_seq <= u64::MAX - 2,
        is_consensus(consensus, finals),
        finals.len() <= usize::MAX,
    ensures
        closes(frame@, finals, provisional, r@),
{
    let top = best(&consensus, Ghost(finals));
    let mut outputs: Vec<Output> = Vec::new();
    match provisional {
        Some(p) => {
            if has_fallen(top, p) {
                outputs.push(
                    Output::Downgraded {
                        kind: String::from_str("control.status"),
                        from: p,
                        to: top,
                    },
                );
            }
        },
        None => {},
    }
    let header = make_header(frame, 2, "FIN");
    outputs.push(
        Output::Final {
            header: header,
            kind: String::from_str("agent.result.final"),
            consensus: consensus,
        },
    );
    outputs
}

fn one(o: Output) -> (r: Vec<Output>)
    ensures
        r@ == seq![o],
{
    let mut v: Vec<Output> = Vec::new();
    v.push(o);
    v
}

impl Processor {
    #[verifier::type_invariant]
    spec fn sound(self) -> bool {
        &&& self.frame.ttl > 0
        &&& self.frame.msg_seq <= u64::MAX - 2
        &&& rows(self.vectors@) == embeddings(texts(self.finals@))
        &&& forall|i: int| 0 <= i < self.vectors@.len() ==> is_embedding(#[trigger] self.vectors@[i]@)
    }

    /// Begins the handling of a request. A frame without a hop left, or with
    /// a sequence number after which two more cannot be counted, cannot be
    /// answered and gets no processor.
    pub fn start(frame: Frame) -> (r: Option<Processor>)
        ensures
            r is Some <==> frame.ttl > 0 && frame.msg_seq <= u64::MAX - 2,
            r matches Some(p) ==> p@ == initial(frame@),
    {
        if frame.ttl == 0 || frame.msg_seq > u64::MAX - 2 {
            return None;
        }
        let predictions: Vec<Prediction> = Vec::new();
        let finals: Vec<String> = Vec::new();
        let vectors: Vec<Vec<u64>> = Vec::new();
        proof {
            assert(rows(vectors@) =~= embeddings(texts(finals@)));
            assert(prediction_views(predictions@) =~= Seq::<PredictionView>::empty());
            assert(texts(finals@) =~= Seq::<Seq<char>>::empty());
        }
        Some(
            Processor {
                frame: frame,
                phase: Phase::Policy,
                need_tokens: 0,
                need_usd: 0,
                predictions: predictions,
                finals: finals,
                vectors: vectors,
                provisional: None,
            },
        )
    }

    /// What the processor waits for.
    pub fn phase(&self) -> (r: Phase)
        ensures
            r == self@.phase,
    {
        self.phase
    }

    /// The request.
    pub fn request(&self) -> (r: &Frame)
        ensures
            r@ == self@.frame,
    {
        &self.frame
    }

    /// How many answers have arrived.
    pub fn answers(&self) -> (r: usize)
        ensures
            r == self@.finals.len(),
    {
        self.finals.len()
    }

    fn refuse(self) -> (r: Step)
        ensures
            r.next@ == self@,
            r.outputs@.len() == 1,
            is_fault(r.outputs@[0], Fault::OutOfPhase),
    {
        Step { next: self, outputs: one(Output::Fault(Fault::OutOfPhase)) }
    }

    fn on_policy(self, allowed: bool) -> (r: Step)
        ensures
            policy_step(self@, allowed, r.next@, r.outputs@),
    {
        proof {
            use_type_invariant(&self);
        }
        let Processor {
            frame,
            phase,
            need_tokens,
            need_usd,
            predictions,
            finals,
            vectors,
            provisional,
        } = self;
        if allowed {
            Step {
                next: Processor {
                    frame,
                    phase: Phase::Estimates,
                    need_tokens,
                    need_usd,
                    predictions,
                    finals,
                    vectors,
                    provisional,
                },
                outputs: Vec::new(),
            }
        } else {
            Step {
                next: Processor {
                    frame,
                    phase: Phase::Done,
                    need_tokens,
                    need_usd,
                    predictions,
                    finals,
                    vectors,
                    provisional,
                },
                outputs: one(Output::Notice(Notice::PolicyDenied)),
            }
        }
    }

    fn on_estimates(self, table: &mut WindowTable, estimates: Vec<Estimate>, now: u64) -> (r: Step)
        ensures
            estimates_step(
                self@,
                old(table)@,
                estimates@,
                now,
                r.next@,
                final(table)@,
                r.outputs@,
            ),
    {
        proof {
            use_type_invariant(&self);
        }
        let Processor {
            frame,
            phase,
            need_tokens,
            need_usd,
            predictions,
            finals,
            vectors,
            provisional,
        } = self;
        let ghost key = stream_key(frame@);
        let ghost before = state_of(old(table)@, key);
        let (tokens, usd, made) = match add_up(&estimates) {
            Some(t) => t,
            None => {
                return Step {
                    next: Processor {
                        frame,
                        phase: Phase::Done,
                        need_tokens,
                        need_usd,
                        predictions,
                        finals,
                        vectors,
                        provisional,
                    },
                    outputs: one(Output::Fault(Fault::Overflow)),
                };
            },
        };
        let session = frame.session_id.as_str();
        let stream = frame.stream_id.as_str();
        if !table.try_admit(session, stream, &frame.window, tokens, usd) {
            table.mark_backpressure(session, stream, now);
            proof {
                assert(table@ =~= old(table)@.insert(key, marked(before, now)));
            }
            return Step {
                next: Processor {
                    frame,
                    phase: Phase::Done,
                    need_tokens,
                    need_usd,
                    predictions,
                    finals,
                    vectors,
                    provisional,
                },
                outputs: one(
                    Output::Notice(Notice::Busy { suggested_wait_ms: SUGGESTED_WAIT_MS }),
                ),
            };
        }
        if table.under_pressure(session, stream, now) {
            let lane = lane_from_qos(frame.qos.as_str());
            if lane == Lane::Bronze {
                table.ack(session, stream, tokens, usd);
                proof {
                    assert(released(reserved(before, tokens, usd), tokens, usd) == before);
                    assert(table@ =~= old(table)@.insert(key, before));
                }
                return Step {
                    next: Processor {
                        frame,
                        phase: Phase::Done,
                        need_tokens,
                        need_usd,
                        predictions,
                        finals,
                        vectors,
                        provisional,
                    },
                    outputs: one(Output::Notice(Notice::Dropped)),
                };
            }
        }
        let ack = ack_frame(&frame);
        Step {
            next: Processor {
                frame,
                phase: Phase::Streaming,
                need_tokens: tokens,
                need_usd: usd,
                predictions: made,
                finals,
                vectors,
                provisional,
            },
            outputs: one(Output::Ack(ack)),
        }
    }

    fn on_stats(self, adapter: String, observed_tokens: u64, observed_usd: u64) -> (r: Step)
        ensures
            stats_step(self@, adapter@, observed_tokens, observed_usd, r.next@, r.outputs@),
    {
        let outputs = match find_prediction(&self.predictions, &adapter) {
            Some((tokens, usd)) => one(
                Output::Accuracy(
                    Accuracy {
                        tokens: measure(observed_tokens, tokens),
                        usd: measure(observed_usd, usd),
                        under_tokens: observed_tokens > tokens,
                        under_usd: observed_usd > usd,
                    },
                ),
            ),
            None => Vec::new(),
        };
        Step { next: self, outputs: outputs }
    }

    fn on_message(
        self,
        kind: String,
        content_json: String,
        confidence: Option<Value>,
        elapsed_ms: u64,
    ) -> (r: Step)
        ensures
            message_step(self@, kind@, content_json@, confidence, elapsed_ms, r.next@, r.outputs@),
    {
        proof {
            use_type_invariant(&self);
        }
        let is_answer = is_final_kind(kind.as_str());
        let mut outputs = one(
            Output::Partial(partial_frame(&self.frame, kind, content_json.as_str(), confidence)),
        );
        if !is_answer {
            return Step { next: self, outputs: outputs };
        }
        let answer = quote(content_json.as_str());
        let vector = embed(answer.as_str());
        let ghost pre = self@;
        let Processor {
            frame,
            phase,
            need_tokens,
            need_usd,
            predictions,
            finals,
            vectors,
            provisional,
        } = self;
        let mut finals = finals;
        let mut vectors = vectors;
        let ghost old_finals = texts(finals@);
        let ghost old_rows = rows(vectors@);
        finals.push(answer);
        vectors.push(vector);
        let ghost now_finals = texts(finals@);
        proof {
            assert(now_finals =~= old_finals.push(answer@));
            assert(rows(vectors@) =~= old_rows.push(vector@));
            assert(rows(vectors@) =~= embeddings(now_finals));
        }
        let mut provisional = provisional;
        if provisional.is_none() && finals.len() >= 2 {
            let consensus = consensus_of(finals.as_slice(), &vectors);
            let top = best(&consensus, Ghost(now_finals));
            proof {
                lemma_top_score(now_finals);
            }
            if is_confident(top) || elapsed_ms > PROVISIONAL_DEADLINE_MS {
                let header = make_header(&frame, 1, "MORE");
                outputs.push(
                    Output::Provisional {
                        header: header,
                        kind: String::from_str("agent.result.provisional"),
                        consensus: consensus,
                        expiry_ms: PROVISIONAL_EXPIRY_MS,
                    },
                );
                provisional = Some(top);
            }
        }
        Step {
            next: Processor {
                frame,
                phase,
                need_tokens,
                need_usd,
                predictions,
                finals,
                vectors,
                provisional,
            },
            outputs: outputs,
        }
    }

    fn closing_outputs(&self) -> (r: Vec<Output>)
        ensures
            closes(self@.frame, self@.finals, self@.provisional, r@),
    {
        proof {
            use_type_invariant(self);
        }
        let ghost now_finals = texts(self.finals@);
        proof {
            assert(rows(self.vectors@).len() == self.vectors@.len());
            assert(embeddings(now_finals).len() == self.finals@.len());
        }
        let consensus = consensus_of(self.finals.as_slice(), &self.vectors);
        let count = self.finals.len();
        assert(now_finals.len() == count);
        closing(&self.frame, consensus, self.provisional, Ghost(now_finals))
    }

    fn finished(self) -> (r: Processor)
        ensures
            r@ == (ProcessorView { phase: Phase::Done, ..self@ }),
    {
        proof {
            use_type_invariant(&self);
        }
        let Processor {
            frame,
            phase,
            need_tokens,
            need_usd,
            predictions,
            finals,
            vectors,
            provisional,
        } = self;
        Processor {
            frame,
            phase: Phase::Done,
            need_tokens,
            need_usd,
            predictions,
            finals,
            vectors,
            provisional,
        }
    }

    fn on_drained(self, table: &mut WindowTable) -> (r: Step)
        ensures
            drained_step(self@, old(table)@, r.next@, final(table)@, r.outputs@),
    {
        let outputs = self.closing_outputs();
        table.ack(
            self.frame.session_id.as_str(),
            self.frame.stream_id.as_str(),
            self.need_tokens,
            self.need_usd,
        );
        Step { next: self.finished(), outputs: outputs }
    }

    /// Takes an event: see [`reacts`].
    pub fn step(self, table: &mut WindowTable, event: Event) -> (r: Step)
        ensures
            reacts(self@, old(table)@, event, r.next@, final(table)@, r.outputs@),
    {
        match (self.phase, event) {
            (Phase::Policy, Event::Policy { allowed }) => self.on_policy(allowed),
            (Phase::Estimates, Event::Estimates { estimates, now }) => self.on_estimates(
                table,
                estimates,
                now,
            ),
            (Phase::Streaming, Event::AdapterFailed { error, adapter, reason }) => Step {
                next: self,
                outputs: one(
                    Output::AdapterError(
                        adapter_error_json(error.as_str(), adapter.as_str(), reason.as_str()),
                    ),
                ),
            },
            (
                Phase::Streaming,
                Event::AdapterStats { adapter, observed_tokens, observed_usd },
            ) => self.on_stats(adapter, observed_tokens, observed_usd),
            (
                Phase::Streaming,
                Event::AdapterMessage { kind, content_json, confidence, elapsed_ms },
            ) => self.on_message(kind, content_json, confidence, elapsed_ms),
            (Phase::Streaming, Event::Drained) => self.on_drained(table),
            _ => self.refuse(),
        }
    }
}

/// A request that is not acknowledged holds nothing in the window when its
/// handling ends: what it found reserved is what it leaves reserved.
pub proof fn lemma_refusal_reserves_nothing(
    pre: ProcessorView,
    table: Map<StreamKey, WindowState>,
    estimates: Seq<Estimate>,
    now: u64,
    post: ProcessorView,
    table_after: Map<StreamKey, WindowState>,
    out: Seq<Output>,
)
    requires
        estimates_step(pre, table, estimates, now, post, table_after, out),
        post.phase == Phase::Done,
    ensures
        state_of(table_after, stream_key(pre.frame)).inflight == state_of(
            table,
            stream_key(pre.frame),
        ).inflight,
        state_of(table_after, stream_key(pre.frame)).tokens == state_of(
            table,
            stream_key(pre.frame),
        ).tokens,
        state_of(table_after, stream_key(pre.frame)).usd == state_of(
            table,
            stream_key(pre.frame),
        ).usd,
{
}

/// While a request streams, chunks, failures and statistics leave the window
/// and the reservation alone.
pub proof fn lemma_streaming_keeps_reservation(
    pre: ProcessorView,
    table: Map<StreamKey, WindowState>,
    event: Event,
    post: ProcessorView,
    table_after: Map<StreamKey, WindowState>,
    out: Seq<Output>,
)
    requires
        pre.phase == Phase::Streaming,
        !(event is Drained),
        reacts(pre, table, event, post, table_after, out),
    ensures
        table_after == table,
        post.phase == Phase::Streaming,
        post.frame == pre.frame,
        post.need_tokens == pre.need_tokens,
        post.need_usd == pre.need_usd,
{
}

/// What a request reserved when it was acknowledged it gives back when its
/// streams have ended: the stream then has reserved what it had before.
pub proof fn lemma_reservation_is_given_back(
    pre: ProcessorView,
    table: Map<StreamKey, WindowState>,
    estimates: Seq<Estimate>,
    now: u64,
    streaming: ProcessorView,
    table_streaming: Map<StreamKey, WindowState>,
    out: Seq<Output>,
    last: ProcessorView,
    post: ProcessorView,
    table_after: Map<StreamKey, WindowState>,
    out_last: Seq<Output>,
)
    requires
        estimates_step(pre, table, estimates, now, streaming, table_streaming, out),
        streaming.phase == Phase::Streaming,
        last.frame == streaming.frame,
        last.need_tokens == streaming.need_tokens,
        last.need_usd == streaming.need_usd,
        drained_step(last, table_streaming, post, table_after, out_last),
    ensures
        state_of(table_after, stream_key(pre.frame)) == state_of(table, stream_key(pre.frame)),
{
}

} // verus!
