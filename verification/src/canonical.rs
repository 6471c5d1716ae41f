//! The canonical encoding of a frame: the JSON object whose members stand in
//! the order in which the frame declares them, nested objects likewise, with
//! no white space, an absent optional member written as `null`, and without
//! the members `checksum` and `sig` of the frame itself. Strings and embedded
//! JSON values are printed by `serde_json`; everything else is written here.

use serde_json::Value;
use vstd::prelude::*;
use crate::frame::{CostEst, Frame, FrameView, Meta, MetaView, Payload, PayloadView, Window};
use crate::json::{json_quoted, json_text, quote, value_json};
use crate::text::{opt_text, opt_texts, push_char, texts};

verus! {

/// The character of a decimal digit.
pub open spec fn decimal_digit(d: int) -> char {
    if d == 0 {
        '0'
    } else if d == 1 {
        '1'
    } else if d == 2 {
        '2'
    } else if d == 3 {
        '3'
    } else if d == 4 {
        '4'
    } else if d == 5 {
        '5'
    } else if d == 6 {
        '6'
    } else if d == 7 {
        '7'
    } else if d == 8 {
        '8'
    } else {
        '9'
    }
}

/// A natural number in decimal, without leading zeros.
pub open spec fn decimal(n: nat) -> Seq<char>
    decreases n,
{
    if n < 10 {
        seq![decimal_digit(n as int)]
    } else {
        decimal(n / 10).push(decimal_digit((n % 10) as int))
    }
}

/// Whether the character is a decimal digit.
pub open spec fn is_decimal_digit(c: char) -> bool {
    c == '0' || c == '1' || c == '2' || c == '3' || c == '4' || c == '5' || c == '6' || c == '7'
        || c == '8' || c == '9'
}

/// A number in decimal has at least one character, and all are digits.
pub proof fn lemma_decimal_digits(n: nat)
    ensures
        decimal(n).len() >= 1,
        n >= 10 ==> decimal(n).len() >= 2,
        forall|i: int| 0 <= i < decimal(n).len() ==> is_decimal_digit(#[trigger] decimal(n)[i]),
    decreases n,
{
    if n >= 10 {
        lemma_decimal_digits(n / 10);
    }
}

/// Two numbers with one decimal form are one number.
pub proof fn lemma_decimal_injective(a: nat, b: nat)
    requires
        decimal(a) == decimal(b),
    ensures
        a == b,
    decreases a,
{
    lemma_decimal_digits(a);
    lemma_decimal_digits(b);
    if a >= 10 && b >= 10 {
        let x = decimal(a / 10);
        let y = decimal(b / 10);
        let p = decimal_digit((a % 10) as int);
        let q = decimal_digit((b % 10) as int);
        assert(x.push(p).last() == p);
        assert(y.push(q).last() == q);
        assert(x.push(p).drop_last() =~= x);
        assert(y.push(q).drop_last() =~= y);
        lemma_decimal_injective(a / 10, b / 10);
    } else if a < 10 && b < 10 {
        assert(decimal(a)[0] == decimal_digit(a as int));
        assert(decimal(b)[0] == decimal_digit(b as int));
    }
}

/// `null`, or the string as a JSON literal.
pub open spec fn opt_quoted(o: Option<Seq<char>>) -> Seq<char> {
    match o {
        Some(s) => json_quoted(s),
        None => "null"@,
    }
}

/// The strings of a list as JSON literals, separated by commas.
pub open spec fn quoted_items(l: Seq<Seq<char>>) -> Seq<char>
    decreases l.len(),
{
    if l.len() == 0 {
        Seq::empty()
    } else if l.len() == 1 {
        json_quoted(l[0])
    } else {
        quoted_items(l.drop_last()) + ","@ + json_quoted(l.last())
    }
}

/// A list of strings as a JSON array.
pub open spec fn quoted_list(l: Seq<Seq<char>>) -> Seq<char> {
    "["@ + quoted_items(l) + "]"@
}

/// `null`, or the list as a JSON array.
pub open spec fn opt_quoted_list(o: Option<Seq<Seq<char>>>) -> Seq<char> {
    match o {
        Some(l) => quoted_list(l),
        None => "null"@,
    }
}

/// `null`, or the text of the embedded value.
pub open spec fn opt_value_json(o: Option<Value>) -> Seq<char> {
    match o {
        Some(v) => json_text(v),
        None => "null"@,
    }
}

/// `null`, or the number in decimal.
pub open spec fn opt_decimal(o: Option<u64>) -> Seq<char> {
    match o {
        Some(n) => decimal(n as nat),
        None => "null"@,
    }
}

pub open spec fn window_json(w: Window) -> Seq<char> {
    "{\"max_parallel\":"@ + decimal(w.max_parallel as nat) + ",\"max_tokens\":"@ + decimal(
        w.max_tokens as nat,
    ) + ",\"max_usd_micros\":"@ + decimal(w.max_usd_micros as nat) + "}"@
}

pub open spec fn cost_json(c: CostEst) -> Seq<char> {
    "{\"in_tokens\":"@ + decimal(c.in_tokens as nat) + ",\"out_tokens\":"@ + decimal(
        c.out_tokens as nat,
    ) + ",\"usd_micros\":"@ + decimal(c.usd_micros as nat) + "}"@
}

pub open spec fn opt_cost_json(o: Option<CostEst>) -> Seq<char> {
    match o {
        Some(c) => cost_json(c),
        None => "null"@,
    }
}

pub open spec fn meta_json(m: MetaView) -> Seq<char> {
    "{\"task_type\":"@ + opt_quoted(m.task_type) + ",\"languages\":"@ + opt_quoted_list(
        m.languages,
    ) + ",\"risk\":"@ + opt_quoted(m.risk) + ",\"data_scope\":"@ + opt_quoted_list(m.data_scope)
        + ",\"trace\":"@ + opt_value_json(m.trace) + ",\"tool_permissions\":"@ + opt_quoted_list(
        m.tool_permissions,
    ) + ",\"environment_id\":"@ + opt_quoted(m.environment_id) + ",\"security_groups\":"@
        + opt_quoted_list(m.security_groups) + "}"@
}

/// The encoding of a payload up to its content.
pub open spec fn payload_head(p: PayloadView) -> Seq<char> {
    "{\"type\":"@ + json_quoted(p.kind) + ",\"content\":"@
}

/// The encoding of a payload after its content.
pub open spec fn payload_tail(p: PayloadView) -> Seq<char> {
    ",\"confidence\":"@ + opt_value_json(p.confidence) + ",\"cost_est\":"@ + opt_cost_json(
        p.cost_est,
    ) + ",\"checksum\":"@ + opt_quoted(p.checksum) + ",\"expiry_ms\":"@ + opt_decimal(p.expiry_ms)
        + "}"@
}

pub open spec fn payload_json(p: PayloadView) -> Seq<char> {
    payload_head(p) + json_text(p.content) + payload_tail(p)
}

/// The encoding of a frame up to its payload.
pub open spec fn frame_head(f: FrameView) -> Seq<char> {
    "{\"v\":"@ + decimal(f.v as nat) + ",\"session_id\":"@ + json_quoted(f.session_id)
        + ",\"stream_id\":"@ + json_quoted(f.stream_id) + ",\"msg_seq\":"@ + decimal(
        f.msg_seq as nat,
    ) + ",\"frag_seq\":"@ + decimal(f.frag_seq as nat) + ",\"flags\":"@ + quoted_list(f.flags)
        + ",\"qos\":"@ + json_quoted(f.qos) + ",\"ttl\":"@ + decimal(f.ttl as nat) + ",\"window\":"@
        + window_json(f.window) + ",\"meta\":"@ + meta_json(f.meta) + ",\"payload\":"@
}

/// The canonical encoding of a frame. It does not depend on the frame's
/// `checksum` and `sig`.
pub open spec fn canonical_json(f: FrameView) -> Seq<char> {
    frame_head(f) + payload_json(f.payload) + "}"@
}

fn digit_char(d: u64) -> (c: char)
    requires
        d < 10,
    ensures
        c == decimal_digit(d as int),
{
    match d {
        0 => '0',
        1 => '1',
        2 => '2',
        3 => '3',
        4 => '4',
        5 => '5',
        6 => '6',
        7 => '7',
        8 => '8',
        _ => '9',
    }
}

/// Appends a number in decimal.
pub fn push_decimal(out: &mut String, n: u64)
    ensures
        final(out)@ == old(out)@ + decimal(n as nat),
    decreases n,
{
    if n < 10 {
        push_char(out, digit_char(n));
        assert(old(out)@.push(decimal_digit(n as int)) =~= old(out)@ + decimal(n as nat));
    } else {
        push_decimal(out, n / 10);
        push_char(out, digit_char(n % 10));
        assert((old(out)@ + decimal((n / 10) as nat)).push(decimal_digit((n % 10) as int))
            =~= old(out)@ + decimal(n as nat));
    }
}

fn push_opt_quoted(out: &mut String, o: &Option<String>)
    ensures
        final(out)@ == old(out)@ + opt_quoted(opt_text(*o)),
{
    match o {
        Some(s) => {
            let q = quote(s.as_str());
            out.append(q.as_str());
        },
        None => {
            out.append("null");
        },
    }
}

fn push_quoted_list(out: &mut String, l: &Vec<String>)
    ensures
        final(out)@ == old(out)@ + quoted_list(texts(l@)),
{
    let ghost items = texts(l@);
    out.append("[");
    let mut i: usize = 0;
    while i < l.len()
        invariant
            i <= l.len(),
            items == texts(l@),
            out@ == old(out)@ + "["@ + quoted_items(items.take(i as int)),
        decreases l.len() - i,
    {
        proof {
            assert(items.take(i + 1).drop_last() =~= items.take(i as int));
            assert(items.take(i + 1).last() == l@[i as int]@);
            assert(items.take(i + 1)[0] == items[0]);
        }
        let ghost before = out@;
        if i > 0 {
            out.append(",");
        }
        let q = quote(l[i].as_str());
        out.append(q.as_str());
        proof {
            if i > 0 {
                assert(out@ =~= old(out)@ + "["@ + (quoted_items(items.take(i as int)) + ","@
                    + json_quoted(l@[i as int]@)));
            } else {
                assert(quoted_items(items.take(0)) =~= Seq::<char>::empty());
                assert(out@ =~= old(out)@ + "["@ + json_quoted(l@[i as int]@));
            }
        }
        i += 1;
    }
    proof {
        assert(items.take(i as int) =~= items);
    }
    out.append("]");
    assert(out@ =~= old(out)@ + quoted_list(items));
}

fn push_opt_quoted_list(out: &mut String, o: &Option<Vec<String>>)
    ensures
        final(out)@ == old(out)@ + opt_quoted_list(opt_texts(*o)),
{
    match o {
        Some(l) => {
            push_quoted_list(out, l);
        },
        None => {
            out.append("null");
        },
    }
}

fn push_opt_value(out: &mut String, o: &Option<Value>)
    ensures
        final(out)@ == old(out)@ + opt_value_json(*o),
{
    match o {
        Some(v) => {
            let t = value_json(v);
            out.append(t.as_str());
        },
        None => {
            out.append("null");
        },
    }
}

fn push_opt_decimal(out: &mut String, o: Option<u64>)
    ensures
        final(out)@ == old(out)@ + opt_decimal(o),
{
    match o {
        Some(n) => {
            push_decimal(out, n);
        },
        None => {
            out.append("null");
        },
    }
}

/// Writes a window as a JSON object.
pub fn encode_window(w: &Window) -> (r: String)
    ensures
        r@ == window_json(*w),
{
    let mut out = String::from_str("{\"max_parallel\":");
    push_decimal(&mut out, w.max_parallel as u64);
    out.append(",\"max_tokens\":");
    push_decimal(&mut out, w.max_tokens);
    out.append(",\"max_usd_micros\":");
    push_decimal(&mut out, w.max_usd_micros);
    out.append("}");
    out
}

/// Writes a cost estimate as a JSON object.
pub fn encode_cost(c: &CostEst) -> (r: String)
    ensures
        r@ == cost_json(*c),
{
    let mut out = String::from_str("{\"in_tokens\":");
    push_decimal(&mut out, c.in_tokens);
    out.append(",\"out_tokens\":");
    push_decimal(&mut out, c.out_tokens);
    out.append(",\"usd_micros\":");
    push_decimal(&mut out, c.usd_micros);
    out.append("}");
    out
}

fn push_opt_cost(out: &mut String, o: &Option<CostEst>)
    ensures
        final(out)@ == old(out)@ + opt_cost_json(*o),
{
    match o {
        Some(c) => {
            let t = encode_cost(c);
            out.append(t.as_str());
        },
        None => {
            out.append("null");
        },
    }
}

/// Writes the policy attributes as a JSON object.
pub fn encode_meta(m: &Meta) -> (r: String)
    ensures
        r@ == meta_json(m@),
{
    let mut out = String::from_str("{\"task_type\":");
    push_opt_quoted(&mut out, &m.task_type);
    out.append(",\"languages\":");
    push_opt_quoted_list(&mut out, &m.languages);
    out.append(",\"risk\":");
    push_opt_quoted(&mut out, &m.risk);
    out.append(",\"data_scope\":");
    push_opt_quoted_list(&mut out, &m.data_scope);
    out.append(",\"trace\":");
    push_opt_value(&mut out, &m.trace);
    out.append(",\"tool_permissions\":");
    push_opt_quoted_list(&mut out, &m.tool_permissions);
    out.append(",\"environment_id\":");
    push_opt_quoted(&mut out, &m.environment_id);
    out.append(",\"security_groups\":");
    push_opt_quoted_list(&mut out, &m.security_groups);
    out.append("}");
    out
}

fn encode_payload_tail(p: &Payload) -> (r: String)
    ensures
        r@ == payload_tail(p@),
{
    let mut out = String::from_str(",\"confidence\":");
    push_opt_value(&mut out, &p.confidence);
    out.append(",\"cost_est\":");
    push_opt_cost(&mut out, &p.cost_est);
    out.append(",\"checksum\":");
    push_opt_quoted(&mut out, &p.checksum);
    out.append(",\"expiry_ms\":");
    push_opt_decimal(&mut out, p.expiry_ms);
    out.append("}");
    out
}

/// Writes a payload as a JSON object.
pub fn encode_payload(p: &Payload) -> (r: String)
    ensures
        r@ == payload_json(p@),
{
    let mut out = String::from_str("{\"type\":");
    let kind = quote(p.kind.as_str());
    out.append(kind.as_str());
    out.append(",\"content\":");
    let content = value_json(&p.content);
    out.append(content.as_str());
    let tail = encode_payload_tail(p);
    out.append(tail.as_str());
    out
}

fn encode_frame_head(f: &Frame) -> (r: String)
    ensures
        r@ == frame_head(f@),
{
    let mut out = String::from_str("{\"v\":");
    push_decimal(&mut out, f.v as u64);
    out.append(",\"session_id\":");
    let session = quote(f.session_id.as_str());
    out.append(session.as_str());
    out.append(",\"stream_id\":");
    let stream = quote(f.stream_id.as_str());
    out.append(stream.as_str());
    out.append(",\"msg_seq\":");
    push_decimal(&mut out, f.msg_seq);
    out.append(",\"frag_seq\":");
    push_decimal(&mut out, f.frag_seq as u64);
    out.append(",\"flags\":");
    push_quoted_list(&mut out, &f.flags);
    out.append(",\"qos\":");
    let qos = quote(f.qos.as_str());
    out.append(qos.as_str());
    out.append(",\"ttl\":");
    push_decimal(&mut out, f.ttl as u64);
    out.append(",\"window\":");
    let window = encode_window(&f.window);
    out.append(window.as_str());
    out.append(",\"meta\":");
    let meta = encode_meta(&f.meta);
    out.append(meta.as_str());
    out.append(",\"payload\":");
    out
}

/// Writes the canonical encoding of a frame.
pub fn encode_frame(f: &Frame) -> (r: String)
    ensures
        r@ == canonical_json(f@),
{
    let mut out = encode_frame_head(f);
    let payload = encode_payload(&f.payload);
    out.append(payload.as_str());
    out.append("}");
    out
}

} // verus!
