//! What the router asks the policy oracle, and how it reads the answer; and
//! the address of an object in the memory gateway.

use serde_json::Value;
use vstd::prelude::*;
use crate::canonical::{encode_meta, meta_json};
use crate::frame::Meta;
use crate::json::{json_member_bool, member_bool};
use crate::text::{chars_of, push_char};

verus! {

/// The text without the slashes at its end.
pub open spec fn without_trailing_slashes(s: Seq<char>) -> Seq<char>
    decreases s.len(),
{
    if s.len() > 0 && s.last() == '/' {
        without_trailing_slashes(s.drop_last())
    } else {
        s
    }
}

/// The address of the oracle's decision under the base address `base`.
pub open spec fn endpoint_of(base: Seq<char>) -> Seq<char> {
    without_trailing_slashes(base) + "/v1/data/atp/policy/allow"@
}

/// The address of the object `key` of the namespace `ns` in the memory
/// gateway under the base address `base`.
pub open spec fn memory_address_of(base: Seq<char>, ns: Seq<char>, key: Seq<char>) -> Seq<char> {
    without_trailing_slashes(base) + "/v1/memory/"@ + ns + "/"@ + key
}

/// The body of the question: the attributes of the request as the input's
/// `meta`.
pub open spec fn question_of(meta: crate::frame::MetaView) -> Seq<char> {
    "{\"input\":{\"meta\":"@ + meta_json(meta) + "}}"@
}

/// The decision that an answer carries: what it says under `result`, and
/// yes where there is no answer or it says nothing.
pub open spec fn decision_of(answer: Option<Value>) -> bool {
    match answer {
        Some(v) => match json_member_bool(v, "result"@) {
            Some(b) => b,
            None => true,
        },
        None => true,
    }
}

proof fn lemma_trim(s: Seq<char>, end: int)
    requires
        0 <= end <= s.len(),
        forall|j: int| end <= j < s.len() ==> s[j] == '/',
        end > 0 ==> s[end - 1] != '/',
    ensures
        without_trailing_slashes(s) == s.take(end),
    decreases s.len() - end,
{
    if end < s.len() {
        lemma_trim(s.drop_last(), end);
        assert(s.drop_last().take(end) =~= s.take(end));
    } else {
        assert(s.take(end) =~= s);
    }
}

fn trimmed(base: &str) -> (r: String)
    ensures
        r@ == without_trailing_slashes(base@),
{
    let chars = chars_of(base);
    let mut end: usize = chars.len();
    while end > 0 && chars[end - 1] == '/'
        invariant
            end <= chars@.len(),
            forall|j: int| end <= j < chars@.len() ==> chars@[j] == '/',
        decreases end,
    {
        end -= 1;
    }
    proof {
        lemma_trim(chars@, end as int);
    }
    let mut out = String::new();
    let mut i: usize = 0;
    while i < end
        invariant
            i <= end <= chars@.len(),
            out@ == chars@.take(i as int),
        decreases end - i,
    {
        push_char(&mut out, chars[i]);
        assert(chars@.take(i as int).push(chars@[i as int]) =~= chars@.take(i + 1));
        i += 1;
    }
    out
}

/// The address to which the question goes.
pub fn policy_endpoint(base: &str) -> (r: String)
    ensures
        r@ == endpoint_of(base@),
{
    let mut out = trimmed(base);
    out.append("/v1/data/atp/policy/allow");
    out
}

/// The address of an object in the memory gateway.
pub fn memory_endpoint(base: &str, ns: &str, key: &str) -> (r: String)
    ensures
        r@ == memory_address_of(base@, ns@, key@),
{
    let mut out = trimmed(base);
    out.append("/v1/memory/");
    out.append(ns);
    out.append("/");
    out.append(key);
    out
}

/// The body of the question about a request with the given attributes.
pub fn policy_question(meta: &Meta) -> (r: String)
    ensures
        r@ == question_of(meta@),
{
    let mut out = String::from_str("{\"input\":{\"meta\":");
    let inner = encode_meta(meta);
    out.append(inner.as_str());
    out.append("}}");
    out
}

/// Whether the request is allowed, given the oracle's answer; `None` where
/// no oracle is configured or it could not be asked.
pub fn policy_allows(answer: Option<&Value>) -> (r: bool)
    ensures
        r == decision_of(
            match answer {
                Some(v) => Some(*v),
                None => None,
            },
        ),
{
    match answer {
        Some(v) => match member_bool(v, "result") {
            Some(b) => b,
            None => true,
        },
        None => true,
    }
}

} // verus!
