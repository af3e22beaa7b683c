//! Token estimation: a pre-send heuristic of about four characters per
//! token, rounded up so non-empty input never estimates to zero.
use vstd::prelude::*;
use vstd::string::*;

use crate::ai::ChatMessage;

verus! {

/// Per-message envelope overhead (role + delimiters).
pub const PER_MESSAGE_OVERHEAD: u32 = 4;

/// Fixed priming constant of a chat request.
pub const PRIMING: u32 = 2;

/// Estimated tokens of a text: its character count (as a `u32`) divided
/// by four, rounded up.
pub open spec fn spec_estimate_tokens(text: Seq<char>) -> int {
    ((text.len() as u32) as int + 3) / 4
}

/// Sum of `estimate + overhead` over the messages.
pub open spec fn spec_messages_total(msgs: Seq<ChatMessage>) -> int
    decreases msgs.len(),
{
    if msgs.len() == 0 {
        0
    } else {
        spec_messages_total(msgs.drop_last()) + spec_estimate_tokens(msgs.last().content@)
            + PER_MESSAGE_OVERHEAD
    }
}

/// Estimated prompt tokens of a chat request.
pub open spec fn spec_request_tokens(msgs: Seq<ChatMessage>) -> int {
    spec_messages_total(msgs) + PRIMING
}

/// Approximate token count of a text fragment.
pub fn estimate_tokens(text: &str) -> (r: u32)
    ensures
        r == spec_estimate_tokens(text@),
{
    let n = text.unicode_len() as u32;
    n / 4 + if n % 4 == 0 { 0 } else { 1 }
}

/// Approximate prompt-token count of a chat request: each message's content
/// estimate plus a per-message overhead, plus a priming constant.
pub fn estimate_request_tokens(messages: &[ChatMessage]) -> (r: u32)
    requires
        spec_request_tokens(messages@) <= u32::MAX,
    ensures
        r == spec_request_tokens(messages@),
{
    let mut total: u32 = 0;
    let mut i: usize = 0;
    while i < messages.len()
        invariant
            i <= messages.len(),
            spec_request_tokens(messages@) <= u32::MAX,
            total == spec_messages_total(messages@.take(i as int)),
        decreases messages.len() - i,
    {
        proof {
            lemma_total_prefix_le(messages@, i + 1);
            assert(messages@.take(i + 1).drop_last() =~= messages@.take(i as int));
        }
        total = total + estimate_tokens(messages[i].content.as_str()) + PER_MESSAGE_OVERHEAD;
        i += 1;
    }
    assert(messages@.take(messages.len() as int) =~= messages@);
    total + PRIMING
}

/// A prefix never costs more than the whole request.
pub proof fn lemma_total_prefix_le(msgs: Seq<ChatMessage>, k: int)
    requires
        0 <= k <= msgs.len(),
    ensures
        spec_messages_total(msgs.take(k)) <= spec_messages_total(msgs),
    decreases msgs.len(),
{
    if k < msgs.len() {
        assert(msgs.drop_last().take(k) =~= msgs.take(k));
        lemma_total_prefix_le(msgs.drop_last(), k);
    } else {
        assert(msgs.take(k) =~= msgs);
    }
}

/// More text never estimates to fewer tokens.
pub proof fn lemma_estimate_monotone(a: Seq<char>, b: Seq<char>)
    requires
        a.len() <= b.len() <= u32::MAX,
    ensures
        spec_estimate_tokens(a) <= spec_estimate_tokens(b),
{
}

/// Non-empty text (shorter than 2^32 characters) never estimates to zero,
/// and empty text estimates to zero.
pub proof fn lemma_estimate_zero_iff_empty(a: Seq<char>)
    requires
        a.len() <= u32::MAX,
    ensures
        (spec_estimate_tokens(a) == 0) == (a.len() == 0),
{
}

/// A request costs strictly more than the sum of its content estimates.
pub proof fn lemma_request_exceeds_content(msgs: Seq<ChatMessage>)
    ensures
        spec_request_tokens(msgs) >= spec_content_total(msgs) + PRIMING,
        spec_request_tokens(msgs) > spec_content_total(msgs),
    decreases msgs.len(),
{
    if msgs.len() > 0 {
        lemma_request_exceeds_content(msgs.drop_last());
    }
}

/// Sum of the bare content estimates.
pub open spec fn spec_content_total(msgs: Seq<ChatMessage>) -> int
    decreases msgs.len(),
{
    if msgs.len() == 0 {
        0
    } else {
        spec_content_total(msgs.drop_last()) + spec_estimate_tokens(msgs.last().content@)
    }
}

} // verus!
