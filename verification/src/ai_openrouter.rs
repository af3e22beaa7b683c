//! Bring-your-own-key OpenRouter AI service: gated by the stored key at
//! call time, and the line-level reading of its server-sent event stream.
//! The HTTP exchange itself is the caller's.
use vstd::prelude::*;
use vstd::string::*;

use crate::ai::{CompletionResponse, Role, TokenUsage};
use crate::error::{AppError, AppResult};
use crate::secrets::SecretStorage;
use crate::text::{chars_of, slice_chars, starts_with, starts_with_exec, string_of, trim, trim_chars, trim_str};

verus! {

/// Keyring entry name of the OpenRouter key.
pub const OPENROUTER_KEY: &'static str = "openrouter_api_key";

/// Model used when a request pins none.
pub const DEFAULT_MODEL: &'static str = "openai/gpt-4o-mini";

/// Chat completions endpoint.
pub const API_URL: &'static str = "https://openrouter.ai/api/v1/chat/completions";

/// Retries after the first attempt.
pub const MAX_RETRIES: u32 = 2;

/// The error a missing key gives.
pub open spec fn missing_key(e: AppError) -> bool {
    e == AppError::AiProvider(e->AiProvider_0) && e->AiProvider_0@ == "falta la API key de OpenRouter"@
}

/// What a key lookup lets a call proceed with: the key when a non-blank
/// one is stored, a missing-key error otherwise, a failed lookup's error
/// as it is.
pub open spec fn gated(lookup: AppResult<Option<String>>, r: AppResult<String>) -> bool {
    match lookup {
        Err(e) => r == Err::<String, AppError>(e),
        Ok(Some(k)) => if trim(k@).len() > 0 {
            r matches Ok(v) && v@ == k@
        } else {
            r matches Err(e) && missing_key(e)
        },
        Ok(None) => r matches Err(e) && missing_key(e),
    }
}

/// Whether a key lookup found a non-blank key.
pub open spec fn key_found(lookup: AppResult<Option<String>>) -> bool {
    lookup matches Ok(Some(k)) && trim(k@).len() > 0
}

/// Decide from a key lookup whether calls may proceed, and with which key.
pub fn key_gate(lookup: AppResult<Option<String>>) -> (r: AppResult<String>)
    ensures
        gated(lookup, r),
{
    match lookup {
        Err(e) => Err(e),
        Ok(Some(k)) => {
            let t = trim_str(k.as_str());
            if t.len() > 0 {
                Ok(k)
            } else {
                Err(AppError::AiProvider(String::from_str("falta la API key de OpenRouter")))
            }
        },
        Ok(None) => Err(AppError::AiProvider(String::from_str("falta la API key de OpenRouter"))),
    }
}

/// Whether a key lookup found a non-blank key.
pub fn key_available(lookup: &AppResult<Option<String>>) -> (r: bool)
    ensures
        r == key_found(*lookup),
{
    match lookup {
        Ok(Some(k)) => trim_str(k.as_str()).len() > 0,
        _ => false,
    }
}

/// The OpenRouter service over a secret store.
pub struct ByokAIService<S: SecretStorage> {
    secrets: S,
}

impl<S: SecretStorage> ByokAIService<S> {
    /// A service reading its key from `secrets`.
    pub fn new(secrets: S) -> (r: Self)
        ensures
            r.secrets() == secrets,
    {
        ByokAIService { secrets }
    }

    /// The secret store.
    pub closed spec fn secrets(&self) -> S {
        self.secrets
    }

    /// The key for a call: the stored OpenRouter key when it is not blank.
    /// The store is asked for `OPENROUTER_KEY`; what it answers is the
    /// store's, and this returns what `key_gate` makes of it.
    pub fn gate(&self) -> (r: AppResult<String>)
        ensures
            exists|lookup: AppResult<Option<String>>|
                #![trigger call_ensures(S::get_secret, (&self.secrets(), OPENROUTER_KEY), lookup)]
                call_ensures(S::get_secret, (&self.secrets(), OPENROUTER_KEY), lookup) && gated(
                    lookup,
                    r,
                ),
            r matches Ok(k) ==> trim(k@).len() > 0,
    {
        let lookup = self.secrets.get_secret(OPENROUTER_KEY);
        let ghost asked = lookup;
        let r = key_gate(lookup);
        assert(call_ensures(S::get_secret, (&self.secrets(), OPENROUTER_KEY), asked) && gated(asked, r));
        r
    }

    /// Whether a non-blank key is stored: the store is asked for
    /// `OPENROUTER_KEY` and its answer read by `key_available`.
    pub fn available(&self) -> (r: bool)
        ensures
            exists|lookup: AppResult<Option<String>>|
                #![trigger call_ensures(S::get_secret, (&self.secrets(), OPENROUTER_KEY), lookup)]
                call_ensures(S::get_secret, (&self.secrets(), OPENROUTER_KEY), lookup) && r == key_found(
                    lookup,
                ),
    {
        let lookup = self.secrets.get_secret(OPENROUTER_KEY);
        let r = key_available(&lookup);
        assert(call_ensures(S::get_secret, (&self.secrets(), OPENROUTER_KEY), lookup) && r == key_found(lookup));
        r
    }
}

/// Wire name of a role.
pub open spec fn role_name(r: Role) -> Seq<char> {
    match r {
        Role::System => "system"@,
        Role::User => "user"@,
        Role::Assistant => "assistant"@,
    }
}

/// Wire name of a role.
pub fn role_str(role: Role) -> (r: &'static str)
    ensures
        r@ == role_name(role),
{
    match role {
        Role::System => "system",
        Role::User => "user",
        Role::Assistant => "assistant",
    }
}

/// One line of the event stream, classified.
#[derive(Debug, PartialEq, Eq)]
pub enum SseLine {
    /// Not a data line (comment, keep-alive, blank): ignored.
    Skip,
    /// `data: [DONE]`: the stream is over.
    Done,
    /// The JSON payload of a data line.
    Data(String),
}

/// How a line reads: after trimming, a line that starts with `data:` is
/// data; its payload, trimmed again, is either `[DONE]` or a chunk.
pub open spec fn sse_line(line: Seq<char>) -> (SseLine, Seq<char>) {
    let t = trim(line);
    if !starts_with(t, "data:"@) {
        (SseLine::Skip, Seq::empty())
    } else {
        let d = trim(t.skip(5));
        if d == "[DONE]"@ {
            (SseLine::Done, Seq::empty())
        } else {
            (SseLine::Data(arbitrary()), d)
        }
    }
}

/// Classify a line of the event stream.
pub fn classify_sse_line(line: &str) -> (r: SseLine)
    ensures
        match sse_line(line@).0 {
            SseLine::Skip => r == SseLine::Skip,
            SseLine::Done => r == SseLine::Done,
            SseLine::Data(_) => r matches SseLine::Data(d) && d@ == sse_line(line@).1,
        },
{
    let t = trim_str(line);
    let prefix = chars_of("data:");
    proof {
        reveal_strlit("data:");
    }
    if !starts_with_exec(&t, &prefix) {
        return SseLine::Skip;
    }
    let rest = slice_chars(&t, 5, t.len());
    assert(rest@ =~= t@.skip(5));
    let d = trim_chars(&rest);
    let done = chars_of("[DONE]");
    if crate::text::chars_eq(&d, &done) {
        SseLine::Done
    } else {
        SseLine::Data(string_of(&d))
    }
}

/// Base of the exponential retry back-off, in milliseconds.
pub const RETRY_BACKOFF_BASE_MS: u64 = 400;

/// What to do after one HTTP attempt.
#[derive(Debug, PartialEq, Eq)]
pub enum RetryDecision {
    /// A success status: read the response.
    Accept,
    /// Try again after waiting this many milliseconds.
    Retry(u64),
    /// Give up with the response's status.
    FailStatus(u16),
    /// Give up: the request itself failed.
    FailTransport,
}

/// Whether an attempt may be retried: a transport failure, 429 or a 5xx
/// status.
pub open spec fn retryable(status: Option<u16>) -> bool {
    match status {
        None => true,
        Some(s) => s == 429 || (500 <= s && s < 600),
    }
}

/// The decision after attempt number `attempt` (from 0) ended with `status`
/// (`None` when no response came): a 2xx status is accepted; a retryable
/// outcome is retried while fewer than `MAX_RETRIES` retries were made,
/// after `400 ms × 2^(attempt + 1)`; anything else fails.
pub open spec fn retry_decision(status: Option<u16>, attempt: u32) -> RetryDecision {
    match status {
        Some(s) if 200 <= s && s < 300 => RetryDecision::Accept,
        _ => if retryable(status) && attempt < MAX_RETRIES {
            RetryDecision::Retry((RETRY_BACKOFF_BASE_MS * vstd::arithmetic::power2::pow2((attempt + 1) as nat)) as u64)
        } else {
            match status {
                Some(s) => RetryDecision::FailStatus(s),
                None => RetryDecision::FailTransport,
            }
        },
    }
}

/// Rate limits, server errors and transport failures are retried while
/// retries remain, the first retry after 800 ms and each later one after
/// twice the wait before it; a success is always accepted; a client error
/// other than 429 fails at once with its status, as does anything once the
/// retries are spent.
pub proof fn law_retry_policy(status: Option<u16>, attempt: u32)
    ensures
        (status == Some(429u16) || status is None || (status matches Some(s) && 500 <= s < 600))
            && attempt < MAX_RETRIES ==> retry_decision(status, attempt) is Retry,
        retry_decision(Some(429u16), 0) == RetryDecision::Retry(800),
        retry_decision(None, 0) == RetryDecision::Retry(800),
        attempt + 1 < MAX_RETRIES ==> (retry_decision(status, attempt) matches RetryDecision::Retry(a)
            ==> retry_decision(status, (attempt + 1) as u32) == RetryDecision::Retry((2 * a) as u64)),
        status matches Some(s) && 200 <= s < 300 ==> retry_decision(status, attempt)
            == RetryDecision::Accept,
        forall|s: u16|
            400 <= s < 500 && s != 429 ==> #[trigger] retry_decision(Some(s), attempt)
                == RetryDecision::FailStatus(s),
        attempt >= MAX_RETRIES ==> forall|s: u16|
            !(200 <= s < 300) ==> #[trigger] retry_decision(Some(s), attempt) == RetryDecision::FailStatus(s),
        attempt >= MAX_RETRIES && status is None ==> retry_decision(status, attempt)
            == RetryDecision::FailTransport,
{
    vstd::arithmetic::power2::lemma2_to64();
    if attempt + 1 < MAX_RETRIES {
        vstd::arithmetic::power2::lemma_pow2_unfold((attempt + 2) as nat);
    }
}

/// Decide what follows an HTTP attempt (see `retry_decision`).
pub fn decide_retry(status: Option<u16>, attempt: u32) -> (r: RetryDecision)
    ensures
        r == retry_decision(status, attempt),
{
    let ok = match status {
        Some(s) => 200 <= s && s < 300,
        None => false,
    };
    if ok {
        return RetryDecision::Accept;
    }
    let retry = match status {
        None => true,
        Some(s) => s == 429 || (500 <= s && s < 600),
    };
    if retry && attempt < MAX_RETRIES {
        let mut delay: u64 = RETRY_BACKOFF_BASE_MS;
        let mut k: u32 = 0;
        proof {
            vstd::arithmetic::power2::lemma2_to64();
        }
        while k < attempt + 1
            invariant
                attempt < MAX_RETRIES,
                k <= attempt + 1,
                delay == RETRY_BACKOFF_BASE_MS * vstd::arithmetic::power2::pow2(k as nat),
            decreases attempt + 1 - k,
        {
            proof {
                vstd::arithmetic::power2::lemma_pow2_unfold((k + 1) as nat);
                vstd::arithmetic::power2::lemma_pow2_strictly_increases(k as nat, 3);
                vstd::arithmetic::power2::lemma2_to64();
            }
            delay = delay * 2;
            k += 1;
        }
        RetryDecision::Retry(delay)
    } else {
        match status {
            Some(s) => RetryDecision::FailStatus(s),
            None => RetryDecision::FailTransport,
        }
    }
}

/// The answer after one decoded stream chunk: its text delta appended when
/// not empty, its usage taken when present.
pub open spec fn after_chunk(text: Seq<char>, usage: Option<TokenUsage>, delta: Option<Seq<char>>, chunk_usage: Option<TokenUsage>) -> (Seq<char>, Option<TokenUsage>) {
    (
        match delta {
            Some(d) => text + d,
            None => text,
        },
        match chunk_usage {
            Some(u) => Some(u),
            None => usage,
        },
    )
}

/// Fold one decoded chunk into the answer being assembled; the returned
/// delta, when there is one, is what the caller forwards to its sink.
pub fn absorb_chunk(acc: &mut CompletionResponse, delta: Option<String>, usage: Option<TokenUsage>) -> (forward: Option<String>)
    ensures
        (final(acc).text@, final(acc).usage) == after_chunk(
            old(acc).text@,
            old(acc).usage,
            match delta {
                Some(d) => if d@.len() > 0 {
                    Some(d@)
                } else {
                    None
                },
                None => None,
            },
            usage,
        ),
        forward == match delta {
            Some(d) => if d@.len() > 0 {
                Some(d)
            } else {
                None
            },
            None => None,
        },
{
    let forward = match delta {
        Some(d) => {
            if d.as_str().unicode_len() > 0 {
                acc.text.append(d.as_str());
                Some(d)
            } else {
                None
            }
        },
        None => None,
    };
    match usage {
        Some(u) => {
            acc.usage = Some(u);
        },
        None => {},
    }
    forward
}

} // verus!
