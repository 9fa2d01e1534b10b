//! Chat entities, parameter validation, and the generation loop.

use vstd::prelude::*;

use crate::config::ChatDefaults;
use crate::error::AppError;
use crate::fixed::FP;
use crate::locales::clone_string;
use crate::sampler::{greedy, temperature_sample};
use crate::tensor::MAX_DIM;
use crate::tokenizer::{tok_decode, tok_encode};
use crate::transformer::YiCoderTransformer;

verus! {

/// One chat message.
pub struct ChatCompletionMessage {
    pub role: String,
    pub content: String,
}

/// A chat message as the API shapes it.
pub struct ChatMessage {
    pub role: String,
    pub content: String,
}

/// A chat request: the model id and the conversation so far.
pub struct ChatRequest {
    pub model: String,
    pub messages: Vec<ChatMessage>,
}

/// Token accounting of one completion.
pub struct Usage {
    pub prompt_tokens: usize,
    pub completion_tokens: usize,
    pub total_tokens: usize,
}

/// Generation parameters as requested, each optional.
pub struct ChatCompletionParams {
    pub temperature_q: Option<i64>,
    pub top_p_q: Option<i64>,
    pub n: Option<usize>,
    pub max_tokens: Option<usize>,
    pub stream: Option<bool>,
}

/// Validated effective parameters. An absent temperature means greedy
/// sampling; a present one is within `(0, 2]`.
pub struct ValidatedParams {
    pub temperature_q: Option<i64>,
    pub top_p_q: i64,
    pub n: usize,
    pub max_tokens: usize,
    pub stream: bool,
}

impl ValidatedParams {
    /// What validation guarantees.
    pub open spec fn wf(self) -> bool {
        &&& match self.temperature_q {
            Some(t) => 0 < t <= 2 * FP,
            None => true,
        }
        &&& 0 < self.top_p_q <= FP
        &&& 1 <= self.n
        &&& 1 <= self.max_tokens
    }
}

/// The effective value of each parameter: the requested one, or the
/// configured default.
pub open spec fn spec_effective(p: ChatCompletionParams, d: ChatDefaults) -> (
    Option<i64>,
    i64,
    int,
    int,
    bool,
) {
    (
        p.temperature_q,
        match p.top_p_q {
            Some(v) => v,
            None => d.top_p_q,
        },
        match p.n {
            Some(v) => v as int,
            None => d.n as int,
        },
        match p.max_tokens {
            Some(v) => v as int,
            None => d.max_tokens as int,
        },
        match p.stream {
            Some(v) => v,
            None => d.stream,
        },
    )
}

/// The first out-of-range effective parameter, by validation order, if any.
pub open spec fn spec_first_invalid(p: ChatCompletionParams, d: ChatDefaults) -> Option<Seq<char>> {
    let (t, top_p, n, mt, _) = spec_effective(p, d);
    if !(match t {
        Some(v) => 0 < v <= 2 * FP,
        None => true,
    }) {
        Some("temperature"@)
    } else if !(0 < top_p <= FP) {
        Some("top_p"@)
    } else if n < 1 {
        Some("n"@)
    } else if mt < 1 {
        Some("max_tokens"@)
    } else {
        None
    }
}

/// Validate the request parameters against the configured defaults, before
/// any tensor computation: a temperature outside `(0, 2]`, a top_p outside
/// `(0, 1]`, `n` of zero or `max_tokens` of zero are each rejected with a
/// failure naming the field, in validation order; nothing is clamped.
pub fn validate_params(p: &ChatCompletionParams, d: &ChatDefaults) -> (r: Result<
    ValidatedParams,
    AppError,
>)
    ensures
        r is Ok <==> spec_first_invalid(*p, *d) is None,
        r is Err ==> (r->Err_0 matches AppError::InvalidParameter(m) && Some(m@)
            == spec_first_invalid(*p, *d)),
        r is Ok ==> r->Ok_0.wf(),
        r is Ok ==> {
            let (t, top_p, n, mt, stream) = spec_effective(*p, *d);
            &&& r->Ok_0.temperature_q == t
            &&& r->Ok_0.top_p_q == top_p
            &&& r->Ok_0.n == n
            &&& r->Ok_0.max_tokens == mt
            &&& r->Ok_0.stream == stream
        },
{
    let temperature_q: Option<i64> = match p.temperature_q {
        Some(t) => {
            if !(0 < t && t <= 2 * FP) {
                return Err(AppError::InvalidParameter("temperature".to_owned()));
            }
            Some(t)
        },
        None => None,
    };
    let top_p_q: i64 = match p.top_p_q {
        Some(v) => v,
        None => d.top_p_q,
    };
    if !(0 < top_p_q && top_p_q <= FP) {
        return Err(AppError::InvalidParameter("top_p".to_owned()));
    }
    let n: usize = match p.n {
        Some(v) => v,
        None => d.n,
    };
    if n < 1 {
        return Err(AppError::InvalidParameter("n".to_owned()));
    }
    let max_tokens: usize = match p.max_tokens {
        Some(v) => v,
        None => d.max_tokens,
    };
    if max_tokens < 1 {
        return Err(AppError::InvalidParameter("max_tokens".to_owned()));
    }
    let stream: bool = match p.stream {
        Some(v) => v,
        None => d.stream,
    };
    Ok(ValidatedParams { temperature_q, top_p_q, n, max_tokens, stream })
}

/// Encode every message's content and concatenate the token ids, in order.
pub fn encode_messages(t: &tokenizers::Tokenizer, messages: &Vec<ChatCompletionMessage>) -> (r:
    Result<Vec<u32>, AppError>)
    ensures
        r is Err ==> r->Err_0 is TokenizerError,
{
    let mut ids: Vec<u32> = Vec::new();
    let mut i: usize = 0;
    while i < messages.len()
        decreases messages.len() - i,
    {
        match tok_encode(t, &messages[i].content) {
            Ok(mut part) => {
                ids.append(&mut part);
            },
            Err(e) => {
                return Err(AppError::TokenizerError(e));
            },
        }
        i = i + 1;
    }
    Ok(ids)
}

/// What became of a streamed fragment.
pub enum SendOutcome {
    Sent,
    Full,
    Closed,
}

/// The bounded channel type carrying streamed fragments.
#[verifier::external_type_specification]
#[verifier::external_body]
#[verifier::reject_recursive_types(T)]
pub struct ExSyncSender<T>(std::sync::mpsc::SyncSender<T>);

/// Relies on std::sync::mpsc::SyncSender::try_send: never blocks; a full
/// buffer reports Full, a hung-up receiver reports Closed.
#[verifier::external_body]
fn try_send_fragment(
    tx: &std::sync::mpsc::SyncSender<ChatCompletionMessage>,
    msg: ChatCompletionMessage,
) -> SendOutcome {
    match tx.try_send(msg) {
        Ok(()) => SendOutcome::Sent,
        Err(std::sync::mpsc::TrySendError::Full(_)) => SendOutcome::Full,
        Err(std::sync::mpsc::TrySendError::Disconnected(_)) => SendOutcome::Closed,
    }
}

/// How many consecutive full-buffer rejections the streaming loop tolerates
/// before it aborts generation rather than blocking.
pub const STREAM_FULL_RETRY_LIMIT: usize = 64;

/// The iterative decode loop: run the forward pass, sample the next token
/// (greedy without a temperature, else temperature sampling), append it, and
/// repeat until `max_tokens` tokens exist. Streaming pushes each fragment
/// onto the bounded channel and stops early — rather than blocking — when
/// the consumer hangs up or stays full past the retry window. The reply is
/// the decoded generated ids as one assistant message, with exact token
/// accounting: a non-streaming call always decodes the full `max_tokens`
/// tokens, never a single-token reply.
pub fn generate(
    stack: &YiCoderTransformer,
    tokenizer: &tokenizers::Tokenizer,
    prompt_ids: &Vec<u32>,
    vp: &ValidatedParams,
    stream_tx: Option<&std::sync::mpsc::SyncSender<ChatCompletionMessage>>,
) -> (r: Result<(ChatCompletionMessage, Usage), AppError>)
    requires
        stack.wf(),
        vp.wf(),
        stack.valid_ids(prompt_ids@),
        prompt_ids.len() + vp.max_tokens <= MAX_DIM,
    ensures
        r is Ok ==> {
            let (msg, usage) = r->Ok_0;
            &&& msg.role@ == "assistant"@
            &&& usage.prompt_tokens == prompt_ids.len()
            &&& usage.completion_tokens <= vp.max_tokens
            &&& usage.total_tokens == usage.prompt_tokens + usage.completion_tokens
            &&& (!vp.stream ==> usage.completion_tokens == vp.max_tokens)
        },
        r is Err ==> r->Err_0 is TokenizerError,
{
    let mut ids: Vec<u32> = clone_ids(prompt_ids);
    let prompt_len = prompt_ids.len();
    let mut generated: Vec<u32> = Vec::new();
    let mut full_rejections: usize = 0;
    let mut stopped_early: bool = false;

    while generated.len() < vp.max_tokens && !stopped_early
        invariant
            stack.wf(),
            vp.wf(),
            stack.valid_ids(ids@),
            ids.len() == prompt_len + generated.len(),
            generated.len() <= vp.max_tokens,
            prompt_len + vp.max_tokens <= MAX_DIM,
            full_rejections <= STREAM_FULL_RETRY_LIMIT,
            !vp.stream ==> !stopped_early,
        decreases vp.max_tokens - generated.len(),
    {
        let logits = match stack.forward(&ids) {
            Ok(m) => m,
            Err(_) => {
                proof {
                    assert(false);
                }
                return Err(AppError::TokenizerError(String::new()));
            },
        };
        let last = logits.row(logits.rows - 1);
        proof {
            assert forall|k: int| 0 <= k < last.len() implies -crate::fixed::MAX_MAG
                <= #[trigger] last@[k] <= crate::fixed::MAX_MAG by {
                logits.lemma_at_bounded(logits.rows as int - 1, k);
            };
        }
        let next: usize = match vp.temperature_q {
            None => greedy(&last),
            Some(t) => temperature_sample(&last, t),
        };
        let next_id: u32 = next as u32;
        generated.push(next_id);
        ids.push(next_id);

        if vp.stream {
            match stream_tx {
                Some(tx) => {
                    let one: Vec<u32> = vec![next_id];
                    match tok_decode(tokenizer, &one) {
                        Ok(fragment) => {
                            let msg = ChatCompletionMessage {
                                role: "assistant".to_owned(),
                                content: fragment,
                            };
                            match try_send_fragment(tx, msg) {
                                SendOutcome::Sent => {
                                    full_rejections = 0;
                                },
                                SendOutcome::Full => {
                                    if full_rejections >= STREAM_FULL_RETRY_LIMIT {
                                        stopped_early = true;
                                    } else {
                                        full_rejections = full_rejections + 1;
                                    }
                                },
                                SendOutcome::Closed => {
                                    stopped_early = true;
                                },
                            }
                        },
                        Err(e) => {
                            return Err(AppError::TokenizerError(e));
                        },
                    }
                },
                None => {
                    stopped_early = true;
                },
            }
        }
    }

    let content = match tok_decode(tokenizer, &generated) {
        Ok(s) => s,
        Err(e) => {
            return Err(AppError::TokenizerError(e));
        },
    };
    let completion = generated.len();
    Ok(
        (
            ChatCompletionMessage { role: "assistant".to_owned(), content },
            Usage {
                prompt_tokens: prompt_len,
                completion_tokens: completion,
                total_tokens: prompt_len + completion,
            },
        ),
    )
}

/// Copy a token id sequence.
fn clone_ids(v: &Vec<u32>) -> (r: Vec<u32>)
    ensures
        r@ == v@,
{
    let mut r: Vec<u32> = Vec::new();
    let mut k: usize = 0;
    while k < v.len()
        invariant
            k <= v.len(),
            r@ == v@.take(k as int),
        decreases v.len() - k,
    {
        r.push(v[k]);
        proof {
            assert(r@ =~= v@.take(k as int + 1));
        }
        k = k + 1;
    }
    proof {
        assert(r@ =~= v@);
    }
    r
}

/// The chat-completion service faced by the request layer.
pub struct ChatCompletionService;

impl ChatCompletionService {
    /// Build the service.
    pub fn new() -> ChatCompletionService {
        ChatCompletionService
    }
}

/// The chat service faced by the request layer.
pub struct ChatService;

impl ChatService {
    /// Build the service.
    pub fn new() -> ChatService {
        ChatService
    }
}

} // verus!
