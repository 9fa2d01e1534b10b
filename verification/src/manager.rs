//! The model manager: per-model-kind live handles behind their own
//! reader-writer locks, on-demand status, and the entry points the request
//! layer consumes.
//!
//! Each supported model kind has its own lock, so an operation on one model
//! never contends with an operation on another; within one kind, a download
//! takes the write lock while readers share the read lock.

use vstd::prelude::*;
use vstd::rwlock::{RwLock, RwLockPredicate};

use crate::chat::{
    encode_messages, generate, validate_params, ChatCompletionMessage, ChatCompletionParams,
    Usage,
};
use crate::config::ChatDefaults;
use crate::error::AppError;
use crate::locales::clone_string;
use crate::tensor::{Matrix, MAX_DIM};
use crate::transformer::{
    LayerNorm, Linear, ModelConfig, MultiHeadAttention, PositionWiseFeedForward, TransformerLayer,
    YiCoderTransformer,
};
use crate::weights::{clone_matrix, WeightStore};

verus! {

/// Whether a model's files are present: cached when at least one required
/// file exists, enabled exactly when every required file exists.
#[derive(Clone, Copy, PartialEq, Eq, Structural, Debug)]
pub struct ModelStatus {
    pub is_cached: bool,
    pub is_enabled: bool,
}

/// The status a presence probe implies.
pub open spec fn spec_status(present: Seq<bool>) -> ModelStatus {
    ModelStatus {
        is_cached: exists|i: int| 0 <= i < present.len() && present[i],
        is_enabled: forall|i: int| 0 <= i < present.len() ==> present[i],
    }
}

/// Compute a model's status from the presence of each required file:
/// enabled exactly when every required file exists, cached exactly when at
/// least one does.
pub fn compute_status(present: &Vec<bool>) -> (r: ModelStatus)
    ensures
        r == spec_status(present@),
        r.is_enabled <==> (forall|i: int| 0 <= i < present@.len() ==> present@[i]),
        r.is_cached <==> (exists|i: int| 0 <= i < present@.len() && present@[i]),
{
    let mut cached = false;
    let mut enabled = true;
    let mut i: usize = 0;
    while i < present.len()
        invariant
            i <= present.len(),
            cached <==> (exists|k: int| 0 <= k < i && present@[k]),
            enabled <==> (forall|k: int| 0 <= k < i ==> present@[k]),
        decreases present.len() - i,
    {
        if present[i] {
            cached = true;
        } else {
            enabled = false;
        }
        i = i + 1;
    }
    ModelStatus { is_cached: cached, is_enabled: enabled }
}

/// A model-management failure.
#[derive(Debug)]
pub enum ModelError {
    UnsupportedModel(String),
    UnknownModel(String),
    InitializationFailed(String),
}

/// A live model: its transformer stack, its tokenizer, and its
/// configuration.
pub struct CodeModelHandle {
    pub stack: YiCoderTransformer,
    pub tokenizer: tokenizers::Tokenizer,
    pub config: ModelConfig,
}

impl CodeModelHandle {
    /// A usable handle: a well-formed stack sized by its configuration.
    pub open spec fn wf(self) -> bool {
        &&& self.stack.wf()
        &&& self.stack.hidden() == self.config.hidden_size
        &&& self.stack.vocab() == self.config.vocab_size
        &&& self.config.buildable()
    }
}

/// The lock invariant of a model slot: whatever handle is stored is usable.
pub struct SlotInv;

impl RwLockPredicate<Option<CodeModelHandle>> for SlotInv {
    open spec fn inv(self, v: Option<CodeModelHandle>) -> bool {
        match v {
            Some(h) => h.wf(),
            None => true,
        }
    }
}

/// The lock invariant of the status map: none.
pub struct StatusInv;

impl RwLockPredicate<Vec<(String, ModelStatus)>> for StatusInv {
    open spec fn inv(self, v: Vec<(String, ModelStatus)>) -> bool {
        true
    }
}

/// The supported model ids.
pub open spec fn known_model(id: Seq<char>) -> bool {
    id == "yi-coder"@ || id == "deepseek-coder"@
}

/// The model manager: one slot per supported model kind, each behind its own
/// reader-writer lock, plus the status map. Operations on distinct model ids
/// take distinct locks and never contend; within one id, a download holds
/// the write lock exclusively while concurrent reads share the read lock.
pub struct ModelManager {
    pub yi_coder: RwLock<Option<CodeModelHandle>, SlotInv>,
    pub deepseek_coder: RwLock<Option<CodeModelHandle>, SlotInv>,
    pub model_status: RwLock<Vec<(String, ModelStatus)>, StatusInv>,
}

/// Copy a projection.
fn clone_linear(l: &Linear) -> (r: Linear)
    ensures
        r.w.gm() == l.w.gm(),
        r.w.rows == l.w.rows,
        r.w.cols == l.w.cols,
        r.b@ == l.b@,
{
    let mut b: Vec<i64> = Vec::new();
    let mut k: usize = 0;
    while k < l.b.len()
        invariant
            k <= l.b.len(),
            b@ == l.b@.take(k as int),
        decreases l.b.len() - k,
    {
        b.push(l.b[k]);
        proof {
            assert(b@ =~= l.b@.take(k as int + 1));
        }
        k = k + 1;
    }
    proof {
        assert(b@ =~= l.b@);
    }
    Linear { w: clone_matrix(&l.w), b }
}

/// Copy a vector of fixed-point values.
fn clone_i64s(v: &Vec<i64>) -> (r: Vec<i64>)
    ensures
        r@ == v@,
{
    let mut b: Vec<i64> = Vec::new();
    let mut k: usize = 0;
    while k < v.len()
        invariant
            k <= v.len(),
            b@ == v@.take(k as int),
        decreases v.len() - k,
    {
        b.push(v[k]);
        proof {
            assert(b@ =~= v@.take(k as int + 1));
        }
        k = k + 1;
    }
    proof {
        assert(b@ =~= v@);
    }
    b
}

/// Copy a normalization block.
fn clone_norm(n: &LayerNorm) -> (r: LayerNorm)
    ensures
        r.weight@ == n.weight@,
        r.bias@ == n.bias@,
        r.eps_q == n.eps_q,
{
    LayerNorm { weight: clone_i64s(&n.weight), bias: clone_i64s(&n.bias), eps_q: n.eps_q }
}

/// Copy a whole transformer stack; the copy is usable wherever the original
/// was.
pub fn clone_stack(t: &YiCoderTransformer) -> (r: YiCoderTransformer)
    requires
        t.wf(),
    ensures
        r.wf(),
        r.hidden() == t.hidden(),
        r.vocab() == t.vocab(),
{
    let mut layers: Vec<TransformerLayer> = Vec::new();
    let mut i: usize = 0;
    while i < t.layers.len()
        invariant
            i <= t.layers.len(),
            t.wf(),
            layers.len() == i,
            forall|k: int| 0 <= k < i ==> (#[trigger] layers@[k]).wf(t.hidden()),
        decreases t.layers.len() - i,
    {
        let src = &t.layers[i];
        let layer = TransformerLayer {
            attention: MultiHeadAttention {
                query: clone_linear(&src.attention.query),
                key: clone_linear(&src.attention.key),
                value: clone_linear(&src.attention.value),
                out: clone_linear(&src.attention.out),
                num_heads: src.attention.num_heads,
                head_dim: src.attention.head_dim,
            },
            feed_forward: PositionWiseFeedForward {
                fc1: clone_linear(&src.feed_forward.fc1),
                fc2: clone_linear(&src.feed_forward.fc2),
            },
            norm1: clone_norm(&src.norm1),
            norm2: clone_norm(&src.norm2),
        };
        assert(layer.wf(t.hidden()));
        layers.push(layer);
        i = i + 1;
    }
    YiCoderTransformer {
        embeddings: clone_matrix(&t.embeddings),
        layers,
        norm: clone_norm(&t.norm),
    }
}

/// Copy a handle; the copy is usable wherever the original was.
pub fn clone_handle(h: &CodeModelHandle) -> (r: CodeModelHandle)
    requires
        h.wf(),
    ensures
        r.wf(),
        r.config == h.config,
{
    CodeModelHandle {
        stack: clone_stack(&h.stack),
        tokenizer: h.tokenizer.clone(),
        config: h.config,
    }
}

impl ModelManager {
    /// A fresh manager: no live handles, both supported models initially
    /// neither cached nor enabled.
    pub fn new() -> ModelManager {
        let mut status: Vec<(String, ModelStatus)> = Vec::new();
        status.push(
            ("yi-coder".to_owned(), ModelStatus { is_cached: false, is_enabled: false }),
        );
        status.push(
            ("deepseek-coder".to_owned(), ModelStatus { is_cached: false, is_enabled: false }),
        );
        ModelManager {
            yi_coder: RwLock::new(None, Ghost(SlotInv)),
            deepseek_coder: RwLock::new(None, Ghost(SlotInv)),
            model_status: RwLock::new(status, Ghost(StatusInv)),
        }
    }

    /// Construct and install a model: build the transformer stack eagerly
    /// from the weights, store the handle under the model's exclusive write
    /// lock, and mark it cached and enabled. Exactly the known model ids
    /// with buildable configurations are accepted; on failure no slot and no
    /// status is touched, so a prior handle stays as it was.
    pub fn download_model(
        &self,
        model_id: &String,
        config: &ModelConfig,
        weights: &WeightStore,
        tokenizer: tokenizers::Tokenizer,
    ) -> (r: Result<(), ModelError>)
        requires
            weights.wf(),
        ensures
            r is Ok <==> (known_model(model_id@) && config.buildable()),
            r is Err ==> (r->Err_0 is UnknownModel <==> !known_model(model_id@)),
    {
        let is_yi = string_is(model_id, "yi-coder");
        let is_deepseek = string_is(model_id, "deepseek-coder");
        if !is_yi && !is_deepseek {
            return Err(ModelError::UnknownModel(clone_string(model_id)));
        }
        let stack = match YiCoderTransformer::new(config, weights) {
            Ok(s) => s,
            Err(_) => {
                return Err(ModelError::InitializationFailed(clone_string(model_id)));
            },
        };
        let handle = CodeModelHandle { stack, tokenizer, config: *config };
        let slot = if is_yi {
            &self.yi_coder
        } else {
            &self.deepseek_coder
        };
        let (_, write_handle) = slot.acquire_write();
        write_handle.release_write(Some(handle));
        self.set_status(model_id, ModelStatus { is_cached: true, is_enabled: true });
        Ok(())
    }

    /// Record a model's status.
    fn set_status(&self, model_id: &String, status: ModelStatus) {
        let (mut map, write_handle) = self.model_status.acquire_write();
        let mut k: usize = 0;
        let n = map.len();
        while k < n
            invariant
                k <= n,
                n == map.len(),
            decreases n - k,
        {
            if map[k].0 == *model_id {
                let key = clone_string(&map[k].0);
                map.set(k, (key, status));
            }
            k = k + 1;
        }
        write_handle.release_write(map);
    }

    /// Refresh both models' status from presence probes of their required
    /// files, and return what was recorded: enabled exactly when every file
    /// exists, cached exactly when at least one does.
    pub fn refresh_status(&self, yi_present: &Vec<bool>, deepseek_present: &Vec<bool>) -> (r: (
        ModelStatus,
        ModelStatus,
    ))
        ensures
            r.0 == spec_status(yi_present@),
            r.1 == spec_status(deepseek_present@),
    {
        let yi = compute_status(yi_present);
        let deepseek = compute_status(deepseek_present);
        self.set_status(&"yi-coder".to_owned(), yi);
        self.set_status(&"deepseek-coder".to_owned(), deepseek);
        (yi, deepseek)
    }

    /// The current status of one model, if it is tracked.
    pub fn get_model_status(&self, model_id: &String) -> (r: Option<ModelStatus>) {
        let read_handle = self.model_status.acquire_read();
        let map = read_handle.borrow();
        let mut k: usize = 0;
        let mut found: Option<ModelStatus> = None;
        let n = map.len();
        while k < n
            invariant
                k <= n,
                n == map.len(),
            decreases n - k,
        {
            if found.is_none() && map[k].0 == *model_id {
                found = Some(map[k].1);
            }
            k = k + 1;
        }
        read_handle.release_read();
        found
    }

    /// A snapshot of every tracked model's status.
    pub fn get_all_model_status(&self) -> (r: Vec<(String, ModelStatus)>) {
        let read_handle = self.model_status.acquire_read();
        let map = read_handle.borrow();
        let mut out: Vec<(String, ModelStatus)> = Vec::new();
        let mut k: usize = 0;
        let n = map.len();
        while k < n
            invariant
                k <= n,
                n == map.len(),
            decreases n - k,
        {
            out.push((clone_string(&map[k].0), map[k].1));
            k = k + 1;
        }
        read_handle.release_read();
        out
    }

    /// Whether a model is both cached and enabled.
    pub fn is_model_available(&self, model_id: &String) -> (r: bool) {
        match self.get_model_status(model_id) {
            Some(s) => s.is_cached && s.is_enabled,
            None => false,
        }
    }

    /// The live handle of the yi-coder model, if one was installed: a copy
    /// taken under the read lock, so concurrent reads proceed in parallel.
    pub fn get_yi_coder(&self) -> (r: Option<CodeModelHandle>)
        ensures
            match r {
                Some(h) => h.wf(),
                None => true,
            },
    {
        let read_handle = self.yi_coder.acquire_read();
        let r = match read_handle.borrow() {
            Some(h) => Some(clone_handle(h)),
            None => None,
        };
        read_handle.release_read();
        r
    }

    /// The live handle of the deepseek-coder model, if one was installed.
    pub fn get_deepseek_coder(&self) -> (r: Option<CodeModelHandle>)
        ensures
            match r {
                Some(h) => h.wf(),
                None => true,
            },
    {
        let read_handle = self.deepseek_coder.acquire_read();
        let r = match read_handle.borrow() {
            Some(h) => Some(clone_handle(h)),
            None => None,
        };
        read_handle.release_read();
        r
    }

    /// Serve one chat completion. The failures are exact at the boundary:
    /// an empty conversation is a chat fault; an unknown model id is an
    /// availability fault of the client class; out-of-range parameters are
    /// rejected field by field before any tensor computation; a known model
    /// that was never downloaded is reported unavailable. On success the
    /// reply is one assistant message with exact token accounting, and a
    /// non-streaming call decodes the full `max_tokens` tokens.
    pub fn chat_completion(
        &self,
        model: &String,
        messages: &Vec<ChatCompletionMessage>,
        params: &ChatCompletionParams,
        defaults: &ChatDefaults,
        stream_tx: Option<&std::sync::mpsc::SyncSender<ChatCompletionMessage>>,
    ) -> (r: Result<(Vec<ChatCompletionMessage>, Usage), AppError>)
        ensures
            messages.len() == 0 ==> (r is Err && r->Err_0 is Chat),
            messages.len() > 0 && !known_model(model@) ==> (r is Err
                && r->Err_0 is InvalidModel),
            messages.len() > 0 && known_model(model@) && crate::chat::spec_first_invalid(
                *params,
                *defaults,
            ) is Some ==> (r is Err && r->Err_0 is InvalidParameter),
            r is Ok ==> {
                let (msgs, usage) = r->Ok_0;
                &&& msgs.len() == 1
                &&& msgs[0].role@ == "assistant"@
                &&& usage.total_tokens == usage.prompt_tokens + usage.completion_tokens
                &&& usage.completion_tokens <= crate::chat::spec_effective(*params, *defaults).3
                &&& (crate::chat::spec_effective(*params, *defaults).4 == false
                    ==> usage.completion_tokens == crate::chat::spec_effective(
                    *params,
                    *defaults,
                ).3)
            },
    {
        if messages.len() == 0 {
            return Err(AppError::Chat("messages must not be empty".to_owned()));
        }
        let is_yi = string_is(model, "yi-coder");
        let is_deepseek = string_is(model, "deepseek-coder");
        if !is_yi && !is_deepseek {
            return Err(AppError::InvalidModel(clone_string(model)));
        }
        let vp = match validate_params(params, defaults) {
            Ok(vp) => vp,
            Err(e) => {
                return Err(e);
            },
        };
        let slot = if is_yi {
            &self.yi_coder
        } else {
            &self.deepseek_coder
        };
        let read_handle = slot.acquire_read();
        let result = match read_handle.borrow() {
            Some(handle) => {
                let out = Self::complete_with(handle, messages, &vp, stream_tx);
                out
            },
            None => Err(AppError::Model(clone_string(model))),
        };
        read_handle.release_read();
        result
    }

    /// Run one completion against a live handle: encode the conversation,
    /// validate the prompt against the model's vocabulary and size caps, and
    /// drive the generation loop.
    fn complete_with(
        handle: &CodeModelHandle,
        messages: &Vec<ChatCompletionMessage>,
        vp: &crate::chat::ValidatedParams,
        stream_tx: Option<&std::sync::mpsc::SyncSender<ChatCompletionMessage>>,
    ) -> (r: Result<(Vec<ChatCompletionMessage>, Usage), AppError>)
        requires
            handle.wf(),
            vp.wf(),
        ensures
            r is Ok ==> {
                let (msgs, usage) = r->Ok_0;
                &&& msgs.len() == 1
                &&& msgs[0].role@ == "assistant"@
                &&& usage.total_tokens == usage.prompt_tokens + usage.completion_tokens
                &&& usage.completion_tokens <= vp.max_tokens
                &&& (!vp.stream ==> usage.completion_tokens == vp.max_tokens)
            },
    {
        let prompt_ids = match encode_messages(&handle.tokenizer, messages) {
            Ok(ids) => ids,
            Err(e) => {
                return Err(e);
            },
        };
        if prompt_ids.len() == 0 {
            return Err(AppError::Chat("the conversation encodes to no tokens".to_owned()));
        }
        if prompt_ids.len() > MAX_DIM || vp.max_tokens > MAX_DIM - prompt_ids.len() {
            return Err(AppError::Chat("the conversation is too long".to_owned()));
        }
        let vocab = handle.stack.embeddings.rows;
        let mut k: usize = 0;
        while k < prompt_ids.len()
            invariant
                k <= prompt_ids.len(),
                vocab == handle.stack.vocab(),
                forall|t: int| 0 <= t < k ==> (#[trigger] prompt_ids@[t] as int) < vocab,
            decreases prompt_ids.len() - k,
        {
            if prompt_ids[k] as usize >= vocab {
                return Err(
                    AppError::TokenizerError("token id outside the model vocabulary".to_owned()),
                );
            }
            k = k + 1;
        }
        match generate(&handle.stack, &handle.tokenizer, &prompt_ids, vp, stream_tx) {
            Ok((msg, usage)) => Ok((vec![msg], usage)),
            Err(e) => Err(e),
        }
    }

    /// The catalogue the request layer lists: each tracked model id with its
    /// current status.
    pub fn list_models(&self) -> (r: Vec<(String, ModelStatus)>) {
        self.get_all_model_status()
    }
}

impl crate::chat::ChatCompletionService {
    /// Complete a chat request against the manager: the service-level entry
    /// point, dispatching on the model id with the same exact boundary
    /// behavior as `ModelManager::chat_completion`.
    pub fn complete(
        &self,
        manager: &ModelManager,
        model: &String,
        messages: &Vec<ChatCompletionMessage>,
        params: &ChatCompletionParams,
        defaults: &ChatDefaults,
    ) -> (r: Result<(Vec<ChatCompletionMessage>, Usage), AppError>)
        ensures
            messages.len() == 0 ==> (r is Err && r->Err_0 is Chat),
            messages.len() > 0 && !known_model(model@) ==> (r is Err
                && r->Err_0 is InvalidModel),
            r is Ok ==> {
                let (msgs, usage) = r->Ok_0;
                &&& msgs.len() == 1
                &&& msgs[0].role@ == "assistant"@
                &&& usage.total_tokens == usage.prompt_tokens + usage.completion_tokens
            },
    {
        manager.chat_completion(model, messages, params, defaults, None)
    }
}

/// Whether a string holds exactly the given text.
fn string_is(s: &String, lit: &str) -> (r: bool)
    ensures
        r == (s@ == lit@),
{
    let l: String = lit.to_owned();
    *s == l
}

} // verus!
