//! Configuration values: server, locales, routes, and the per-model
//! manifest. Configuration is built once by the surrounding program and
//! passed in by reference; nothing here touches a file or a process-wide
//! singleton.

use vstd::prelude::*;

use crate::error::AppError;
use crate::locales::clone_string;

verus! {

/// The route table.
pub struct RouteConfig {
    pub routes: RoutePaths,
}

/// Paths grouped by API version.
pub struct RoutePaths {
    pub v1: V1Routes,
}

/// The mounted paths of the version-one API.
pub struct V1Routes {
    pub chat: String,
    pub models: String,
    pub download: String,
}

/// Default generation parameters, fixed point where the original values are
/// fractional.
pub struct ChatDefaults {
    pub temperature_q: i64,
    pub top_p_q: i64,
    pub n: usize,
    pub max_tokens: usize,
    pub stream: bool,
}

/// Chat settings.
pub struct Chat {
    pub defaults: ChatDefaults,
}

/// Server binding settings.
pub struct ServerConfig {
    pub host: String,
    pub port: u16,
    pub shutdown_timeout: u64,
}

/// Locale settings: where the tables live and which locale is the default.
pub struct LocalesConfig {
    pub path: String,
    pub default: String,
}

/// The files a model needs: weight shards, tokenizer, and the three
/// configuration documents.
pub struct ModelFiles {
    pub weights: Vec<String>,
    pub config: String,
    pub tokenizer: String,
    pub tokenizer_config: String,
    pub generation_config: String,
}

/// One model's manifest entry: its hub identifier, its files, and optional
/// architecture overrides (backfilled from the model's own configuration
/// document when absent).
pub struct ModelConfig {
    pub hf_hub_id: String,
    pub model_files: ModelFiles,
    pub hidden_size: Option<usize>,
    pub num_attention_heads: Option<usize>,
    pub num_hidden_layers: Option<usize>,
    pub intermediate_size: Option<usize>,
    pub vocab_size: Option<usize>,
}

/// The application configuration.
pub struct AppConfig {
    pub server: ServerConfig,
    pub locales: LocalesConfig,
    pub models: Vec<(String, ModelConfig)>,
    pub models_cache_dir: String,
    pub chat: Chat,
}

/// The index of the manifest entry for `key`, if any: the first match.
pub open spec fn model_find(s: Seq<(String, ModelConfig)>, key: Seq<char>) -> Option<int>
    decreases s.len(),
{
    if s.len() == 0 {
        None
    } else if s[0].0@ == key {
        Some(0)
    } else {
        match model_find(s.drop_first(), key) {
            Some(i) => Some(i + 1),
            None => None,
        }
    }
}

/// What a numeric field of a JSON document holds: the unsigned value of
/// `doc[key]`, if the document parses and the field is an unsigned number.
pub uninterp spec fn json_u64_field_of(doc: Seq<u8>, key: Seq<char>) -> Option<u64>;

/// Relies on serde_json::from_slice to parse the document and on
/// serde_json::Value::get / Value::as_u64 to read one unsigned field; the
/// result depends on the document bytes and the key alone.
#[verifier::external_body]
fn json_u64_field(doc: &Vec<u8>, key: &str) -> (r: Option<u64>)
    ensures
        r == json_u64_field_of(doc@, key@),
{
    serde_json::from_slice::<serde_json::Value>(doc.as_slice()).ok().and_then(
        |v| v.get(key).and_then(|x| x.as_u64()),
    )
}

/// A backfilled field: the local override when present, else what the remote
/// configuration document names under `key` (when it fits a `usize`).
pub open spec fn spec_backfill(
    local: Option<usize>,
    doc: Option<Seq<u8>>,
    key: Seq<char>,
) -> Option<usize> {
    match local {
        Some(v) => Some(v),
        None => match doc {
            Some(d) => match json_u64_field_of(d, key) {
                Some(v) => if v <= usize::MAX {
                    Some(v as usize)
                } else {
                    None
                },
                None => None,
            },
            None => None,
        },
    }
}

/// Backfill one hyperparameter from the configuration document.
fn backfill(local: Option<usize>, doc: Option<&Vec<u8>>, key: &str) -> (r: Option<usize>)
    ensures
        r == spec_backfill(
            local,
            match doc {
                Some(d) => Some(d@),
                None => None,
            },
            key@,
        ),
{
    match local {
        Some(v) => Some(v),
        None => match doc {
            Some(d) => match json_u64_field(d, key) {
                Some(v) => if v <= usize::MAX as u64 {
                    Some(v as usize)
                } else {
                    None
                },
                None => None,
            },
            None => None,
        },
    }
}

/// Copy a manifest entry.
fn clone_model_config(c: &ModelConfig) -> (r: ModelConfig)
    ensures
        r.hf_hub_id@ == c.hf_hub_id@,
        r.model_files.weights@.len() == c.model_files.weights@.len(),
        forall|k: int|
            0 <= k < c.model_files.weights@.len() ==> (#[trigger] r.model_files.weights@[k])@
                == c.model_files.weights@[k]@,
        r.model_files.config@ == c.model_files.config@,
        r.model_files.tokenizer@ == c.model_files.tokenizer@,
        r.model_files.tokenizer_config@ == c.model_files.tokenizer_config@,
        r.model_files.generation_config@ == c.model_files.generation_config@,
        r.hidden_size == c.hidden_size,
        r.num_attention_heads == c.num_attention_heads,
        r.num_hidden_layers == c.num_hidden_layers,
        r.intermediate_size == c.intermediate_size,
        r.vocab_size == c.vocab_size,
{
    let mut weights: Vec<String> = Vec::new();
    let mut k: usize = 0;
    while k < c.model_files.weights.len()
        invariant
            k <= c.model_files.weights.len(),
            weights.len() == k,
            forall|t: int|
                0 <= t < k ==> (#[trigger] weights@[t])@ == c.model_files.weights@[t]@,
        decreases c.model_files.weights.len() - k,
    {
        weights.push(clone_string(&c.model_files.weights[k]));
        k = k + 1;
    }
    ModelConfig {
        hf_hub_id: clone_string(&c.hf_hub_id),
        model_files: ModelFiles {
            weights,
            config: clone_string(&c.model_files.config),
            tokenizer: clone_string(&c.model_files.tokenizer),
            tokenizer_config: clone_string(&c.model_files.tokenizer_config),
            generation_config: clone_string(&c.model_files.generation_config),
        },
        hidden_size: c.hidden_size,
        num_attention_heads: c.num_attention_heads,
        num_hidden_layers: c.num_hidden_layers,
        intermediate_size: c.intermediate_size,
        vocab_size: c.vocab_size,
    }
}

impl AppConfig {
    /// The manifest entry for `model_key`, hyperparameters backfilled from
    /// the model's own configuration document where the manifest leaves them
    /// unset. Exactly the unknown keys are rejected.
    pub fn get_model_config(&self, model_key: &String, config_doc: Option<&Vec<u8>>) -> (r: Result<
        ModelConfig,
        AppError,
    >)
        ensures
            r is Ok <==> model_find(self.models@, model_key@) is Some,
            r is Err ==> r->Err_0 is ConfigError,
            r is Ok ==> {
                let i = model_find(self.models@, model_key@).unwrap();
                let base = self.models@[i].1;
                let doc = match config_doc {
                    Some(d) => Some(d@),
                    None => None,
                };
                &&& r->Ok_0.hf_hub_id@ == base.hf_hub_id@
                &&& r->Ok_0.model_files.config@ == base.model_files.config@
                &&& r->Ok_0.model_files.tokenizer@ == base.model_files.tokenizer@
                &&& r->Ok_0.model_files.tokenizer_config@ == base.model_files.tokenizer_config@
                &&& r->Ok_0.model_files.generation_config@ == base.model_files.generation_config@
                &&& r->Ok_0.model_files.weights@.len() == base.model_files.weights@.len()
                &&& forall|k: int|
                    0 <= k < base.model_files.weights@.len() ==> (
                    #[trigger] r->Ok_0.model_files.weights@[k])@ == base.model_files.weights@[k]@
                &&& r->Ok_0.hidden_size == spec_backfill(
                    base.hidden_size,
                    doc,
                    "hidden_size"@,
                )
                &&& r->Ok_0.num_attention_heads == spec_backfill(
                    base.num_attention_heads,
                    doc,
                    "num_attention_heads"@,
                )
                &&& r->Ok_0.num_hidden_layers == spec_backfill(
                    base.num_hidden_layers,
                    doc,
                    "num_hidden_layers"@,
                )
                &&& r->Ok_0.intermediate_size == spec_backfill(
                    base.intermediate_size,
                    doc,
                    "intermediate_size"@,
                )
                &&& r->Ok_0.vocab_size == spec_backfill(base.vocab_size, doc, "vocab_size"@)
            },
    {
        let n = self.models.len();
        let mut k: usize = 0;
        proof {
            assert(self.models@.skip(0) =~= self.models@);
        }
        while k < n
            invariant
                k <= n,
                n == self.models.len(),
                model_find(self.models@, model_key@) == match model_find(
                    self.models@.skip(k as int),
                    model_key@,
                ) {
                    Some(i) => Some(i + k),
                    None => None::<int>,
                },
            decreases n - k,
        {
            proof {
                assert(self.models@.skip(k as int)[0] == self.models@[k as int]);
            }
            if self.models[k].0 == *model_key {
                let base = &self.models[k].1;
                let mut c = clone_model_config(base);
                c.hidden_size = backfill(c.hidden_size, config_doc, "hidden_size");
                c.num_attention_heads = backfill(
                    c.num_attention_heads,
                    config_doc,
                    "num_attention_heads",
                );
                c.num_hidden_layers = backfill(
                    c.num_hidden_layers,
                    config_doc,
                    "num_hidden_layers",
                );
                c.intermediate_size = backfill(
                    c.intermediate_size,
                    config_doc,
                    "intermediate_size",
                );
                c.vocab_size = backfill(c.vocab_size, config_doc, "vocab_size");
                return Ok(c);
            }
            proof {
                assert(self.models@.skip(k as int).drop_first() =~= self.models@.skip(
                    k as int + 1,
                ));
            }
            k = k + 1;
        }
        proof {
            assert(self.models@.skip(n as int) =~= Seq::<(String, ModelConfig)>::empty());
        }
        Err(AppError::ConfigError(clone_string(model_key)))
    }
}

/// The files a model requires on disk, in resolution order: every weight
/// shard, the tokenizer artifact, then the three configuration documents.
pub open spec fn spec_required_files(mf: ModelFiles) -> Seq<String> {
    mf.weights@ + seq![mf.tokenizer, mf.config, mf.tokenizer_config, mf.generation_config]
}

/// Resolve the required artifact files of a model.
pub fn required_files(mf: &ModelFiles) -> (r: Vec<String>)
    ensures
        r@.len() == spec_required_files(*mf).len(),
        forall|k: int|
            0 <= k < r@.len() ==> (#[trigger] r@[k])@ == spec_required_files(*mf)[k]@,
{
    let mut r: Vec<String> = Vec::new();
    let mut k: usize = 0;
    while k < mf.weights.len()
        invariant
            k <= mf.weights.len(),
            r.len() == k,
            forall|t: int| 0 <= t < k ==> (#[trigger] r@[t])@ == mf.weights@[t]@,
        decreases mf.weights.len() - k,
    {
        r.push(clone_string(&mf.weights[k]));
        k = k + 1;
    }
    r.push(clone_string(&mf.tokenizer));
    r.push(clone_string(&mf.config));
    r.push(clone_string(&mf.tokenizer_config));
    r.push(clone_string(&mf.generation_config));
    r
}

/// The texts of a sequence of strings.
pub open spec fn views(s: Seq<String>) -> Seq<Seq<char>> {
    s.map_values(|x: String| x@)
}

/// The files still to fetch: exactly the required files not present, in
/// order.
pub open spec fn spec_missing(req: Seq<Seq<char>>, present: Seq<bool>, n: nat) -> Seq<Seq<char>>
    decreases n,
{
    if n == 0 {
        Seq::empty()
    } else {
        let prefix = spec_missing(req, present, (n - 1) as nat);
        if present[n - 1] {
            prefix
        } else {
            prefix + seq![req[n - 1]]
        }
    }
}

/// Decide which files to fetch: the required files whose presence probe came
/// back false. Already-present files are never listed, so a second download
/// with an unchanged manifest and all files on disk fetches nothing.
pub fn missing_files(required: &Vec<String>, present: &Vec<bool>) -> (r: Vec<String>)
    requires
        required.len() == present.len(),
    ensures
        views(r@) == spec_missing(views(required@), present@, required.len() as nat),
{
    let mut r: Vec<String> = Vec::new();
    let mut k: usize = 0;
    proof {
        assert(views(r@) =~= spec_missing(views(required@), present@, 0));
    }
    while k < required.len()
        invariant
            k <= required.len(),
            required.len() == present.len(),
            views(r@) == spec_missing(views(required@), present@, k as nat),
        decreases required.len() - k,
    {
        if !present[k] {
            r.push(clone_string(&required[k]));
        }
        proof {
            assert(views(r@) =~= spec_missing(views(required@), present@, (k + 1) as nat));
        }
        k = k + 1;
    }
    r
}

/// When every required file is present, nothing is fetched: downloading is
/// idempotent over an unchanged manifest.
pub proof fn lemma_download_idempotent(req: Seq<Seq<char>>, present: Seq<bool>, n: nat)
    requires
        n <= present.len(),
        forall|k: int| 0 <= k < present.len() ==> #[trigger] present[k],
    ensures
        spec_missing(req, present, n) =~= Seq::<Seq<char>>::empty(),
    decreases n,
{
    if n > 0 {
        lemma_download_idempotent(req, present, (n - 1) as nat);
    }
}

} // verus!
