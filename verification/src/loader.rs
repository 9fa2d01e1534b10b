//! Asset resolution and weight materialization.
//!
//! Which files a model needs, which are still missing, where they live under
//! the cache root, and how raw container tensors become the fixed-point
//! weight store. The network fetch and the filesystem probes happen outside;
//! they hand byte buffers and presence flags in, and take file lists back.

use vstd::prelude::*;

use crate::config::{model_find, spec_missing, views, AppConfig, ModelConfig};
use crate::error::AppError;
use crate::locales::clone_string;
use crate::tensor::{Matrix, MAX_DIM};
use crate::weights::{
    entries_of_payload, payload_ok, spec_entries, RawTensor, WeightStore,
};

verus! {

/// The decimal digits of `n`.
pub open spec fn spec_digits(n: nat) -> Seq<char>
    decreases n,
{
    if n < 10 {
        spec_digit(n)
    } else {
        spec_digits(n / 10) + spec_digit(n % 10)
    }
}

/// One decimal digit as text.
pub open spec fn spec_digit(d: nat) -> Seq<char> {
    if d == 0 {
        "0"@
    } else if d == 1 {
        "1"@
    } else if d == 2 {
        "2"@
    } else if d == 3 {
        "3"@
    } else if d == 4 {
        "4"@
    } else if d == 5 {
        "5"@
    } else if d == 6 {
        "6"@
    } else if d == 7 {
        "7"@
    } else if d == 8 {
        "8"@
    } else {
        "9"@
    }
}

/// One decimal digit as a string slice.
fn digit_str(d: usize) -> (r: &'static str)
    requires
        d < 10,
    ensures
        r@ == spec_digit(d as nat),
{
    if d == 0 {
        "0"
    } else if d == 1 {
        "1"
    } else if d == 2 {
        "2"
    } else if d == 3 {
        "3"
    } else if d == 4 {
        "4"
    } else if d == 5 {
        "5"
    } else if d == 6 {
        "6"
    } else if d == 7 {
        "7"
    } else if d == 8 {
        "8"
    } else {
        "9"
    }
}

/// Render a number in decimal.
pub fn usize_to_string(n: usize) -> (r: String)
    ensures
        r@ == spec_digits(n as nat),
    decreases n,
{
    if n < 10 {
        digit_str(n).to_owned()
    } else {
        let mut s = usize_to_string(n / 10);
        s.append(digit_str(n % 10));
        s
    }
}

/// The parameter name of layer `i`: `layer_<i><suffix>`.
pub open spec fn spec_layer_name(i: nat, suffix: Seq<char>) -> Seq<char> {
    "layer_"@ + spec_digits(i) + suffix
}

/// Build the parameter name of layer `i`.
pub fn layer_param_name(i: usize, suffix: &str) -> (r: String)
    ensures
        r@ == spec_layer_name(i as nat, suffix@),
{
    let mut s = "layer_".to_owned();
    let num = usize_to_string(i);
    s.append(num.as_str());
    s.append(suffix);
    s
}

/// The cache path of one artifact: `<cache_dir>/<hub_id>/<file>`.
pub open spec fn spec_cache_path(cache_dir: Seq<char>, hub_id: Seq<char>, file: Seq<char>) -> Seq<
    char,
> {
    cache_dir + "/"@ + hub_id + "/"@ + file
}

/// Join a cache path.
pub fn cache_path(cache_dir: &String, hub_id: &String, file: &String) -> (r: String)
    ensures
        r@ == spec_cache_path(cache_dir@, hub_id@, file@),
{
    let mut s = clone_string(cache_dir);
    s.append("/");
    s.append(hub_id.as_str());
    s.append("/");
    s.append(file.as_str());
    s
}

/// What a download must do: the cache paths of every required file, and the
/// names still to fetch from the hub.
pub struct DownloadPlan {
    pub local_paths: Vec<String>,
    pub to_fetch: Vec<String>,
}

/// Plans downloads and resolves cached artifact paths; the fetches
/// themselves happen outside, against this plan.
pub struct ModelDownloader;

impl ModelDownloader {
    /// The cache path of a model's configuration document; exactly the
    /// unknown model ids are rejected.
    pub fn get_model_config_path(config: &AppConfig, model_id: &String) -> (r: Result<
        String,
        AppError,
    >)
        ensures
            r is Ok <==> model_find(config.models@, model_id@) is Some,
            r is Ok ==> {
                let mc = config.models@[model_find(config.models@, model_id@).unwrap()].1;
                r->Ok_0@ == spec_cache_path(
                    config.models_cache_dir@,
                    mc.hf_hub_id@,
                    mc.model_files.config@,
                )
            },
            r is Err ==> r->Err_0 is ConfigError,
    {
        match config.get_model_config(model_id, None) {
            Ok(mc) => Ok(
                cache_path(&config.models_cache_dir, &mc.hf_hub_id, &mc.model_files.config),
            ),
            Err(e) => Err(e),
        }
    }

    /// Plan a model download: every required file's cache path, and — from
    /// the presence probes handed in, one per required file in resolution
    /// order — the files that must still be fetched. Present files are never
    /// fetched again.
    pub fn plan_download(mc: &ModelConfig, cache_dir: &String, present: &Vec<bool>) -> (r:
        DownloadPlan)
        requires
            present.len() == crate::config::spec_required_files(mc.model_files).len(),
        ensures
            views(r.to_fetch@) == spec_missing(
                views(crate::config::spec_required_files(mc.model_files)),
                present@,
                present.len() as nat,
            ),
            r.local_paths@.len() == present.len(),
            forall|k: int|
                0 <= k < r.local_paths@.len() ==> (#[trigger] r.local_paths@[k])@
                    == spec_cache_path(
                    cache_dir@,
                    mc.hf_hub_id@,
                    crate::config::spec_required_files(mc.model_files)[k]@,
                ),
    {
        let required = crate::config::required_files(&mc.model_files);
        let to_fetch = crate::config::missing_files(&required, present);
        proof {
            assert(views(required@) =~= views(
                crate::config::spec_required_files(mc.model_files),
            ));
            lemma_missing_same(
                views(required@),
                views(crate::config::spec_required_files(mc.model_files)),
                present@,
                present.len() as nat,
            );
        }
        let mut local_paths: Vec<String> = Vec::new();
        let mut k: usize = 0;
        while k < required.len()
            invariant
                k <= required.len(),
                required@.len() == crate::config::spec_required_files(mc.model_files).len(),
                forall|t: int|
                    0 <= t < required@.len() ==> (#[trigger] required@[t])@
                        == crate::config::spec_required_files(mc.model_files)[t]@,
                local_paths.len() == k,
                forall|t: int|
                    0 <= t < k ==> (#[trigger] local_paths@[t])@ == spec_cache_path(
                        cache_dir@,
                        mc.hf_hub_id@,
                        crate::config::spec_required_files(mc.model_files)[t]@,
                    ),
            decreases required.len() - k,
        {
            local_paths.push(cache_path(cache_dir, &mc.hf_hub_id, &required[k]));
            k = k + 1;
        }
        DownloadPlan { local_paths, to_fetch }
    }
}

/// Two name lists with the same texts leave the same files missing.
proof fn lemma_missing_same(a: Seq<Seq<char>>, b: Seq<Seq<char>>, present: Seq<bool>, n: nat)
    requires
        a =~= b,
    ensures
        spec_missing(a, present, n) == spec_missing(b, present, n),
{
}

/// A raw tensor the loader accepts: stored as 32-bit floats, every value
/// finite, at most two dimensions, each within the dimension cap, and a
/// payload that matches the shape.
pub open spec fn raw_ok(t: RawTensor) -> bool {
    &&& t.dtype@ == "F32"@
    &&& payload_ok(t.data@)
    &&& 1 <= t.shape@.len() <= 2
    &&& spec_rows(t) <= MAX_DIM
    &&& spec_cols(t) <= MAX_DIM
    &&& t.data@.len() == 4 * spec_rows(t) * spec_cols(t)
}

/// The row count of a raw tensor: one for a vector.
pub open spec fn spec_rows(t: RawTensor) -> int {
    if t.shape@.len() == 1 {
        1
    } else {
        t.shape@[0] as int
    }
}

/// The column count of a raw tensor: its last dimension.
pub open spec fn spec_cols(t: RawTensor) -> int {
    t.shape@[t.shape@.len() - 1] as int
}

/// Materialize the raw tensors of a container into the fixed-point weight
/// store. Exactly the containers whose every tensor is clean (32-bit floats,
/// finite values, a consistent one- or two-dimensional shape within the
/// engine's caps) are accepted; the failure names the offending tensor.
pub fn load_weights(raw: &Vec<RawTensor>) -> (r: Result<WeightStore, AppError>)
    ensures
        r is Ok <==> (forall|k: int| 0 <= k < raw.len() ==> raw_ok(#[trigger] raw@[k])),
        r is Err ==> r->Err_0 is SafeTensor,
        r is Ok ==> {
            let ws = r->Ok_0;
            &&& ws.wf()
            &&& ws.tensors@.len() == raw@.len()
            &&& forall|k: int|
                0 <= k < raw@.len() ==> (#[trigger] ws.tensors@[k]).0@ == raw@[k].name@
            &&& forall|k: int|
                0 <= k < raw@.len() ==> (#[trigger] ws.tensors@[k]).1.rows == spec_rows(raw@[k])
                    && ws.tensors@[k].1.cols == spec_cols(raw@[k]) && ws.tensors@[k].1.data@
                    == spec_entries(raw@[k].data@)
        },
{
    let mut tensors: Vec<(String, Matrix)> = Vec::new();
    let mut k: usize = 0;
    while k < raw.len()
        invariant
            k <= raw.len(),
            tensors.len() == k,
            forall|t: int| 0 <= t < k ==> raw_ok(#[trigger] raw@[t]),
            forall|t: int| 0 <= t < k ==> (#[trigger] tensors@[t]).0@ == raw@[t].name@,
            forall|t: int|
                0 <= t < k ==> (#[trigger] tensors@[t]).1.rows == spec_rows(raw@[t])
                    && tensors@[t].1.cols == spec_cols(raw@[t]) && tensors@[t].1.data@
                    == spec_entries(raw@[t].data@),
            forall|t: int| 0 <= t < k ==> (#[trigger] tensors@[t]).1.wf(),
        decreases raw.len() - k,
    {
        let t = &raw[k];
        let f32_name: &str = "F32";
        let is_f32: bool = {
            let d: &str = t.dtype.as_str();
            str_eq(d, f32_name)
        };
        if !is_f32 {
            return Err(AppError::SafeTensor(clone_string(&t.name)));
        }
        if t.shape.len() == 0 || t.shape.len() > 2 {
            return Err(AppError::SafeTensor(clone_string(&t.name)));
        }
        let rows: usize = if t.shape.len() == 1 {
            1
        } else {
            t.shape[0]
        };
        let cols: usize = t.shape[t.shape.len() - 1];
        if rows > MAX_DIM || cols > MAX_DIM {
            return Err(AppError::SafeTensor(clone_string(&t.name)));
        }
        proof {
            assert(0 <= 4 * (rows as int) * (cols as int) <= 4 * (MAX_DIM as int) * (
            MAX_DIM as int)) by (nonlinear_arith)
                requires
                    0 <= rows <= MAX_DIM,
                    0 <= cols <= MAX_DIM,
            ;
        }
        let expect: u64 = 4 * (rows as u64) * (cols as u64);
        if t.data.len() as u64 != expect {
            return Err(AppError::SafeTensor(clone_string(&t.name)));
        }
        match entries_of_payload(&t.data) {
            Some(entries) => {
                proof {
                    assert(entries@.len() == rows as int * cols as int) by (nonlinear_arith)
                        requires
                            entries@.len() == t.data@.len() / 4,
                            t.data@.len() == 4 * (rows as int) * (cols as int),
                    ;
                    assert forall|q: int| 0 <= q < entries@.len() implies -crate::fixed::MAX_MAG
                        <= #[trigger] entries@[q] <= crate::fixed::MAX_MAG by {
                        crate::weights::lemma_q16_of_bits_bounded(
                            crate::weights::spec_le_u32(t.data@, q),
                        );
                    };
                }
                let m = Matrix { data: entries, rows, cols };
                tensors.push((clone_string(&t.name), m));
            },
            None => {
                return Err(AppError::SafeTensor(clone_string(&t.name)));
            },
        }
        k = k + 1;
    }
    Ok(WeightStore { tensors })
}

/// Parse a weight container and materialize its tensors into the
/// fixed-point weight store: the verified half of loading one shard.
pub fn load_container(bytes: &Vec<u8>) -> (r: Result<WeightStore, AppError>)
    ensures
        r is Ok ==> r->Ok_0.wf(),
        r is Err ==> r->Err_0 is SafeTensor,
{
    match crate::weights::parse_safetensors(bytes) {
        Ok(raw) => load_weights(&raw),
        Err(e) => Err(AppError::SafeTensor(e)),
    }
}

/// String equality by text.
fn str_eq(a: &str, b: &str) -> (r: bool)
    ensures
        r == (a@ == b@),
{
    let sa: String = a.to_owned();
    let sb: String = b.to_owned();
    sa == sb
}

} // verus!
