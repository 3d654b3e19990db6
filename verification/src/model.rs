//! Model Manager: a Hugging Face-style model gallery with metadata, "pull"
//! to mark a model available offline, and queries. The built-in bigram model
//! is always available once the registry is seeded.

use vstd::prelude::*;
use vstd::string::*;
use crate::text::str_eq;

verus! {

/// A gallery entry.
#[derive(Clone, Copy)]
pub struct Model {
    /// Hugging Face-style repo id.
    pub id: &'static str,
    /// text-generation | vision | text-to-image | speech
    pub task: &'static str,
    pub size_mb: u32,
    pub vram_mb: u32,
    pub license: &'static str,
    /// gguf | onnx | safetensors | builtin
    pub format: &'static str,
}

/// Number of gallery entries.
pub const GALLERY_LEN: usize = 6;

/// Repo ids of the gallery, in catalog order.
pub const MODEL_IDS: [&'static str; 6] = [
    "TinyLlama/TinyLlama-1.1B", "microsoft/phi-2", "openai/whisper-base", "microsoft/trocr-base",
    "stabilityai/sd-turbo", "buitenzorg/nalar-bigram",
];
/// Task of each gallery entry.
pub const MODEL_TASKS: [&'static str; 6] = [
    "text-generation", "text-generation", "speech", "vision", "text-to-image", "text-generation",
];
/// Download size (MB) of each gallery entry.
pub const MODEL_SIZE_MB: [u32; 6] = [640, 1600, 140, 330, 2400, 1];
/// Approximate VRAM (MB) of each gallery entry.
pub const MODEL_VRAM_MB: [u32; 6] = [1200, 3000, 500, 900, 4000, 0];
/// License of each gallery entry.
pub const MODEL_LICENSES: [&'static str; 6] = ["Apache-2.0", "MIT", "MIT", "MIT", "SAI-NC", "MIT"];
/// Weight format of each gallery entry.
pub const MODEL_FORMATS: [&'static str; 6] = ["gguf", "gguf", "onnx", "onnx", "safetensors", "builtin"];

/// Gallery entry `i`.
pub open spec fn spec_model(i: int) -> Model {
    Model {
        id: MODEL_IDS[i],
        task: MODEL_TASKS[i],
        size_mb: MODEL_SIZE_MB[i],
        vram_mb: MODEL_VRAM_MB[i],
        license: MODEL_LICENSES[i],
        format: MODEL_FORMATS[i],
    }
}

/// Gallery entry `i`.
pub fn model_at(i: usize) -> (m: Model)
    requires
        i < GALLERY_LEN,
    ensures
        m == spec_model(i as int),
{
    Model {
        id: MODEL_IDS[i],
        task: MODEL_TASKS[i],
        size_mb: MODEL_SIZE_MB[i],
        vram_mb: MODEL_VRAM_MB[i],
        license: MODEL_LICENSES[i],
        format: MODEL_FORMATS[i],
    }
}

/// Index of the last `'/'` in `s`, or -1.
pub open spec fn last_slash(s: Seq<char>) -> int
    decreases s.len(),
{
    if s.len() == 0 {
        -1
    } else if s.last() == '/' {
        s.len() - 1
    } else {
        last_slash(s.drop_last())
    }
}

proof fn lemma_last_slash(s: Seq<char>, n: int)
    requires
        0 <= n <= s.len(),
        forall|j: int| n <= j < s.len() ==> s[j] != '/',
    ensures
        last_slash(s) == last_slash(s.subrange(0, n)),
        -1 <= last_slash(s) < n,
        last_slash(s) >= 0 ==> s[last_slash(s)] == '/',
    decreases s.len(),
{
    if s.len() > n {
        assert(s.drop_last().subrange(0, n) =~= s.subrange(0, n));
        lemma_last_slash(s.drop_last(), n);
    } else {
        assert(s.subrange(0, n) =~= s);
        lemma_last_slash_bounds(s);
    }
}

proof fn lemma_last_slash_bounds(s: Seq<char>)
    ensures
        -1 <= last_slash(s) < s.len(),
        last_slash(s) >= 0 ==> s[last_slash(s)] == '/',
    decreases s.len(),
{
    if s.len() > 0 && s.last() != '/' {
        lemma_last_slash_bounds(s.drop_last());
    }
}

/// The short name of a repo id: the part after the last `'/'`.
pub open spec fn short_spec(s: Seq<char>) -> Seq<char> {
    s.subrange(last_slash(s) + 1, s.len() as int)
}

/// Short name = the part after the last '/' (the whole id if there is none).
pub fn short(id: &str) -> (s: &str)
    ensures
        s@ == short_spec(id@),
{
    let n = id.unicode_len();
    let mut i: usize = n;
    while i > 0
        invariant
            i <= n,
            n == id@.len(),
            forall|j: int| i <= j < n ==> id@[j] != '/',
        decreases i,
    {
        if id.get_char(i - 1) == '/' {
            proof {
                lemma_last_slash(id@, i as int);
                assert(id@.subrange(0, i as int).last() == '/');
            }
            return id.substring_char(i, n);
        }
        i = i - 1;
    }
    proof {
        lemma_last_slash(id@, 0);
        assert(id@.subrange(0, 0) =~= Seq::<char>::empty());
    }
    id.substring_char(0, n)
}

/// Whether gallery entry `i` answers to `id` (full repo id or short name).
pub open spec fn matches(i: int, id: Seq<char>) -> bool {
    MODEL_IDS[i]@ == id || short_spec(MODEL_IDS[i]@) == id
}

/// The first gallery entry whose id or short name is `id`.
pub fn find(id: &str) -> (m: Option<Model>)
    ensures
        m is None <==> forall|i: int| 0 <= i < GALLERY_LEN ==> !#[trigger] matches(i, id@),
        m is Some ==> exists|i: int| 0 <= i < GALLERY_LEN && #[trigger] matches(i, id@) && m->0 == spec_model(i)
            && forall|j: int| 0 <= j < i ==> !#[trigger] matches(j, id@),
{
    let mut i: usize = 0;
    while i < GALLERY_LEN
        invariant
            i <= GALLERY_LEN,
            forall|j: int| 0 <= j < i ==> !#[trigger] matches(j, id@),
        decreases GALLERY_LEN - i,
    {
        if str_eq(MODEL_IDS[i], id) || str_eq(short(MODEL_IDS[i]), id) {
            assert(matches(i as int, id@));
            return Some(model_at(i));
        }
        i = i + 1;
    }
    None
}

/// Models pulled (available offline), by full repo id.
pub struct ModelRegistry {
    pub pulled: Vec<String>,
}

impl ModelRegistry {
    /// Nothing pulled yet.
    pub fn new() -> (r: ModelRegistry)
        ensures
            r.pulled@.len() == 0,
    {
        ModelRegistry { pulled: Vec::new() }
    }
}

/// The pulled ids as character sequences.
pub open spec fn pulled_ids(r: &ModelRegistry) -> Seq<Seq<char>> {
    r.pulled@.map_values(|s: String| s@)
}

/// Register the built-in model as available, if nothing is registered yet.
pub fn seed(r: &mut ModelRegistry)
    ensures
        old(r).pulled@.len() == 0 ==> pulled_ids(final(r)) == seq!["buitenzorg/nalar-bigram"@],
        old(r).pulled@.len() > 0 ==> final(r).pulled@ == old(r).pulled@,
{
    if r.pulled.len() == 0 {
        r.pulled.push(crate::text::owned("buitenzorg/nalar-bigram"));
        assert(pulled_ids(r) =~= seq!["buitenzorg/nalar-bigram"@]);
    }
}

/// The full id a query resolves to: the gallery id when it matches an
/// entry, else the query itself.
pub open spec fn resolve_id(id: Seq<char>) -> Seq<char> {
    if exists|i: int| 0 <= i < GALLERY_LEN && #[trigger] matches(i, id) {
        MODEL_IDS[choose|i: int| 0 <= i < GALLERY_LEN && matches(i, id) && forall|j: int| 0 <= j < i ==> !#[trigger] matches(j, id)]@
    } else {
        id
    }
}

fn contains_id(r: &ModelRegistry, full: &str) -> (b: bool)
    ensures
        b == pulled_ids(r).contains(full@),
{
    let mut i: usize = 0;
    while i < r.pulled.len()
        invariant
            i <= r.pulled@.len(),
            forall|j: int| 0 <= j < i ==> r.pulled@[j]@ != full@,
        decreases r.pulled@.len() - i,
    {
        if str_eq(r.pulled[i].as_str(), full) {
            assert(pulled_ids(r)[i as int] == full@);
            return true;
        }
        i = i + 1;
    }
    proof {
        if pulled_ids(r).contains(full@) {
            let k = choose|k: int| 0 <= k < pulled_ids(r).len() && pulled_ids(r)[k] == full@;
            assert(r.pulled@[k]@ == full@);
        }
    }
    false
}

/// Whether `id` (full or short) is available offline.
pub fn is_pulled(r: &ModelRegistry, id: &str) -> (b: bool)
    ensures
        b == pulled_ids(r).contains(resolve_id(id@)),
{
    match find(id) {
        Some(m) => {
            let ghost i = choose|i: int| 0 <= i < GALLERY_LEN && matches(i, id@) && m == spec_model(i)
                && forall|j: int| 0 <= j < i ==> !#[trigger] matches(j, id@);
            proof {
                let k = choose|k: int| 0 <= k < GALLERY_LEN && matches(k, id@) && forall|j: int| 0 <= j < k ==> !#[trigger] matches(j, id@);
                if k < i { assert(!matches(k, id@)); }
                if i < k { assert(!matches(i, id@)); }
            }
            contains_id(r, m.id)
        },
        None => contains_id(r, id),
    }
}

/// "Download" a model from the gallery: registers it as available offline.
/// Fails with "model not in gallery" for an unknown id and "already
/// available" when it is already pulled.
pub fn pull(r: &mut ModelRegistry, id: &str) -> (res: Result<Model, &'static str>)
    ensures
        (forall|i: int| 0 <= i < GALLERY_LEN ==> !#[trigger] matches(i, id@)) ==> res is Err
            && res->Err_0@ == "model not in gallery"@ && final(r).pulled@ == old(r).pulled@,
        (exists|i: int| 0 <= i < GALLERY_LEN && #[trigger] matches(i, id@)) ==> ({
            let full = resolve_id(id@);
            &&& pulled_ids(old(r)).contains(full) ==> res is Err && res->Err_0@ == "already available"@
                && final(r).pulled@ == old(r).pulled@
            &&& !pulled_ids(old(r)).contains(full) ==> res is Ok && res->Ok_0.id@ == full
                && pulled_ids(final(r)) == pulled_ids(old(r)).push(full)
        }),
{
    match find(id) {
        None => Err("model not in gallery"),
        Some(m) => {
            let ghost i = choose|i: int| 0 <= i < GALLERY_LEN && matches(i, id@) && m == spec_model(i)
                && forall|j: int| 0 <= j < i ==> !#[trigger] matches(j, id@);
            proof {
                let k = choose|k: int| 0 <= k < GALLERY_LEN && matches(k, id@) && forall|j: int| 0 <= j < k ==> !#[trigger] matches(j, id@);
                if k < i { assert(!matches(k, id@)); }
                if i < k { assert(!matches(i, id@)); }
                assert(resolve_id(id@) == m.id@);
            }
            if contains_id(r, m.id) {
                return Err("already available");
            }
            r.pulled.push(crate::text::owned(m.id));
            assert(pulled_ids(r) =~= pulled_ids(old(r)).push(m.id@));
            Ok(m)
        },
    }
}

} // verus!
