use vstd::prelude::*;

use crate::error::Error;
use crate::whisper::config::{VadModel, WhisperModel};

verus! {

/// Where a model file comes from and how it is filed under the model directory.
#[derive(Debug)]
pub struct ModelInfo {
    pub file_name: String,
    pub model_type: String,
    pub base_url: String,
}

/// A model file: its place under the model directory and the URL it is downloaded from.
#[derive(Debug)]
pub struct ModelLocation {
    /// The kind of model (`whisper`, `silero`, or `custom` for a custom vad model); also its
    /// sub directory.
    pub model_type: String,
    /// The name of the model file.
    pub file_name: String,
    /// `model_dir`/`model_type`/`file_name`.
    pub path: String,
    /// `base_url` followed by `file_name`.
    pub url: String,
}

impl Clone for ModelLocation {
    fn clone(&self) -> (res: Self)
        ensures
            res == *self,
    {
        ModelLocation {
            model_type: self.model_type.clone(),
            file_name: self.file_name.clone(),
            path: self.path.clone(),
            url: self.url.clone(),
        }
    }
}

pub open spec fn vad_base_url() -> Seq<char> {
    "https://huggingface.co/ggml-org/whisper-vad/resolve/main/"@
}

pub open spec fn whisper_base_url() -> Seq<char> {
    "https://huggingface.co/ggerganov/whisper.cpp/resolve/main/"@
}

/// The name that a built in whisper model goes by in its file name.
pub open spec fn whisper_model_name(m: WhisperModel) -> Seq<char> {
    match m {
        WhisperModel::Small => "small.en"@,
        WhisperModel::Tiny => "tiny.en"@,
        WhisperModel::Base => "base.en"@,
        WhisperModel::Medium => "medium.en"@,
        WhisperModel::Large => "large-v3"@,
        WhisperModel::Turbo => "large-v3-turbo"@,
        WhisperModel::Custom { name, .. } => name@,
    }
}

/// The file name, kind and download base of a whisper model. Every whisper model, a
/// custom one too, is of the kind `whisper`, and so is filed under `model_dir/whisper/`.
pub open spec fn whisper_model_info(m: WhisperModel) -> (Seq<char>, Seq<char>, Seq<char>) {
    match m {
        WhisperModel::Custom { name, base_url } => (name@, "whisper"@, base_url@),
        _ => ("ggml-"@ + whisper_model_name(m) + ".bin"@, "whisper"@, whisper_base_url()),
    }
}

/// The file name, kind and download base of a vad model.
pub open spec fn vad_model_info(m: VadModel) -> (Seq<char>, Seq<char>, Seq<char>) {
    match m {
        VadModel::Silero => ("ggml-silero-v6.2.0.bin"@, "silero"@, vad_base_url()),
        VadModel::Custom { name, base_url } => (name@, "custom"@, base_url@),
    }
}

impl ModelInfo {
    pub open spec fn parts(&self) -> (Seq<char>, Seq<char>, Seq<char>) {
        (self.file_name@, self.model_type@, self.base_url@)
    }
}

impl VadModel {
    /// The file name, kind and download base of this model.
    pub fn model_info(&self) -> (res: ModelInfo)
        ensures
            res.parts() == vad_model_info(*self),
    {
        match self {
            VadModel::Silero => ModelInfo {
                file_name: String::from_str("ggml-silero-v6.2.0.bin"),
                model_type: String::from_str("silero"),
                base_url: String::from_str(
                    "https://huggingface.co/ggml-org/whisper-vad/resolve/main/",
                ),
            },
            VadModel::Custom { name, base_url } => ModelInfo {
                file_name: name.clone(),
                model_type: String::from_str("custom"),
                base_url: base_url.clone(),
            },
        }
    }
}

impl WhisperModel {
    /// The file name, kind and download base of this model.
    pub fn model_info(&self) -> (res: ModelInfo)
        ensures
            res.parts() == whisper_model_info(*self),
    {
        let name = match self {
            WhisperModel::Custom { name, base_url } => {
                return ModelInfo {
                    file_name: name.clone(),
                    model_type: String::from_str("whisper"),
                    base_url: base_url.clone(),
                };
            },
            WhisperModel::Small => "small.en",
            WhisperModel::Tiny => "tiny.en",
            WhisperModel::Base => "base.en",
            WhisperModel::Medium => "medium.en",
            WhisperModel::Large => "large-v3",
            WhisperModel::Turbo => "large-v3-turbo",
        };
        let file_name = String::from_str("ggml-").concat(name).concat(".bin");
        ModelInfo {
            file_name,
            model_type: String::from_str("whisper"),
            base_url: String::from_str("https://huggingface.co/ggerganov/whisper.cpp/resolve/main/"),
        }
    }
}

/// What joining `component` onto the path `base` gives, as `std::path::Path::join`
/// computes it on the platform the library is built for.
pub uninterp spec fn joined_path(base: Seq<char>, component: Seq<char>) -> Seq<char>;

/// Calls `std::path::Path::join` on `base` and `component` and returns the joined path as
/// text. The contract claims only that the result is `joined_path(base, component)`: a
/// function of the two arguments alone. The separator and the handling of absolute
/// components are those of the platform, and are left unsaid.
#[verifier::external_body]
fn join_path(base: &str, component: &str) -> (res: String)
    ensures
        res@ == joined_path(base@, component@),
{
    std::path::Path::new(base).join(component).to_string_lossy().into_owned()
}

impl ModelLocation {
    pub open spec fn parts(&self) -> (Seq<char>, Seq<char>, Seq<char>, Seq<char>) {
        (self.model_type@, self.file_name@, self.path@, self.url@)
    }
}

/// The location of the model described by `info` (file name, kind, download base)
/// under the directory `model_dir`.
pub open spec fn location_of(
    model_dir: Seq<char>,
    info: (Seq<char>, Seq<char>, Seq<char>),
) -> (Seq<char>, Seq<char>, Seq<char>, Seq<char>) {
    let (file_name, model_type, base_url) = info;
    (
        model_type,
        file_name,
        joined_path(joined_path(model_dir, model_type), file_name),
        base_url + file_name,
    )
}

impl ModelInfo {
    /// Where this model lives under `model_dir` and where it is downloaded from.
    pub fn location(&self, model_dir: &str) -> (res: ModelLocation)
        ensures
            res.parts() == location_of(model_dir@, self.parts()),
    {
        let type_dir = join_path(model_dir, self.model_type.as_str());
        let path = join_path(type_dir.as_str(), self.file_name.as_str());
        let url = self.base_url.clone().concat(self.file_name.as_str());
        ModelLocation {
            model_type: self.model_type.clone(),
            file_name: self.file_name.clone(),
            path,
            url,
        }
    }
}

/// A model's kind, file name, path and URL, as text.
pub type LocationParts = (Seq<char>, Seq<char>, Seq<char>, Seq<char>);

/// The parts of each of `locations`.
pub open spec fn parts_of(locations: Seq<ModelLocation>) -> Seq<LocationParts> {
    locations.map_values(|l: ModelLocation| l.parts())
}

/// Whether the `i`-th model was found on disk.
pub open spec fn is_present(present: Seq<bool>, i: int) -> bool {
    0 <= i < present.len() && present[i]
}

/// The models among the first `n` of `models` that were not found, in order.
pub open spec fn missing_among(models: Seq<LocationParts>, present: Seq<bool>, n: int) -> Seq<
    LocationParts,
>
    decreases n,
{
    if n <= 0 {
        Seq::empty()
    } else {
        let before = missing_among(models, present, n - 1);
        if is_present(present, n - 1) {
            before
        } else {
            before.push(models[n - 1])
        }
    }
}

/// The models of `models` that were not found, in order.
pub open spec fn missing_models(models: Seq<LocationParts>, present: Seq<bool>) -> Seq<
    LocationParts,
> {
    missing_among(models, present, models.len() as int)
}

/// What resolving `models` gives: the models to download, or, where downloading is not
/// allowed and a model is missing, that first missing model, to be reported.
pub open spec fn resolution(models: Seq<LocationParts>, present: Seq<bool>, can_download: bool) -> core::result::Result<
    Seq<LocationParts>,
    LocationParts,
> {
    let missing = missing_models(models, present);
    if can_download || missing.len() == 0 {
        Ok(missing)
    } else {
        Err(missing[0])
    }
}

/// Models that were found are never downloaded, and every model that was not found is:
/// the models to download are exactly those whose file is missing, in order.
pub proof fn lemma_missing_models(models: Seq<LocationParts>, present: Seq<bool>)
    ensures
        forall|k: int|
            0 <= k < missing_models(models, present).len() ==> exists|i: int|
                0 <= i < models.len() && !is_present(present, i) && #[trigger] missing_models(
                    models,
                    present,
                )[k] == models[i],
        forall|i: int|
            0 <= i < models.len() && !is_present(present, i) ==> missing_models(
                models,
                present,
            ).contains(#[trigger] models[i]),
        (forall|i: int| 0 <= i < models.len() ==> is_present(present, i)) ==> missing_models(
            models,
            present,
        ).len() == 0,
{
    lemma_missing_among(models, present, models.len() as int);
}

proof fn lemma_missing_among(models: Seq<LocationParts>, present: Seq<bool>, n: int)
    requires
        0 <= n <= models.len(),
    ensures
        forall|k: int|
            0 <= k < missing_among(models, present, n).len() ==> exists|i: int|
                0 <= i < n && !is_present(present, i) && #[trigger] missing_among(
                    models,
                    present,
                    n,
                )[k] == models[i],
        forall|i: int|
            0 <= i < n && !is_present(present, i) ==> missing_among(models, present, n).contains(
                #[trigger] models[i],
            ),
        (forall|i: int| 0 <= i < n ==> is_present(present, i)) ==> missing_among(
            models,
            present,
            n,
        ).len() == 0,
    decreases n,
{
    if n > 0 {
        lemma_missing_among(models, present, n - 1);
        let before = missing_among(models, present, n - 1);
        if !is_present(present, n - 1) {
            let after = before.push(models[n - 1]);
            assert(after[before.len() as int] == models[n - 1]);
            assert forall|i: int| 0 <= i < n && !is_present(present, i) implies after.contains(
                #[trigger] models[i],
            ) by {
                if i < n - 1 {
                    let k = choose|k: int| 0 <= k < before.len() && before[k] == models[i];
                    assert(after[k] == models[i]);
                }
            }
            assert forall|k: int| 0 <= k < after.len() implies exists|i: int|
                0 <= i < n && !is_present(present, i) && #[trigger] after[k] == models[i] by {
                if k < before.len() {
                    assert(after[k] == before[k]);
                } else {
                    assert(after[k] == models[n - 1]);
                }
            }
        }
    }
}

/// `e` reports the model `m` as missing from its place.
pub open spec fn reports_missing(e: Error, m: LocationParts) -> bool {
    match e {
        Error::ModelNotFound { model, path, url } => model@ == m.0 && path@ == m.2 && url@ == m.3,
        _ => false,
    }
}

/// The outcome `res` of resolving models agrees with `want`.
pub open spec fn resolved_as(
    res: core::result::Result<Vec<ModelLocation>, Error>,
    want: core::result::Result<Seq<LocationParts>, LocationParts>,
) -> bool {
    match (res, want) {
        (Ok(v), Ok(s)) => parts_of(v@) == s,
        (Err(e), Err(m)) => reports_missing(e, m),
        _ => false,
    }
}

/// Decides, for each model of `locations`, whether it has to be downloaded.
/// `present[i]` tells whether the file of `locations[i]` exists; a model without an entry
/// counts as missing. Returns the models to download, in order; where `can_download` is
/// not set and a model is missing, the error names the first missing model.
pub fn resolve_models(
    locations: &Vec<ModelLocation>,
    present: &Vec<bool>,
    can_download: bool,
) -> (res: core::result::Result<Vec<ModelLocation>, Error>)
    ensures
        resolved_as(res, resolution(parts_of(locations@), present@, can_download)),
{
    let ghost models = parts_of(locations@);
    let mut missing: Vec<ModelLocation> = Vec::new();
    let mut i: usize = 0;
    while i < locations.len()
        invariant
            i <= locations.len(),
            models == parts_of(locations@),
            parts_of(missing@) == missing_among(models, present@, i as int),
        decreases locations.len() - i,
    {
        let found = i < present.len() && present[i];
        let ghost before = missing@;
        if !found {
            missing.push(locations[i].clone());
            assert(parts_of(missing@) =~= parts_of(before).push(models[i as int]));
        }
        i = i + 1;
    }
    if can_download || missing.len() == 0 {
        Ok(missing)
    } else {
        let first = &missing[0];
        assert(parts_of(missing@)[0] == first.parts());
        Err(
            Error::ModelNotFound {
                model: first.model_type.clone(),
                path: first.path.clone(),
                url: first.url.clone(),
            },
        )
    }
}

} // verus!
