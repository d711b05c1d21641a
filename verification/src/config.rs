use vstd::prelude::*;

use crate::error::Result;
use crate::models::{
    location_of, missing_models, parts_of, resolution, resolve_models, resolved_as,
    vad_model_info, whisper_model_info, LocationParts, ModelLocation,
};
use crate::whisper;

verus! {

/// The speech recognition backend and its configuration.
#[derive(Debug)]
pub enum BackendConfig {
    Whisper(whisper::Config),
}

/// The configuration of a transcriber.
#[derive(Debug)]
pub struct Config {
    pub backend: BackendConfig,
}

impl Clone for BackendConfig {
    fn clone(&self) -> (res: Self)
        ensures
            res == *self,
    {
        match self {
            BackendConfig::Whisper(cfg) => BackendConfig::Whisper(cfg.clone()),
        }
    }
}

impl Clone for Config {
    fn clone(&self) -> (res: Self)
        ensures
            res == *self,
    {
        Config { backend: self.backend.clone() }
    }
}

impl BackendConfig {
    /// The models this configuration uses, in the order they are resolved: the speech
    /// model, then the voice activity model.
    pub open spec fn model_parts(&self) -> Seq<LocationParts> {
        match self {
            BackendConfig::Whisper(cfg) => seq![
                location_of(cfg.model_dir@, whisper_model_info(cfg.model)),
                location_of(cfg.model_dir@, vad_model_info(cfg.vad)),
            ],
        }
    }

    /// Whether missing models may be downloaded when the backend starts.
    pub open spec fn auto_download(&self) -> bool {
        match self {
            BackendConfig::Whisper(cfg) => cfg.auto_download_models,
        }
    }

    /// The locations of the models this configuration uses: the speech model, then the
    /// voice activity model.
    pub fn model_locations(&self) -> (res: Vec<ModelLocation>)
        ensures
            parts_of(res@) == self.model_parts(),
    {
        match self {
            BackendConfig::Whisper(cfg) => {
                let model = cfg.model.model_info().location(cfg.model_dir.as_str());
                let vad = cfg.vad.model_info().location(cfg.model_dir.as_str());
                let mut res = Vec::new();
                res.push(model);
                res.push(vad);
                res
            },
        }
    }

    /// Decides which models to download: those of `model_locations` whose files were not
    /// found (`present[i]` tells whether the `i`-th was found; a model without an entry
    /// counts as missing). Models already in the model directory are skipped.
    pub fn download_models(&self, present: &Vec<bool>) -> (res: Vec<ModelLocation>)
        ensures
            parts_of(res@) == missing_models(self.model_parts(), present@),
    {
        let locations = self.model_locations();
        match resolve_models(&locations, present, true) {
            Ok(v) => v,
            Err(_) => Vec::new(),
        }
    }

    /// Resolves the models for starting the backend: the models to download where the
    /// configuration allows automatic downloads, otherwise an error for the first model
    /// that is missing.
    pub fn resolve_models(&self, present: &Vec<bool>) -> (res: Result<Vec<ModelLocation>>)
        ensures
            resolved_as(res, resolution(self.model_parts(), present@, self.auto_download())),
    {
        let locations = self.model_locations();
        let can_download = match self {
            BackendConfig::Whisper(cfg) => cfg.auto_download_models,
        };
        resolve_models(&locations, present, can_download)
    }
}

} // verus!
