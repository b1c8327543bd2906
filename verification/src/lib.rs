//! Scriba: local, private, multilingual speech-to-text for desktop.
//!
//! This crate holds the verified core of the transcription window: the model catalogue and
//! where models and settings are stored, the settings format, byte counts for people, and
//! the decisions the window takes as the user works with it.
use vstd::prelude::*;
use std::path::PathBuf;

pub mod config;
pub mod decimal;
pub mod models;
pub mod paths;
pub mod session;
pub mod text;
pub mod tray;

pub use config::{SavedConfig, config_json, config_path, load_config_from, parse_config};
pub use models::{ModelDef, find_model, human_bytes, is_installed, model_dir, model_path, registry};

verus! {

/// Configuration for the Scriba transcription window.
#[derive(Debug)]
pub struct ScribaConfig {
    /// RGB accent color for the UI theme. Default: (232, 89, 12).
    pub accent_color: (u8, u8, u8),
    /// Dark mode. None = follow system preference. Default: None.
    pub dark_mode: Option<bool>,
    /// Default language code (e.g. "it", "en", "auto"). Default: "auto".
    pub default_language: String,
    /// Model ID to use ("lite", "medium", "turbo"). Default: "lite".
    pub model: String,
    /// Enable speaker diarization. Default: false.
    pub diarize: bool,
    /// Application name shown in the brand strip. Default: "Scriba".
    pub app_name: String,
    /// Custom data directory for models and config. None = platform default.
    pub data_dir: Option<PathBuf>,
    /// Keep window always on top. Default: true.
    pub always_on_top: bool,
    /// UI language code (e.g. "en", "it", "fr", "de", "es", "pt"). None = detect from system. Default: None.
    pub ui_language: Option<String>,
}

impl Clone for ScribaConfig {
    fn clone(&self) -> (c: Self)
        ensures
            c.accent_color == self.accent_color,
            c.dark_mode == self.dark_mode,
            c.default_language@ == self.default_language@,
            c.model@ == self.model@,
            c.diarize == self.diarize,
            c.app_name@ == self.app_name@,
            c.data_dir == self.data_dir,
            c.always_on_top == self.always_on_top,
            c.ui_language == self.ui_language,
    {
        ScribaConfig {
            accent_color: self.accent_color,
            dark_mode: self.dark_mode,
            default_language: self.default_language.clone(),
            model: self.model.clone(),
            diarize: self.diarize,
            app_name: self.app_name.clone(),
            data_dir: match &self.data_dir {
                Some(d) => Some(clone_path(d)),
                None => None,
            },
            always_on_top: self.always_on_top,
            ui_language: match &self.ui_language {
                Some(l) => Some(l.clone()),
                None => None,
            },
        }
    }
}

/// `PathBuf::clone`: a copy of the path, equal to it.
#[verifier::external_body]
fn clone_path(p: &PathBuf) -> (r: PathBuf)
    ensures
        r == *p,
{
    p.clone()
}

impl Default for ScribaConfig {
    fn default() -> (c: Self)
        ensures
            c.accent_color == (232u8, 89u8, 12u8),
            c.dark_mode is None,
            c.default_language@ == "auto"@,
            c.model@ == "lite"@,
            !c.diarize,
            c.app_name@ == "Scriba"@,
            c.data_dir is None,
            c.always_on_top,
            c.ui_language is None,
    {
        ScribaConfig {
            accent_color: (232, 89, 12),
            dark_mode: None,
            default_language: String::from_str("auto"),
            model: String::from_str("lite"),
            diarize: false,
            app_name: String::from_str("Scriba"),
            data_dir: None,
            always_on_top: true,
            ui_language: None,
        }
    }
}

} // verus!
