//! The immutable configuration values that the pipeline is handed at
//! startup; reading the file and the command line is the caller's work.

use vstd::prelude::*;

use crate::llm_api::config::ApiConfig;

verus! {

/// The whole configuration: the oracle's settings and the download settings.
pub struct AppConfig {
    pub api: ApiConfig,
    pub download: DLConfig,
}

/// Download settings.
pub struct DLConfig {
    pub username: String,
    pub max_version_count: usize,
    pub base_dir: String,
}

/// What the command line may override.
pub struct CliConfig {
    pub base_dir: Option<String>,
}

/// The cap on entries retained per component.
pub fn get_ver_cnt(cfg: &DLConfig) -> (n: usize)
    ensures
        n == cfg.max_version_count,
{
    cfg.max_version_count
}

/// The per-user subdirectory name under the base download directory.
pub fn get_username<'a>(cfg: &'a DLConfig) -> (r: &'a str)
    ensures
        r@ == cfg.username@,
{
    cfg.username.as_str()
}

/// The base download directory.
pub fn get_dl_base_dir<'a>(cfg: &'a DLConfig) -> (r: &'a str)
    ensures
        r@ == cfg.base_dir@,
{
    cfg.base_dir.as_str()
}

/// Folds a command-line override into the settings read from the file: a base
/// directory given on the command line replaces the file's one.
pub fn apply_cli_override(file_cfg: DLConfig, cli: CliConfig) -> (r: DLConfig)
    ensures
        r.username@ == file_cfg.username@,
        r.max_version_count == file_cfg.max_version_count,
        match cli.base_dir {
            Some(b) => r.base_dir@ == b@,
            None => r.base_dir@ == file_cfg.base_dir@,
        },
{
    match cli.base_dir {
        Some(b) => DLConfig { base_dir: b, ..file_cfg },
        None => file_cfg,
    }
}

} // verus!
