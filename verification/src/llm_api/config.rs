//! Oracle settings, threaded through the pipeline as a plain value.

use vstd::prelude::*;

verus! {

/// Settings of the oracle endpoint and of every outbound request.  The
/// request temperature is a floating-point knob of the raw client and lives
/// with the client's construction, outside this library.
pub struct ApiConfig {
    pub key: String,
    pub model_id: String,
    pub api_url: String,
    pub parallel: usize,
    pub retry: usize,
    pub check_retry: u64,
    pub retry_delay: usize,
    pub time_out: usize,
}

/// The API key.
pub fn get_api_key<'a>(cfg: &'a ApiConfig) -> (r: &'a str)
    ensures
        r@ == cfg.key@,
{
    cfg.key.as_str()
}

/// The endpoint URL.
pub fn get_api_url<'a>(cfg: &'a ApiConfig) -> (r: &'a str)
    ensures
        r@ == cfg.api_url@,
{
    cfg.api_url.as_str()
}

/// The model identifier sent with every query.
pub fn get_model_id<'a>(cfg: &'a ApiConfig) -> (r: &'a str)
    ensures
        r@ == cfg.model_id@,
{
    cfg.model_id.as_str()
}

/// The parallelism limit shared by every fan-out.
pub fn get_parralel_count(cfg: &ApiConfig) -> (n: usize)
    ensures
        n == cfg.parallel,
{
    cfg.parallel
}

/// How many attempts a transport call gets.
pub fn get_api_retry(cfg: &ApiConfig) -> (n: usize)
    ensures
        n == cfg.retry,
{
    cfg.retry
}

/// The fixed delay between transport attempts, in seconds.
pub fn get_api_retry_delay(cfg: &ApiConfig) -> (n: usize)
    ensures
        n == cfg.retry_delay,
{
    cfg.retry_delay
}

/// The per-request timeout, in seconds.
pub fn get_api_timeout(cfg: &ApiConfig) -> (n: usize)
    ensures
        n == cfg.time_out,
{
    cfg.time_out
}

/// How many attempts a liveness probe gets.
pub fn get_api_check_retry(cfg: &ApiConfig) -> (n: u64)
    ensures
        n == cfg.check_retry,
{
    cfg.check_retry
}

} // verus!
