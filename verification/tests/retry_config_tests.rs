use official_download::config::{apply_cli_override, get_dl_base_dir, get_username, get_ver_cnt,
    CliConfig, DLConfig};
use official_download::llm_api::config::{get_api_check_retry, get_api_key, get_api_retry,
    get_api_retry_delay, get_api_timeout, get_api_url, get_model_id, get_parralel_count,
    ApiConfig};
use official_download::llm_api::entities::{build_query_messages, AllowedRole, ChoiceObj,
    RespBody, RespMsg};
use official_download::llm_api::search::is_search_api;
use official_download::utils::{is_absolute_url, retry_run, retry_should_attempt};

#[test]
fn an_always_failing_transport_is_attempted_exactly_max_times() {
    let outcomes = vec![false; 10];
    let (attempts, succeeded) = retry_run(3, &outcomes);
    assert_eq!(attempts, 3);
    assert!(!succeeded);
}

#[test]
fn the_first_response_stops_the_retrying() {
    let (attempts, succeeded) = retry_run(5, &vec![false, false, true, false]);
    assert_eq!(attempts, 3);
    assert!(succeeded);
    assert!(retry_should_attempt(0, 3));
    assert!(retry_should_attempt(2, 3));
    assert!(!retry_should_attempt(3, 3));
}

#[test]
fn zero_attempts_never_request() {
    let (attempts, succeeded) = retry_run(0, &vec![true]);
    assert_eq!(attempts, 0);
    assert!(!succeeded);
}

#[test]
fn absolute_urls_are_told_apart() {
    assert!(is_absolute_url("https://example.com/a"));
    assert!(!is_absolute_url("relative/path.tar.gz"));
    assert!(!is_absolute_url("/rooted/path.tar.gz"));
}

fn dl_config() -> DLConfig {
    DLConfig {
        username: "alice".to_string(),
        max_version_count: 3,
        base_dir: "/data/dl".to_string(),
    }
}

#[test]
fn download_config_getters_read_the_fields() {
    let cfg = dl_config();
    assert_eq!(get_ver_cnt(&cfg), 3);
    assert_eq!(get_username(&cfg), "alice");
    assert_eq!(get_dl_base_dir(&cfg), "/data/dl");
}

#[test]
fn the_command_line_overrides_the_base_dir() {
    let merged = apply_cli_override(dl_config(), CliConfig { base_dir: Some("/other".to_string()) });
    assert_eq!(merged.base_dir, "/other");
    assert_eq!(merged.username, "alice");
    assert_eq!(merged.max_version_count, 3);

    let kept = apply_cli_override(dl_config(), CliConfig { base_dir: None });
    assert_eq!(kept.base_dir, "/data/dl");
}

fn api_config() -> ApiConfig {
    ApiConfig {
        key: "test-key".to_string(),
        model_id: "some-model".to_string(),
        api_url: "https://oracle.example/v1/completions".to_string(),
        parallel: 4,
        retry: 3,
        check_retry: 2,
        retry_delay: 1,
        time_out: 30,
    }
}

#[test]
fn api_config_getters_read_the_fields() {
    let cfg = api_config();
    assert_eq!(get_api_key(&cfg), "test-key");
    assert_eq!(get_api_url(&cfg), "https://oracle.example/v1/completions");
    assert_eq!(get_model_id(&cfg), "some-model");
    assert_eq!(get_parralel_count(&cfg), 4);
    assert_eq!(get_api_retry(&cfg), 3);
    assert_eq!(get_api_retry_delay(&cfg), 1);
    assert_eq!(get_api_timeout(&cfg), 30);
    assert_eq!(get_api_check_retry(&cfg), 2);
}

#[test]
fn search_models_are_recognised() {
    assert!(is_search_api("some-search-model"));
    assert!(!is_search_api("plain-model"));
}

#[test]
fn a_query_becomes_one_user_message() {
    let msgs = build_query_messages("what is libfoo?");
    assert_eq!(msgs.len(), 1);
    assert!(matches!(msgs[0].role, AllowedRole::USER));
    assert_eq!(msgs[0].content, "what is libfoo?");
}

#[test]
fn the_first_choice_answers_and_an_empty_reply_is_an_error() {
    let reply = RespBody {
        id: "r1".to_string(),
        model: "m".to_string(),
        choices: vec![
            ChoiceObj {
                index: 0,
                message: RespMsg { role: "assistant".to_string(), content: "yes".to_string() },
                finish_reason: "stop".to_string(),
            },
            ChoiceObj {
                index: 1,
                message: RespMsg { role: "assistant".to_string(), content: "no".to_string() },
                finish_reason: "stop".to_string(),
            },
        ],
    };
    assert_eq!(reply.get_content().unwrap(), "yes");

    let empty = RespBody { id: "r2".to_string(), model: "m".to_string(), choices: Vec::new() };
    assert!(empty.get_content().is_err());
}
