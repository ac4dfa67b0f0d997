use ds_verify::api_key::{
    api_key_status, clear_api_key_from_config, clear_saved_api_key, decide_key_need,
    detect_key_origin, ensure_outcome, first_model_api_key_value, has_session_credential,
    input_source, is_placeholder_api_key, normalize_api_key, parse_config_toml,
    preferred_method_is_api_key, read_api_key_from_config_or_auth_json,
    read_model_api_key_from_config_only, read_top_level_api_key_from_config, redact_api_key,
    render_auth_set, render_auth_status, save_api_key, user_config_path, write_api_key_to_config,
    ApiKeyError, ApiKeyInput, ApiKeyOrigin, ApiKeyStatus, AuthMode, EnsureApiKeyOutcome,
    InputSource, KeyNeed, KeySources, StoredCredential,
};

const BASE_URL: &str = "https://api.deepseek.com/v1";

fn write(existing: &str, key: &str) -> Result<String, ApiKeyError> {
    write_api_key_to_config(existing, key, "/home/u/.ds/config.toml", BASE_URL)
}

fn no_sources() -> KeySources {
    KeySources {
        env_deepseek: None,
        env_ds: None,
        env_legacy: None,
        config: None,
        auth_json: None,
    }
}

#[test]
fn normalize_rejects_empty_and_placeholder() {
    assert!(normalize_api_key("").is_err());
    assert!(normalize_api_key("   ").is_err());
    assert!(normalize_api_key("sk-PASTE_YOUR_KEY").is_err());
    assert_eq!(normalize_api_key("  sk-abc  ").unwrap(), "sk-abc");
    assert_eq!(normalize_api_key("\"sk-abc\"").unwrap(), "sk-abc");
}

#[test]
fn redact_hides_middle() {
    let r = redact_api_key("sk-1234567890abcdef");
    assert!(r.starts_with("sk-1"));
    assert!(r.contains('…'));
    assert!(!r.contains("567890"));
}

#[test]
fn write_and_clear_config_roundtrip() {
    let existing =
        "[ui]\npermission_mode = \"always-approve\"\n\n[model.deepseek-v4-pro]\nbase_url = \"https://example.com\"\n";

    let body = write(existing, "sk-test-key-123456").unwrap();
    assert!(body.contains("permission_mode"));
    assert!(body.contains("sk-test-key-123456"));
    assert!(body.contains("deepseek-v4-flash"));
    assert!(body.contains("preferred_method"));
    assert!(body.contains("https://example.com"));

    let value = parse_config_toml(&body).expect("written config must parse");
    assert_eq!(
        value.get("api_key").and_then(|v| v.as_str()),
        Some("sk-test-key-123456")
    );
    assert_eq!(
        first_model_api_key_value(&value).as_deref(),
        Some("sk-test-key-123456")
    );

    let body2 = clear_api_key_from_config(&body).unwrap().unwrap();
    assert!(!body2.contains("sk-test-key-123456"));
    assert!(body2.contains("permission_mode"));
}

#[test]
fn parse_config_toml_reads_real_document_shape() {
    let s = r#"# comment with PASTE YOUR KEY HERE
api_key = "sk-toplevel-key"
[model.deepseek-v4-pro]
api_key = "sk-model-key"
"#;
    let v = parse_config_toml(s).expect("document parses");
    assert_eq!(
        v.get("api_key").and_then(|x| x.as_str()),
        Some("sk-toplevel-key")
    );
    assert_eq!(
        first_model_api_key_value(&v).as_deref(),
        Some("sk-model-key")
    );
}

#[test]
fn write_creates_defaults_on_empty() {
    let body = write("", "sk-newuser-key").unwrap();
    assert!(body.contains("deepseek-v4-pro"));
    assert!(body.contains("deepseek-v4-flash"));
    assert!(body.contains(BASE_URL));
    assert!(body.contains("chat_completions"));
}

#[test]
fn has_ds_api_key_env_true_after_config_write_via_reader() {
    let v: toml::Value = toml::from_str(
        r#"
            api_key = "sk-toplevel"
            [model.deepseek-v4-pro]
            api_key = "sk-model"
            "#,
    )
    .unwrap();
    assert_eq!(first_model_api_key_value(&v).as_deref(), Some("sk-model"));
    assert_eq!(
        v.get("api_key").and_then(|x| x.as_str()),
        Some("sk-toplevel")
    );
}

#[test]
fn pasted_keys_are_refused_for_a_reason() {
    assert!(matches!(normalize_api_key(" '' "), Err(ApiKeyError::Empty)));
    assert!(matches!(
        normalize_api_key("sk-a\nsk-b"),
        Err(ApiKeyError::SeveralLines)
    ));
    assert!(matches!(
        normalize_api_key("paste your key here"),
        Err(ApiKeyError::Placeholder)
    ));
    assert_eq!(ApiKeyError::Empty.message(), "empty API key provided");
    assert_eq!(
        ApiKeyError::SeveralLines.message(),
        "API key must be a single line"
    );
    assert!(ApiKeyError::Placeholder
        .message()
        .starts_with("API key still looks like a placeholder — paste the real key from https://"));
    assert!(is_placeholder_api_key("  "));
    assert!(is_placeholder_api_key("sk-..."));
    assert!(!is_placeholder_api_key("sk-abc"));
}

#[test]
fn redaction_shows_both_ends_of_a_long_key_and_nothing_of_a_short_one() {
    assert_eq!(redact_api_key("12345678"), "********");
    assert_eq!(redact_api_key(" 123456789 "), "1234…6789");
    assert_eq!(redact_api_key("äöüßé"), "********");
    assert_ne!(redact_api_key("abcdefghi"), "abcdefghi");
    assert_eq!(redact_api_key("日本語"), "********");
    assert_eq!(redact_api_key("äöüßéàèìò"), "äöüß…àèìò");
}

#[test]
fn unreadable_configuration_is_left_alone() {
    match write("= 1", "sk-k") {
        Err(ApiKeyError::InvalidConfig { message, path }) => {
            assert!(!message.is_empty());
            assert_eq!(path, "/home/u/.ds/config.toml");
        }
        other => panic!("{other:?}"),
    }
    match clear_api_key_from_config("= 1") {
        Err(error) => assert!(error.message().ends_with("); cannot clear key")),
        other => panic!("{other:?}"),
    }
}

#[test]
fn models_that_are_no_tables_are_reported() {
    assert!(matches!(
        write("model = 3\n", "sk-k"),
        Err(ApiKeyError::ModelIsNoTable)
    ));
    match write("[model]\ndeepseek-v4-pro = 3\n", "sk-k") {
        Err(ApiKeyError::ModelEntryIsNoTable { id }) => assert_eq!(id, "deepseek-v4-pro"),
        other => panic!("{other:?}"),
    }
    assert_eq!(
        ApiKeyError::ModelEntryIsNoTable { id: "m".into() }.message(),
        "[model.m] in config.toml is not a table"
    );
}

#[test]
fn saved_key_is_read_back_and_cleared_key_is_not() {
    let saved = save_api_key(
        " \"sk-real-key-1234\" ",
        "# mine\n[auth]\npreferred_method = \"oidc\"\n",
        "/c",
        BASE_URL,
    )
    .unwrap();
    assert_eq!(saved.key, "sk-real-key-1234");
    assert!(saved.config.contains("# mine"));
    assert_eq!(
        read_top_level_api_key_from_config(&saved.config).as_deref(),
        Some("sk-real-key-1234")
    );
    assert_eq!(
        read_model_api_key_from_config_only(&saved.config).as_deref(),
        Some("sk-real-key-1234")
    );
    let cleared = clear_saved_api_key(&Some(saved.config)).unwrap().unwrap();
    assert_eq!(read_top_level_api_key_from_config(&cleared), None);
    assert_eq!(read_model_api_key_from_config_only(&cleared), None);
    assert!(cleared.contains("# mine"));
    assert!(clear_saved_api_key(&None).unwrap().is_none());
    assert!(matches!(
        save_api_key("", "", "/c", BASE_URL),
        Err(ApiKeyError::Empty)
    ));
}

#[test]
fn inline_models_get_and_lose_the_key() {
    let body = write("[model]\na = { api_key = \"sk-inline-key\" }\n", "sk-new-key").unwrap();
    assert_eq!(
        read_top_level_api_key_from_config(&body).as_deref(),
        Some("sk-new-key")
    );
    assert_eq!(
        read_model_api_key_from_config_only(&body).as_deref(),
        Some("sk-new-key")
    );
    assert!(!body.contains("sk-inline-key"));
    let cleared = clear_api_key_from_config(&body).unwrap().unwrap();
    assert_eq!(read_top_level_api_key_from_config(&cleared), None);
    assert_eq!(read_model_api_key_from_config_only(&cleared), None);
    assert!(!cleared.contains("sk-new-key"));
    let inline = "models = { a = { api_key = \"sk-a-key\", base_url = \"u\" } }\n";
    let cleared = clear_api_key_from_config(inline).unwrap().unwrap();
    assert!(!cleared.contains("sk-a-key"));
    assert!(cleared.contains("base_url"));
}

#[test]
fn inline_default_models_and_inline_model_tables_are_refused() {
    match write("[model]\ndeepseek-v4-flash = { base_url = \"u\" }\n", "sk-new-key") {
        Err(ApiKeyError::ModelEntryIsNoTable { id }) => assert_eq!(id, "deepseek-v4-flash"),
        other => panic!("{other:?}"),
    }
    match write("model = { own = { base_url = \"u\" } }\n", "sk-new-key") {
        Err(ApiKeyError::ModelIsNoTable) => {}
        other => panic!("{other:?}"),
    }
}

#[test]
fn an_inline_login_table_prefers_the_saved_key() {
    let existing = "auth = { preferred_method = \"oidc\", note = \"n\" }\n";
    assert!(!preferred_method_is_api_key(&Some(existing.into())));
    let saved = save_api_key("sk-new-key", existing, "/c", BASE_URL).unwrap();
    assert!(saved.reads_back);
    assert!(saved.config.contains("note = \"n\""));
    assert!(preferred_method_is_api_key(&Some(saved.config)));
}

#[test]
fn a_configuration_that_looks_like_a_date_does_not_read_back() {
    let existing = "\"$__toml_private_datetime\" = 1\n";
    let saved = save_api_key("sk-new-key", existing, "/c", BASE_URL).unwrap();
    assert!(saved.config.contains("sk-new-key"));
    assert!(!saved.reads_back);
    assert_eq!(read_top_level_api_key_from_config(&saved.config), None);
}

#[test]
fn dotted_tables_take_a_key() {
    let existing = "auth.note = \"n\"\nmodel.own.base_url = \"https://own\"\napi_key.old = 1\n";
    let body = write(existing, "sk-new-key").unwrap();
    assert_eq!(
        read_top_level_api_key_from_config(&body).as_deref(),
        Some("sk-new-key")
    );
    assert_eq!(
        read_model_api_key_from_config_only(&body).as_deref(),
        Some("sk-new-key")
    );
    let value = parse_config_toml(&body).unwrap();
    let model = |id: &str| value["model"][id]["api_key"].as_str().map(str::to_owned);
    assert_eq!(model("own").as_deref(), Some("sk-new-key"));
    assert_eq!(model("deepseek-v4-flash").as_deref(), Some("sk-new-key"));
    assert_eq!(value["auth"]["preferred_method"].as_str(), Some("api_key"));
    assert_eq!(value["auth"]["note"].as_str(), Some("n"));
    let cleared = clear_api_key_from_config(&body).unwrap().unwrap();
    assert_eq!(read_model_api_key_from_config_only(&cleared), None);
}

#[test]
fn clearing_drops_the_key_of_every_model() {
    let text = "api_key = \"a-key\"\n[model.a]\napi_key = \"b-key\"\nx = 1\n[model.b]\napi_key = \"c-key\"\n";
    let out = clear_api_key_from_config(text).unwrap().unwrap();
    assert!(!out.contains("api_key"));
    assert!(out.contains("x = 1"));
    assert!(clear_api_key_from_config("x = 1\n").unwrap().is_some());
}

#[test]
fn model_keys_are_looked_up_in_order_of_their_names() {
    let text = "[models.z]\napi_key = \"from-models\"\n[model.b]\napi_key = \"second\"\n[model.a]\nother = 1\n";
    assert_eq!(
        read_model_api_key_from_config_only(text).as_deref(),
        Some("second")
    );
    assert_eq!(
        read_model_api_key_from_config_only("[models.z]\napi_key = \" m \"\n").as_deref(),
        Some("m")
    );
    assert_eq!(
        first_model_api_key_value(&toml::Value::String("x".into())),
        None
    );
}

#[test]
fn origin_follows_the_order_of_precedence() {
    let mut sources = no_sources();
    assert_eq!(detect_key_origin(&sources), (ApiKeyOrigin::Unset, None));
    sources.auth_json = Some(" sk-stored ".into());
    assert_eq!(
        detect_key_origin(&sources),
        (ApiKeyOrigin::AuthJson, Some("sk-stored".to_string()))
    );
    sources.config = Some("[model.m]\napi_key = \"sk-model\"".into());
    assert_eq!(
        detect_key_origin(&sources),
        (ApiKeyOrigin::ConfigModel, Some("sk-model".to_string()))
    );
    sources.config = Some("api_key = \"sk-top\"\n[model.m]\napi_key = \"sk-model\"".into());
    assert_eq!(
        detect_key_origin(&sources),
        (ApiKeyOrigin::ConfigTopLevel, Some("sk-top".to_string()))
    );
    assert_eq!(
        read_api_key_from_config_or_auth_json(&sources).as_deref(),
        Some("sk-top")
    );
    sources.env_legacy = Some("sk-legacy".into());
    assert_eq!(detect_key_origin(&sources).0, ApiKeyOrigin::EnvLegacy);
    sources.env_ds = Some("sk-ds".into());
    assert_eq!(detect_key_origin(&sources).0, ApiKeyOrigin::EnvDs);
    sources.env_deepseek = Some("  ".into());
    assert_eq!(detect_key_origin(&sources).0, ApiKeyOrigin::EnvDs);
    sources.env_deepseek = Some("sk-deep".into());
    assert_eq!(
        detect_key_origin(&sources),
        (ApiKeyOrigin::EnvDeepseek, Some("sk-deep".to_string()))
    );
}

#[test]
fn origins_have_labels() {
    assert_eq!(ApiKeyOrigin::EnvDs.as_str(), "env:DS_API_KEY");
    assert_eq!(ApiKeyOrigin::ConfigModel.as_str(), "config.toml [model.*]");
    assert!(ApiKeyOrigin::AuthJson.is_set());
    assert!(!ApiKeyOrigin::Unset.is_set());
    assert_eq!(user_config_path("/home/u/.ds"), "/home/u/.ds/config.toml");
}

#[test]
fn status_is_rendered_as_text_and_as_json() {
    let mut sources = no_sources();
    sources.env_ds = Some("sk-1234567890abcdef".into());
    let status = api_key_status(&sources, "/c \"x\"");
    assert_eq!(
        render_auth_status(&status, true),
        "{\n  \"config_path\": \"/c \\\"x\\\"\",\n  \"env_overrides\": true,\n  \"redacted\": \"sk-1…cdef\",\n  \"set\": true,\n  \"source\": \"env:DS_API_KEY\"\n}"
    );
    assert_eq!(
        render_auth_status(&status, false),
        "deepseek: set (source: env:DS_API_KEY)\nkey: sk-1…cdef\nconfig: /c \"x\"\n"
    );
    let unset = ApiKeyStatus {
        origin: ApiKeyOrigin::Unset,
        config_path: "/c".into(),
        env_overrides: false,
        redacted: None,
    };
    assert!(render_auth_status(&unset, false).starts_with("deepseek: not set\n"));
    assert!(render_auth_status(&unset, true).contains("\"redacted\": null"));
    assert_eq!(
        render_auth_set("/c", "sk-1234567890abcdef"),
        "saved API key to /c and auth.json (sk-1…cdef)"
    );
}

#[test]
fn prompt_without_a_terminal_reads_a_line() {
    assert!(matches!(
        input_source(ApiKeyInput::Prompt, true),
        InputSource::Secret
    ));
    assert!(matches!(
        input_source(ApiKeyInput::Prompt, false),
        InputSource::Line
    ));
    assert!(matches!(
        input_source(ApiKeyInput::Stdin, true),
        InputSource::Line
    ));
    match input_source(ApiKeyInput::Inline("k".into()), false) {
        InputSource::Given(key) => assert_eq!(key, "k"),
        other => panic!("{other:?}"),
    }
}

#[test]
fn session_stands_in_only_where_it_is_preferred() {
    assert!(preferred_method_is_api_key(&None));
    assert!(preferred_method_is_api_key(&Some("= bad".into())));
    assert!(preferred_method_is_api_key(&Some(
        "[auth]\npreferred_method = \"api_key\"\n".into()
    )));
    assert!(!preferred_method_is_api_key(&Some(
        "# c\n[auth]\npreferred_method = \"oidc\"\n".into()
    )));
    let session = |key: &str, auth_mode| StoredCredential {
        key: key.into(),
        auth_mode,
    };
    assert!(has_session_credential(&vec![
        session("k", AuthMode::ApiKey),
        session("t", AuthMode::Oidc)
    ]));
    assert!(!has_session_credential(&vec![
        session("k", AuthMode::ApiKey),
        session(" ", AuthMode::WebLogin)
    ]));
    assert_eq!(
        decide_key_need(false, false, true, false),
        KeyNeed::AlreadyConfigured
    );
    assert_eq!(
        decide_key_need(false, true, true, false),
        KeyNeed::MissingNonInteractive
    );
    assert_eq!(decide_key_need(false, true, true, true), KeyNeed::Ask);
    assert!(matches!(
        ensure_outcome(KeyNeed::Ask),
        EnsureApiKeyOutcome::Saved
    ));
    assert!(matches!(
        ensure_outcome(KeyNeed::AlreadyConfigured),
        EnsureApiKeyOutcome::AlreadyConfigured
    ));
    assert!(matches!(
        ensure_outcome(KeyNeed::MissingNonInteractive),
        EnsureApiKeyOutcome::MissingNonInteractive
    ));
}
