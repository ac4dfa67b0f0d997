use base64::Engine as _;

use ds_verify::chatgpt_auth::{
    accept_refreshed, append_bounded, callback_response, check_announced_length, check_token_file,
    exchange_form, extract_account_id, first_refresh_step, html_escape, judge_callback,
    locked_refresh_step, parse_request_target, parse_token_response, refresh_form,
    refresh_loop_step, request_progress, valid_account_id, valid_token, validate_stored_tokens,
    AuthorizationFlow, CallbackStep, ChatgptBearerResolver, HeldTokens, LoopStep, RawTokenResponse,
    RefreshStep, RequestProgress, TokenError, TokenStore, Tokens, CLIENT_ID, MAX_TOKEN_FILE_BYTES,
    REDIRECT_URI,
};
use ds_verify::chatgpt_catalog::{
    clean_text, humanize_effort, is_chatgpt_base_url, parse_catalog, parse_model, parse_wire_effort,
    product_efforts, RawModel, RawReasoning, ReasoningEffort, CHATGPT_BASE_URL,
};
use ds_verify::model_entries::{
    accept_catalog, attach_bearer_resolver, cache_path, cached_model_entries, catalog_headers,
    check_cache_file, client_version, describe_entries, entries_for_session, ext_method, fetch_step,
    login_message, logout_message, rejected_session, require_ds_auth, specs_to_entries,
    usable_cache, ApiBackend, CatalogError, DiskCache, ExtMethod, FetchStep, SamplerIdentity,
};

fn tokens() -> Tokens {
    Tokens {
        access: "access".into(),
        refresh: "refresh".into(),
        expires_at_ms: 1_000_000 + 60_000,
        account_id: "account".into(),
    }
}

fn jwt(claims: &str) -> String {
    let engine = base64::engine::general_purpose::URL_SAFE_NO_PAD;
    format!("{}.{}.signature", engine.encode(b"{}"), engine.encode(claims))
}

#[test]
fn token_store_round_trips_and_clears_only_current_generation() {
    let mut store = TokenStore::found("/home/u/.ds".into(), HeldTokens::Nothing);
    let first = tokens();
    store.save(&first, 100).unwrap();
    assert!(store.load().unwrap().unwrap().same(&first));

    let mut stale = first.duplicate();
    stale.access = "stale".into();
    assert!(!store.clear_if_current(&stale).unwrap());
    assert!(store.load().unwrap().unwrap().same(&first));
    assert!(store.clear());
    assert!(store.load().unwrap().is_none());
    assert!(!store.clear());
    assert!(!store.clear_if_current(&first).unwrap());

    store.save(&first, 100).unwrap();
    assert!(store.clear_if_current(&first).unwrap());
    assert!(store.load().unwrap().is_none());
    assert_eq!(store.token_path(), "/home/u/.ds/openai-codex-auth.json");
    assert_eq!(store.lock_path(), "/home/u/.ds/openai-codex-auth.lock");
}

#[test]
fn token_store_refuses_what_tokens_cannot_be() {
    let mut broken = tokens();
    broken.refresh = String::new();
    let mut store = TokenStore::found("/h".into(), HeldTokens::Tokens(broken.duplicate()));
    assert!(matches!(store.load(), Err(TokenError::InvalidFields)));
    assert!(matches!(
        store.clear_if_current(&broken),
        Err(TokenError::InvalidFields)
    ));
    assert!(matches!(
        store.save(&broken, 1),
        Err(TokenError::InvalidFields)
    ));
    assert!(matches!(
        store.save(&tokens(), MAX_TOKEN_FILE_BYTES + 1),
        Err(TokenError::FileTooLarge)
    ));
    assert!(store.clear());
    let mut unreadable = TokenStore::found("/h".into(), HeldTokens::Unreadable("parse".into()));
    assert_eq!(unreadable.load().unwrap_err().message(), "parse");
    assert_eq!(
        unreadable.clear_if_current(&tokens()).unwrap_err().message(),
        "parse"
    );
    assert!(unreadable.clear());
}

#[test]
fn account_id_is_extracted_from_the_namespaced_claim() {
    let header = base64::engine::general_purpose::URL_SAFE_NO_PAD.encode(b"{}");
    let payload = base64::engine::general_purpose::URL_SAFE_NO_PAD
        .encode(br#"{"https://api.openai.com/auth":{"chatgpt_account_id":"acct_123"}}"#);
    let token = format!("{header}.{payload}.signature");
    assert_eq!(extract_account_id(&token).as_deref(), Some("acct_123"));
    assert_eq!(extract_account_id("not-a-jwt"), None);
}

#[test]
fn authorization_flow_uses_pkce_and_the_registered_callback() {
    let flow = AuthorizationFlow::new().unwrap();
    let url = url::Url::parse(&flow.url).unwrap();
    let params = url
        .query_pairs()
        .into_owned()
        .collect::<std::collections::HashMap<_, _>>();
    assert_eq!(params.get("client_id").map(String::as_str), Some(CLIENT_ID));
    assert_eq!(
        params.get("redirect_uri").map(String::as_str),
        Some(REDIRECT_URI)
    );
    assert_eq!(
        params.get("code_challenge_method").map(String::as_str),
        Some("S256")
    );
    assert!(!flow.verifier.is_empty());
    assert_eq!(params.get("state"), Some(&flow.state));
}

#[test]
fn callback_parser_accepts_only_get_targets() {
    assert_eq!(
        parse_request_target(b"GET /auth/callback?code=x HTTP/1.1\r\n\r\n").as_deref(),
        Some("/auth/callback?code=x")
    );
    assert_eq!(
        parse_request_target(b"POST /auth/callback HTTP/1.1\r\n\r\n"),
        None
    );
}

#[test]
fn challenge_is_the_encoded_digest_of_the_verifier() {
    let flow = AuthorizationFlow::with_secrets(
        "dBjftJeZ4CVP-mB92K27uhbUJU1p1r_wW1gFWFOEjXk".into(),
        "st".into(),
    )
    .unwrap();
    assert!(flow
        .url
        .starts_with("https://auth.openai.com/oauth/authorize?response_type=code&client_id="));
    assert!(flow
        .url
        .contains("&code_challenge=E9Melhoa2OwvFrEMTJguCHaoeK1t8URWbuGJSstw-cM&"));
    assert!(flow.url.contains("&state=st&"));
    assert!(flow.url.contains("&scope=openid+profile+email+offline_access&"));
}

#[test]
fn fresh_flows_differ() {
    let a = AuthorizationFlow::new().unwrap();
    let b = AuthorizationFlow::new().unwrap();
    assert_ne!(a.state, b.state);
    assert_eq!(a.verifier.len(), 64);
    assert_eq!(a.state.len(), 32);
}

#[test]
fn account_ids_are_visible_ascii() {
    assert!(valid_account_id("acct-1"));
    assert!(!valid_account_id(""));
    assert!(!valid_account_id("a b"));
    assert!(!valid_account_id("ä"));
    assert_eq!(extract_account_id(&jwt("{\"other\":1}")), None);
    assert_eq!(extract_account_id("a.???.c"), None);
    assert_eq!(
        extract_account_id(&jwt(
            "{\"https://api.openai.com/auth\":{\"chatgpt_account_id\":\"\"}}"
        )),
        None
    );
}

fn response() -> RawTokenResponse {
    RawTokenResponse {
        access_token: Some(jwt(
            "{\"https://api.openai.com/auth\":{\"chatgpt_account_id\":\"acct\"}}",
        )),
        refresh_token: Some("r2".into()),
        expires_in: Some(60),
    }
}

fn fault(raw: RawTokenResponse, previous: Option<&Tokens>) -> String {
    parse_token_response(raw, previous, 5).unwrap_err().message()
}

#[test]
fn token_response_gives_tokens() {
    let t = parse_token_response(response(), None, 5).unwrap();
    assert_eq!(t.account_id(), "acct");
    assert_eq!(t.refresh, "r2");
    assert_eq!(t.expires_at_ms, 60_005);
    assert!(validate_stored_tokens(&t).is_ok());
}

#[test]
fn refresh_keeps_what_the_response_leaves_out() {
    let mut raw = response();
    raw.access_token = Some("opaque".into());
    raw.refresh_token = None;
    let before = tokens();
    let t = parse_token_response(raw, Some(&before), 5).unwrap();
    assert_eq!(t.access(), "opaque");
    assert_eq!(t.refresh, "refresh");
    assert_eq!(t.account_id(), "account");
}

#[test]
fn incomplete_token_responses_are_refused() {
    let mut raw = response();
    raw.access_token = None;
    assert_eq!(fault(raw, None), "ChatGPT token response omitted access_token");
    let mut raw = response();
    raw.access_token = Some("x".repeat(262_145));
    assert_eq!(fault(raw, None), "ChatGPT access_token exceeded the size limit");
    let mut raw = response();
    raw.refresh_token = None;
    assert_eq!(fault(raw, None), "ChatGPT token response omitted refresh_token");
    let mut raw = response();
    raw.refresh_token = Some(String::new());
    assert_eq!(
        fault(raw, Some(&tokens())),
        "ChatGPT token response omitted refresh_token"
    );
    let mut raw = response();
    raw.expires_in = Some(0);
    assert_eq!(
        fault(raw, None),
        "ChatGPT token response omitted a valid expires_in"
    );
    let mut raw = response();
    raw.expires_in = Some(u64::MAX);
    assert_eq!(fault(raw, None), "ChatGPT token expiry overflow");
    let mut raw = response();
    raw.access_token = Some("opaque".into());
    assert_eq!(fault(raw, None), "ChatGPT access token has no account id");
    assert!(valid_token(Some("t".into()), "f").is_ok());
}

#[test]
fn stored_tokens_are_validated() {
    let mut t = tokens();
    t.expires_at_ms = 0;
    assert_eq!(
        validate_stored_tokens(&t).unwrap_err().message(),
        "ChatGPT credential file contains invalid fields"
    );
    assert!(check_token_file(true, MAX_TOKEN_FILE_BYTES, "/t").is_ok());
    assert!(matches!(
        check_token_file(true, MAX_TOKEN_FILE_BYTES + 1, "/t"),
        Err(TokenError::FileTooLarge)
    ));
    assert_eq!(
        check_token_file(false, 0, "/t").unwrap_err().message(),
        "ChatGPT credential path is not a regular file: /t"
    );
}

#[test]
fn tokens_are_refreshed_before_they_expire() {
    let t = tokens();
    let due_at = t.expires_at_ms - 300_000;
    assert!(!t.needs_refresh(due_at - 1));
    assert!(t.needs_refresh(due_at));
    assert!(t.needs_refresh(u64::MAX));
    let held = Some(t.duplicate());
    assert_eq!(
        first_refresh_step(&held, false, due_at - 1).unwrap(),
        RefreshStep::Use
    );
    assert_eq!(
        first_refresh_step(&held, true, due_at - 1).unwrap(),
        RefreshStep::Refresh
    );
    assert!(matches!(
        first_refresh_step(&None, true, 0),
        Err(TokenError::NotSignedIn)
    ));
    let mut other = t.duplicate();
    other.refresh = "newer".into();
    assert_eq!(
        locked_refresh_step(&Some(other), &t, true, due_at).unwrap(),
        RefreshStep::Use
    );
    assert_eq!(
        locked_refresh_step(&held, &t, false, due_at).unwrap(),
        RefreshStep::Refresh
    );
    assert!(matches!(
        locked_refresh_step(&None, &t, true, 0),
        Err(TokenError::SignedOut)
    ));
    assert_eq!(refresh_loop_step(&Ok(None), 0), LoopStep::Stop);
    assert_eq!(
        refresh_loop_step(&Err(TokenError::FileTooLarge), 0),
        LoopStep::Sleep
    );
    assert_eq!(refresh_loop_step(&Ok(held), due_at), LoopStep::Refresh);
}

#[test]
fn refreshed_tokens_keep_their_account() {
    let t = tokens();
    assert!(accept_refreshed(&t, &t.duplicate()).is_ok());
    let mut other = t.duplicate();
    other.account_id = "other".into();
    assert!(matches!(
        accept_refreshed(&t, &other),
        Err(TokenError::OtherAccount)
    ));
    let mut broken = t.duplicate();
    broken.access = String::new();
    assert!(matches!(
        accept_refreshed(&t, &broken),
        Err(TokenError::InvalidFields)
    ));
}

#[test]
fn bearer_is_that_of_the_expected_account() {
    let resolver = ChatgptBearerResolver::new("account".into());
    assert_eq!(resolver.current_bearer(&Some(tokens())), "access");
    assert_eq!(resolver.current_bearer(&None), "invalidated");
    let other = ChatgptBearerResolver::new("other".into());
    assert_eq!(other.current_bearer(&Some(tokens())), "invalidated");
}

#[test]
fn forms_say_what_is_asked_for() {
    let form = exchange_form("c d", "v");
    assert_eq!(form.len(), 5);
    assert_eq!(form[0], ("grant_type".to_string(), "authorization_code".to_string()));
    assert_eq!(form[2], ("code".to_string(), "c d".to_string()));
    assert_eq!(form[3].1, "v");
    let form = refresh_form(&tokens());
    assert_eq!(form[0].1, "refresh_token");
    assert_eq!(form[2], ("refresh_token".to_string(), "refresh".to_string()));
    assert_eq!(form[3].1, "openid profile email offline_access");
}

#[test]
fn catalog_is_asked_for_on_behalf_of_the_account() {
    assert_eq!(client_version(&None), "1.0.0");
    assert_eq!(client_version(&Some("  ".into())), "1.0.0");
    assert_eq!(client_version(&Some("2.1".into())), "2.1");
    let headers = catalog_headers(&tokens());
    assert_eq!(
        headers[0],
        ("chatgpt-account-id".to_string(), "account".to_string())
    );
    assert_eq!(headers.len(), 3);
}

#[test]
fn responses_are_bounded() {
    assert!(check_announced_length(None, 3).is_ok());
    assert!(check_announced_length(Some(3), 3).is_ok());
    assert_eq!(
        check_announced_length(Some(4), 3).unwrap_err().message(),
        "ChatGPT response exceeded the 3-byte limit"
    );
    let mut body = vec![1];
    assert!(append_bounded(&mut body, &vec![2, 3], 3).is_ok());
    assert_eq!(body, vec![1, 2, 3]);
    assert!(append_bounded(&mut body, &vec![4], 3).is_err());
    assert_eq!(body, vec![1, 2, 3]);
}

#[test]
fn callback_is_judged_step_by_step() {
    let judge = |line: &str| judge_callback(&format!("{line}\r\n\r\n").into_bytes(), "st&te");
    match judge("GET /auth/callback?state=st%26te&code=a+b HTTP/1.1") {
        CallbackStep::Accept { code } => assert_eq!(code, "a b"),
        other => panic!("{other:?}"),
    }
    match judge("GET /auth/callback?state=st%26te&code=c&error=denied HTTP/1.1") {
        CallbackStep::Reject { error } => assert_eq!(error, "denied"),
        other => panic!("{other:?}"),
    }
    let answer = |line: &str| match judge(line) {
        CallbackStep::Answer { status, message } => (status, message),
        other => panic!("{other:?}"),
    };
    assert_eq!(answer("GET /other HTTP/1.1"), (404, "Not found"));
    assert_eq!(
        answer("GET /auth/callback?state=no&code=c HTTP/1.1"),
        (400, "State mismatch")
    );
    assert_eq!(
        answer("GET /auth/callback?state=st%26te&code= HTTP/1.1"),
        (400, "Missing authorization code")
    );
    assert_eq!(answer("PUT /auth/callback"), (400, "Invalid callback request"));
    assert!(matches!(judge_callback(&vec![], "s"), CallbackStep::Ignore));
    assert!(matches!(
        judge_callback(&vec![0xff], "s"),
        CallbackStep::Answer { status: 400, .. }
    ));
}

#[test]
fn request_head_is_complete_at_its_blank_line() {
    assert_eq!(
        request_progress(&b"GET / HTTP/1.1\r\n\r\n".to_vec()),
        RequestProgress::Complete
    );
    assert_eq!(request_progress(&b"GET /".to_vec()), RequestProgress::Partial);
    assert_eq!(request_progress(&vec![b'x'; 16_384]), RequestProgress::Partial);
    assert_eq!(request_progress(&vec![b'x'; 16_385]), RequestProgress::TooLong);
}

#[test]
fn answers_are_escaped() {
    assert_eq!(
        html_escape("<a href=\"x\">&'</a>"),
        "&lt;a href=&quot;x&quot;&gt;&amp;&#39;&lt;/a&gt;"
    );
    let text = callback_response(200, "<é>");
    assert!(text.starts_with("HTTP/1.1 200 OK\r\n"));
    let body = text.split("\r\n\r\n").nth(1).unwrap();
    assert!(body.ends_with("<p>&lt;é&gt;</p>"));
    assert!(text.contains(&format!("Content-Length: {}\r\n", body.len())));
    assert!(callback_response(404, "x").starts_with("HTTP/1.1 404 Bad Request\r\n"));
}

fn raw_model() -> RawModel {
    RawModel {
        slug: Some("gpt-test".into()),
        display_name: Some("GPT Test".into()),
        description: Some("Research model".into()),
        visibility: Some("list".into()),
        context_window: Some(272_000),
        default_reasoning_level: Some("high".into()),
        supported_reasoning_levels: vec![
            RawReasoning {
                effort: Some("low".into()),
                description: Some("Fast".into()),
            },
            RawReasoning {
                effort: Some("high".into()),
                description: Some("Deep".into()),
            },
            RawReasoning {
                effort: Some("ultra".into()),
                description: Some("Composite".into()),
            },
        ],
    }
}

fn session_tokens() -> Tokens {
    Tokens {
        access: "access".into(),
        refresh: "refresh".into(),
        expires_at_ms: u64::MAX,
        account_id: "acct".into(),
    }
}

#[test]
fn catalog_uses_live_context_and_supported_wire_efforts() {
    let spec = parse_model(&raw_model(), &product_efforts()).unwrap();
    assert_eq!(spec.context_window, 272_000);
    assert_eq!(spec.default_reasoning.as_deref(), Some("high"));
    assert_eq!(
        spec.reasoning
            .iter()
            .map(|option| option.effort.as_str())
            .collect::<Vec<_>>(),
        vec!["low", "high"]
    );
}

#[test]
fn unrepresentable_live_default_is_left_to_the_provider() {
    let mut raw = raw_model();
    raw.default_reasoning_level = Some("max".into());
    let spec = parse_model(&raw, &product_efforts()).unwrap();
    assert_eq!(spec.default_reasoning, None);

    let entries = specs_to_entries(&[spec], &session_tokens(), &product_efforts()).unwrap();
    let entry = entries.get("openai/gpt-test").unwrap();
    assert_eq!(entry.reasoning_effort, None);
    assert!(entry.reasoning_efforts.iter().all(|option| !option.default));
}

#[test]
fn hidden_or_contextless_models_are_not_invented() {
    let mut hidden = raw_model();
    hidden.visibility = Some("hide".into());
    assert!(parse_model(&hidden, &product_efforts()).is_none());

    let mut contextless = raw_model();
    contextless.context_window = None;
    assert!(parse_model(&contextless, &product_efforts()).is_none());
}

#[test]
fn entries_are_namespaced_and_do_not_route_through_deepseek() {
    let spec = parse_model(&raw_model(), &product_efforts()).unwrap();
    let entries = specs_to_entries(&[spec], &session_tokens(), &product_efforts()).unwrap();
    let entry = entries.get("openai/gpt-test").unwrap();
    assert_eq!(entry.model, "gpt-test");
    assert_eq!(entry.base_url, CHATGPT_BASE_URL);
    assert_eq!(entry.api_backend, ApiBackend::Responses);
    assert_eq!(entry.context_window, 272_000);
    assert_eq!(entry.reasoning_effort, Some(ReasoningEffort::High));
    assert_eq!(
        entry.extra_headers.get("chatgpt-account-id"),
        Some(&"acct".to_owned())
    );
}

#[test]
fn duplicate_slugs_keep_catalog_priority() {
    let first = raw_model();
    let mut second = raw_model();
    second.context_window = Some(128_000);
    let specs = parse_catalog(&vec![first, second], &product_efforts());
    assert_eq!(specs.len(), 1);
    assert_eq!(specs[0].context_window, 272_000);
}

fn identity(base_url: &str) -> SamplerIdentity {
    SamplerIdentity {
        base_url: base_url.into(),
        user_id: Some("deepseek-user".into()),
        deployment_id: Some("deepseek-deployment".into()),
        extra_headers: indexmap::IndexMap::new(),
        bearer_account: None,
    }
}

#[test]
fn provider_attachment_strips_deepseek_identity_and_wires_live_bearer() {
    let mut config = identity(CHATGPT_BASE_URL);
    config
        .extra_headers
        .insert("chatgpt-account-id".into(), "acct".into());
    attach_bearer_resolver(&mut config);
    assert!(config.user_id.is_none());
    assert!(config.deployment_id.is_none());
    assert_eq!(config.bearer_account.as_deref(), Some("acct"));
}

#[test]
fn deepseek_configuration_is_a_noop() {
    let mut config = identity("https://api.deepseek.com/v1");
    attach_bearer_resolver(&mut config);
    assert_eq!(config.user_id.as_deref(), Some("deepseek-user"));
    assert_eq!(config.deployment_id.as_deref(), Some("deepseek-deployment"));
    assert!(config.bearer_account.is_none());
}

#[test]
fn provider_is_recognized_with_final_slashes() {
    assert!(is_chatgpt_base_url("https://chatgpt.com/backend-api/codex//"));
    assert!(!is_chatgpt_base_url("https://chatgpt.com/backend-api"));
}

#[test]
fn efforts_have_spellings_and_labels() {
    let known = product_efforts();
    assert_eq!(parse_wire_effort(&known, "max"), Some(ReasoningEffort::Max));
    assert_eq!(parse_wire_effort(&known, "MAX"), None);
    assert_eq!(humanize_effort("high"), "High");
    assert_eq!(humanize_effort("ßx"), "SSx");
    assert_eq!(humanize_effort(""), "");
}

#[test]
fn default_effort_is_one_that_is_offered() {
    let known = product_efforts();
    let mut raw = raw_model();
    raw.default_reasoning_level = None;
    assert_eq!(
        parse_model(&raw, &known).unwrap().default_reasoning.as_deref(),
        Some("low")
    );
    raw.default_reasoning_level = Some("ultra".into());
    assert_eq!(parse_model(&raw, &known).unwrap().default_reasoning, None);
}

#[test]
fn entry_is_sent_for_the_account_of_its_tokens() {
    let known = product_efforts();
    let spec = parse_model(&raw_model(), &known).unwrap();
    let mut entries = specs_to_entries(&[spec], &session_tokens(), &known).unwrap();
    let (key, entry) = entries.shift_remove_index(0).unwrap();
    assert!(key.starts_with("openai/"));
    let mut config = identity(&entry.base_url);
    config.extra_headers = entry.extra_headers;
    attach_bearer_resolver(&mut config);
    assert_eq!(config.bearer_account.as_deref(), Some("acct"));
}

#[test]
fn texts_of_the_catalog_are_cleaned() {
    assert_eq!(clean_text("  ab ", 5).as_deref(), Some("ab"));
    assert_eq!(clean_text("abc", 2).as_deref(), Some("ab"));
    assert_eq!(clean_text("a\u{7}b", 5), None);
    assert_eq!(clean_text("  ", 5), None);
}

#[test]
fn catalog_that_cannot_be_used_is_refused() {
    let known = product_efforts();
    assert_eq!(
        accept_catalog(&vec![], &known).unwrap_err().message(),
        "the ChatGPT account returned no usable Codex models"
    );
    assert_eq!(accept_catalog(&vec![raw_model()], &known).unwrap().len(), 1);
    assert_eq!(
        CatalogError::TooManyModels.message(),
        "ChatGPT model catalog exceeded 10000 entries"
    );
}

#[test]
fn entries_are_described_by_their_first() {
    let known = product_efforts();
    let spec = parse_model(&raw_model(), &known).unwrap();
    let entries = entries_for_session(&[spec], &session_tokens(), "s-1", &known).unwrap();
    assert_eq!(
        describe_entries(&entries).as_deref(),
        Some("1 models; default openai/gpt-test (272000 tokens, high reasoning)")
    );
    let entry = &entries["openai/gpt-test"];
    assert_eq!(entry.reasoning_efforts[1].label, "High");
    assert!(entry.extra_headers.values().any(|value| value == "s-1"));
    assert_eq!(describe_entries(&indexmap::IndexMap::new()), None);
}

#[test]
fn rejected_session_is_retried_once() {
    assert_eq!(fetch_step(401, false), FetchStep::RefreshAndRetry);
    assert_eq!(fetch_step(401, true), FetchStep::ClearSession);
    assert_eq!(fetch_step(204, false), FetchStep::Read);
    assert_eq!(fetch_step(500, true), FetchStep::Fail);
    assert!(matches!(rejected_session(true), CatalogError::SessionRejected));
    assert!(matches!(rejected_session(false), CatalogError::SessionChanged));
}

#[test]
fn cache_is_used_for_its_account_only() {
    let known = product_efforts();
    let cache = |account: &str| DiskCache {
        version: 1,
        account_id: account.into(),
        models: vec![parse_model(&raw_model(), &known).unwrap()],
    };
    assert!(usable_cache(&cache("acct")));
    assert!(!usable_cache(&cache("")));
    let mut old = cache("acct");
    old.version = 2;
    assert!(!usable_cache(&old));
    let held = Some(session_tokens());
    assert_eq!(
        cached_model_entries(&held, &Some(cache("acct")), &known).len(),
        1
    );
    assert!(cached_model_entries(&held, &Some(cache("other")), &known).is_empty());
    assert!(cached_model_entries(&None, &Some(cache("acct")), &known).is_empty());
    assert!(cached_model_entries(&held, &None, &known).is_empty());
    assert_eq!(cache_path("/h"), "/h/openai-codex-models.json");
    assert!(check_cache_file(true, 1, "/c").is_ok());
    assert!(matches!(
        check_cache_file(true, 1_048_577, "/c"),
        Err(CatalogError::CacheTooLarge)
    ));
    assert_eq!(
        check_cache_file(false, 1, "/c").unwrap_err().message(),
        "ChatGPT model cache is not a regular file: /c"
    );
}

#[test]
fn model_without_a_window_is_an_error() {
    let known = product_efforts();
    let mut spec = parse_model(&raw_model(), &known).unwrap();
    spec.context_window = 0;
    assert_eq!(
        specs_to_entries(&[spec], &session_tokens(), &known)
            .unwrap_err()
            .message(),
        "ChatGPT model gpt-test has no context window"
    );
}

#[test]
fn client_methods_and_messages() {
    assert_eq!(ext_method("ds.cli/chatgpt/login"), ExtMethod::Login);
    assert_eq!(ext_method("ds.cli/chatgpt/logout"), ExtMethod::Logout);
    assert_eq!(ext_method("other"), ExtMethod::Unknown);
    assert_eq!(
        login_message("1 models"),
        "ChatGPT sign-in complete: 1 models. Open /model to select a ChatGPT model."
    );
    assert!(logout_message(true).starts_with("Signed out"));
    assert!(logout_message(false).starts_with("Not signed"));
    assert_eq!(require_ds_auth(Some(true), "m", "n"), Ok(()));
    assert_eq!(require_ds_auth(None, "m", "n"), Err("m"));
    assert_eq!(require_ds_auth(Some(false), "m", "n"), Err("n"));
}
