//! Signing in with a ChatGPT subscription: the authorization flow, the callback,
//! and the tokens that come of it.

use base64::Engine;
use vstd::prelude::*;
use vstd::string::*;
use vstd::utf8::encode_utf8;

use crate::digest::{sha256, sha256_of};
use crate::json_doc::{json_spelled, json_under, member, parse_json, text_member, text_of, Json};
use crate::paths::{join_path, path_join};
use crate::skeptic::utf8_text;
use crate::text::{
    all_hex, alnum, append, append_str, byte_len, byte_len_of, cat2, cat3, chars_of, contains,
    decimal, decimal_string, ends_with, has_char, is_alnum, is_text, lemma_contains_itself,
    lemma_lacks, lemma_replace_absent, matches_at, opt, replace, replace_from, replace_of, same_str,
    slice_of, split, split_of, starts_with, starts_with_str, string_of, words, words_of, CharClass,
};

verus! {

pub const CLIENT_ID: &'static str = "app_EMoamEEZ73f0CkXaXp7hrann";

pub const AUTHORIZE_URL: &'static str = "https://auth.openai.com/oauth/authorize";

pub const TOKEN_URL: &'static str = "https://auth.openai.com/oauth/token";

pub const REDIRECT_PORT: u16 = 1455;

pub const REDIRECT_PATH: &'static str = "/auth/callback";

pub const REDIRECT_URI: &'static str = "http://localhost:1455/auth/callback";

pub const SCOPE: &'static str = "openid profile email offline_access";

pub const JWT_AUTH_CLAIM: &'static str = "https://api.openai.com/auth";

pub const TOKEN_FILE: &'static str = "openai-codex-auth.json";

pub const TOKEN_LOCK_FILE: &'static str = "openai-codex-auth.lock";

pub const MAX_TOKEN_FILE_BYTES: u64 = 1048576;

pub const MAX_TOKEN_RESPONSE_BYTES: usize = 262144;

pub const MAX_TOKEN_BYTES: u128 = 262144;

/// How long before their end tokens are refreshed.
pub const REFRESH_SKEW_MS: u64 = 300000;

// ---------------------------------------------------------------------------
// Tokens

/// The tokens of one account.
#[derive(Debug)]
pub struct Tokens {
    pub access: String,
    pub refresh: String,
    /// Milliseconds since the epoch.
    pub expires_at_ms: u64,
    pub account_id: String,
}

/// What tokens say, as values.
pub struct TokensView {
    pub access: Seq<char>,
    pub refresh: Seq<char>,
    pub expires_at_ms: u64,
    pub account_id: Seq<char>,
}

impl View for Tokens {
    type V = TokensView;

    open spec fn view(&self) -> TokensView {
        TokensView {
            access: self.access@,
            refresh: self.refresh@,
            expires_at_ms: self.expires_at_ms,
            account_id: self.account_id@,
        }
    }
}

/// Whether tokens end within the skew.
pub open spec fn is_due(t: TokensView, now_ms: u64) -> bool {
    t.expires_at_ms <= now_ms + REFRESH_SKEW_MS
}

impl Tokens {
    pub fn access(&self) -> (r: &str)
        ensures
            r@ == self@.access,
    {
        self.access.as_str()
    }

    pub fn account_id(&self) -> (r: &str)
        ensures
            r@ == self@.account_id,
    {
        self.account_id.as_str()
    }

    pub fn needs_refresh(&self, now_ms: u64) -> (r: bool)
        ensures
            r == is_due(self@, now_ms),
    {
        if now_ms > u64::MAX - REFRESH_SKEW_MS {
            return true;
        }
        self.expires_at_ms <= now_ms + REFRESH_SKEW_MS
    }

    pub fn same(&self, other: &Tokens) -> (r: bool)
        ensures
            r == (self@ == other@),
    {
        same_str(self.access.as_str(), other.access.as_str()) && same_str(
            self.refresh.as_str(),
            other.refresh.as_str(),
        ) && self.expires_at_ms == other.expires_at_ms && same_str(
            self.account_id.as_str(),
            other.account_id.as_str(),
        )
    }

    pub fn duplicate(&self) -> (r: Tokens)
        ensures
            r@ == self@,
    {
        Tokens {
            access: self.access.clone(),
            refresh: self.refresh.clone(),
            expires_at_ms: self.expires_at_ms,
            account_id: self.account_id.clone(),
        }
    }
}

/// What is wrong with a sign-in, a refresh or a credential file.
#[derive(Debug)]
pub enum TokenError {
    /// The endpoint answered with another status than success.
    Status(String),
    /// A token is missing from the response.
    Omitted(String),
    /// A token of the response is too long.
    TooLong(String),
    NoExpiry,
    ExpiryOverflow,
    NoAccount,
    /// The credential file says something that tokens cannot be.
    InvalidFields,
    FileTooLarge,
    NotRegular(String),
    /// A response is longer than the limit.
    ResponseTooLong(usize),
    NotSignedIn,
    SignedOut,
    OtherAccount,
    /// The provider turned the sign-in down.
    Rejected(String),
    /// The credential file could not be read or parsed, for the reason given.
    Unreadable(String),
}

impl TokenError {
    pub open spec fn text(self) -> Seq<char> {
        match self {
            TokenError::Status(status) => "ChatGPT token endpoint returned HTTP "@ + status@,
            TokenError::Omitted(field) => "ChatGPT token response omitted "@ + field@,
            TokenError::TooLong(field) => "ChatGPT "@ + field@ + " exceeded the size limit"@,
            TokenError::NoExpiry => "ChatGPT token response omitted a valid expires_in"@,
            TokenError::ExpiryOverflow => "ChatGPT token expiry overflow"@,
            TokenError::NoAccount => "ChatGPT access token has no account id"@,
            TokenError::InvalidFields => "ChatGPT credential file contains invalid fields"@,
            TokenError::FileTooLarge => "ChatGPT credential file exceeded the size limit"@,
            TokenError::NotRegular(path) => "ChatGPT credential path is not a regular file: "@
                + path@,
            TokenError::ResponseTooLong(limit) => "ChatGPT response exceeded the "@ + decimal(
                limit as nat,
            ) + "-byte limit"@,
            TokenError::NotSignedIn => "not signed into ChatGPT; run `ds login --chatgpt`"@,
            TokenError::SignedOut =>
            "ChatGPT was signed out while its session was being refreshed"@,
            TokenError::OtherAccount =>
            "ChatGPT returned credentials for a different account during refresh"@,
            TokenError::Rejected(error) => "ChatGPT sign-in failed: "@ + error@,
            TokenError::Unreadable(reason) => reason@,
        }
    }

    /// The message to show.
    pub fn message(&self) -> (r: String)
        ensures
            r@ == self.text(),
    {
        match self {
            TokenError::Status(status) => cat2(
                "ChatGPT token endpoint returned HTTP ",
                status.as_str(),
            ),
            TokenError::Omitted(field) => cat2("ChatGPT token response omitted ", field.as_str()),
            TokenError::TooLong(field) => cat3(
                "ChatGPT ",
                field.as_str(),
                " exceeded the size limit",
            ),
            TokenError::NoExpiry => "ChatGPT token response omitted a valid expires_in".to_owned(),
            TokenError::ExpiryOverflow => "ChatGPT token expiry overflow".to_owned(),
            TokenError::NoAccount => "ChatGPT access token has no account id".to_owned(),
            TokenError::InvalidFields =>
            "ChatGPT credential file contains invalid fields".to_owned(),
            TokenError::FileTooLarge =>
            "ChatGPT credential file exceeded the size limit".to_owned(),
            TokenError::NotRegular(path) => cat2(
                "ChatGPT credential path is not a regular file: ",
                path.as_str(),
            ),
            TokenError::ResponseTooLong(limit) => {
                let n = decimal_string(*limit as u128);
                cat3("ChatGPT response exceeded the ", n.as_str(), "-byte limit")
            },
            TokenError::NotSignedIn =>
            "not signed into ChatGPT; run `ds login --chatgpt`".to_owned(),
            TokenError::SignedOut =>
            "ChatGPT was signed out while its session was being refreshed".to_owned(),
            TokenError::OtherAccount =>
            "ChatGPT returned credentials for a different account during refresh".to_owned(),
            TokenError::Rejected(error) => cat2("ChatGPT sign-in failed: ", error.as_str()),
            TokenError::Unreadable(reason) => reason.clone(),
        }
    }
}

// ---------------------------------------------------------------------------
// Account identities

/// `base64::engine::general_purpose::URL_SAFE_NO_PAD` decodes a text to these
/// bytes, where it can.
pub uninterp spec fn base64url_decoded(text: Seq<char>) -> Option<Seq<u8>>;

/// The text that the same engine encodes bytes to.
pub uninterp spec fn base64url_encoded(bytes: Seq<u8>) -> Seq<char>;

/// `decode` of the URL-safe base64 engine without padding: the bytes that a text
/// encodes, and nothing where it is no such encoding. Named by
/// `base64url_decoded`; the encoding is not spelled out.
#[verifier::external_body]
fn base64url_decode(text: &str) -> (r: Option<Vec<u8>>)
    ensures
        match base64url_decoded(text@) {
            Some(bytes) => r is Some && r->0@ == bytes,
            None => r is None,
        },
{
    base64::engine::general_purpose::URL_SAFE_NO_PAD.decode(text).ok()
}

/// `encode` of the URL-safe base64 engine without padding. Named by
/// `base64url_encoded`; the encoding is not spelled out.
#[verifier::external_body]
fn base64url_encode(bytes: &[u8]) -> (r: String)
    ensures
        r@ == base64url_encoded(bytes@),
{
    base64::engine::general_purpose::URL_SAFE_NO_PAD.encode(bytes)
}

/// An account identity: not empty, not too long, and of letters, digits, `-` and
/// `_` alone.
pub open spec fn is_account_id(id: Seq<char>) -> bool {
    0 < id.len() <= 256 && forall|i: int|
        0 <= i < id.len() ==> is_alnum(#[trigger] id[i]) || id[i] == '-' || id[i] == '_'
}

pub fn valid_account_id(id: &str) -> (r: bool)
    ensures
        r == is_account_id(id@),
{
    let v = chars_of(id);
    if v.len() == 0 || v.len() > 256 {
        return false;
    }
    let mut i: usize = 0;
    while i < v.len()
        invariant
            i <= v@.len(),
            v@ == id@,
            forall|k: int|
                0 <= k < i ==> is_alnum(#[trigger] v@[k]) || v@[k] == '-' || v@[k] == '_',
        decreases v@.len() - i,
    {
        if !alnum(v[i]) && v[i] != '-' && v[i] != '_' {
            return false;
        }
        i += 1;
    }
    true
}

/// The account that the payload of a token names, where it names one.
pub open spec fn account_in(payload: Option<Json>) -> Option<Seq<char>> {
    match payload {
        Some(claims) => match member(claims, JWT_AUTH_CLAIM@) {
            Some(claim) => match text_of(member(claim, "chatgpt_account_id"@)) {
                Some(id) => if is_account_id(id) {
                    Some(id)
                } else {
                    None
                },
                None => None,
            },
            None => None,
        },
        None => None,
    }
}

/// What the second part of an access token spells.
pub open spec fn token_claims(access: Seq<char>) -> Option<Json> {
    let parts = split(access, CharClass::Only('.'));
    if parts.len() < 2 {
        None
    } else {
        match base64url_decoded(parts[1]) {
            Some(bytes) => json_spelled(bytes),
            None => None,
        }
    }
}

/// The account that an access token was issued to.
pub open spec fn account_of(access: Seq<char>) -> Option<Seq<char>> {
    account_in(token_claims(access))
}

/// The account that the claims of a token name.
pub fn account_in_claims(claims: &serde_json::Value) -> (r: Option<String>)
    ensures
        opt(r) == account_in(Some(crate::json_doc::json_held(*claims))),
{
    let claim = match json_under(claims, JWT_AUTH_CLAIM) {
        Some(claim) => claim,
        None => {
            return None;
        },
    };
    match text_member(claim, "chatgpt_account_id") {
        Some(id) => {
            if valid_account_id(id.as_str()) {
                Some(id)
            } else {
                None
            }
        },
        None => None,
    }
}

pub fn extract_account_id(access_token: &str) -> (r: Option<String>)
    ensures
        opt(r) == account_of(access_token@),
{
    let v = chars_of(access_token);
    let parts = split_of(&v, CharClass::Only('.'));
    proof {
        let ps = split(access_token@, CharClass::Only('.'));
        assert(ps.len() == parts@.len());
        if ps.len() >= 2 {
            assert(ps[1] == parts@[1]@);
        }
    }
    if parts.len() < 2 {
        return None;
    }
    let payload = string_of(&parts[1]);
    let decoded = match base64url_decode(payload.as_str()) {
        Some(decoded) => decoded,
        None => {
            return None;
        },
    };
    match parse_json(decoded.as_slice()) {
        Some(claims) => account_in_claims(&claims),
        None => None,
    }
}

// ---------------------------------------------------------------------------
// The response of the token endpoint

/// The response as it is spelled.
#[derive(Debug)]
pub struct RawTokenResponse {
    pub access_token: Option<String>,
    pub refresh_token: Option<String>,
    pub expires_in: Option<u64>,
}

pub open spec fn is_absent(token: Option<Seq<char>>) -> bool {
    token is None || token->0.len() == 0
}

pub fn valid_token(value: Option<String>, field: &str) -> (r: Result<String, TokenError>)
    ensures
        is_absent(opt(value)) ==> r is Err && r->Err_0 is Omitted && r->Err_0->Omitted_0@ == field@,
        !is_absent(opt(value)) && byte_len(value->0@) > MAX_TOKEN_BYTES ==> r is Err
            && r->Err_0 is TooLong && r->Err_0->TooLong_0@ == field@,
        !is_absent(opt(value)) && byte_len(value->0@) <= MAX_TOKEN_BYTES ==> r is Ok && r->Ok_0@
            == value->0@,
{
    let token = match value {
        Some(token) => token,
        None => {
            return Err(TokenError::Omitted(field.to_owned()));
        },
    };
    if token.as_str().is_empty() {
        return Err(TokenError::Omitted(field.to_owned()));
    }
    if byte_len_of(&chars_of(token.as_str())) > MAX_TOKEN_BYTES {
        return Err(TokenError::TooLong(field.to_owned()));
    }
    Ok(token)
}

/// What keeps a response from being taken; its text where something does.
/// `previous` are the tokens that it refreshes.
pub open spec fn response_fault(
    raw: RawTokenResponse,
    previous: Option<TokensView>,
    now_ms: u64,
) -> Option<Seq<char>> {
    let access = opt(raw.access_token);
    let refresh = opt(raw.refresh_token);
    if is_absent(access) {
        Some("ChatGPT token response omitted access_token"@)
    } else if byte_len(access->0) > MAX_TOKEN_BYTES {
        Some("ChatGPT access_token exceeded the size limit"@)
    } else if refresh is Some && refresh->0.len() == 0 {
        Some("ChatGPT token response omitted refresh_token"@)
    } else if refresh is Some && byte_len(refresh->0) > MAX_TOKEN_BYTES {
        Some("ChatGPT refresh_token exceeded the size limit"@)
    } else if refresh is None && previous is None {
        Some("ChatGPT token response omitted refresh_token"@)
    } else if raw.expires_in is None || raw.expires_in->0 == 0 {
        Some("ChatGPT token response omitted a valid expires_in"@)
    } else if now_ms + raw.expires_in->0 * 1000 > u64::MAX {
        Some("ChatGPT token expiry overflow"@)
    } else if account_of(access->0) is None && previous is None {
        Some("ChatGPT access token has no account id"@)
    } else {
        None
    }
}

/// The tokens that a response gives. What it leaves out stays as it was.
pub open spec fn response_tokens(
    raw: RawTokenResponse,
    previous: Option<TokensView>,
    now_ms: u64,
) -> TokensView {
    let access = raw.access_token->0@;
    TokensView {
        access,
        refresh: match raw.refresh_token {
            Some(token) => token@,
            None => previous->0.refresh,
        },
        expires_at_ms: (now_ms + raw.expires_in->0 * 1000) as u64,
        account_id: match account_of(access) {
            Some(id) => id,
            None => previous->0.account_id,
        },
    }
}

proof fn lemma_token_messages()
    ensures
        "ChatGPT token response omitted "@ + "access_token"@
            == "ChatGPT token response omitted access_token"@,
        "ChatGPT token response omitted "@ + "refresh_token"@
            == "ChatGPT token response omitted refresh_token"@,
        "ChatGPT "@ + "access_token"@ + " exceeded the size limit"@
            == "ChatGPT access_token exceeded the size limit"@,
        "ChatGPT "@ + "refresh_token"@ + " exceeded the size limit"@
            == "ChatGPT refresh_token exceeded the size limit"@,
{
    reveal_strlit("ChatGPT token response omitted ");
    reveal_strlit("access_token");
    reveal_strlit("ChatGPT token response omitted access_token");
    reveal_strlit("refresh_token");
    reveal_strlit("ChatGPT token response omitted refresh_token");
    reveal_strlit("ChatGPT ");
    reveal_strlit(" exceeded the size limit");
    reveal_strlit("ChatGPT access_token exceeded the size limit");
    reveal_strlit("ChatGPT refresh_token exceeded the size limit");
    assert("ChatGPT token response omitted "@ + "access_token"@
        =~= "ChatGPT token response omitted access_token"@);
    assert("ChatGPT token response omitted "@ + "refresh_token"@
        =~= "ChatGPT token response omitted refresh_token"@);
    assert("ChatGPT "@ + "access_token"@ + " exceeded the size limit"@
        =~= "ChatGPT access_token exceeded the size limit"@);
    assert("ChatGPT "@ + "refresh_token"@ + " exceeded the size limit"@
        =~= "ChatGPT refresh_token exceeded the size limit"@);
}

/// Takes the body of a successful response. `now_ms` is the time at which it
/// came.
pub fn parse_token_response(raw: RawTokenResponse, previous: Option<&Tokens>, now_ms: u64) -> (r:
    Result<Tokens, TokenError>)
    ensures
        ({
            let before = match previous {
                Some(t) => Some(t@),
                None => None,
            };
            match response_fault(raw, before, now_ms) {
                Some(fault) => r is Err && r->Err_0.text() == fault,
                None => r is Ok && r->Ok_0@ == response_tokens(raw, before, now_ms),
            }
        }),
{
    proof {
        lemma_token_messages();
    }
    let access = match valid_token(raw.access_token, "access_token") {
        Ok(access) => access,
        Err(error) => {
            return Err(error);
        },
    };
    let refresh = match raw.refresh_token {
        Some(value) => {
            match valid_token(Some(value), "refresh_token") {
                Ok(refresh) => refresh,
                Err(error) => {
                    return Err(error);
                },
            }
        },
        None => {
            match previous {
                Some(tokens) => tokens.refresh.clone(),
                None => {
                    return Err(TokenError::Omitted("refresh_token".to_owned()));
                },
            }
        },
    };
    let seconds: u64 = match raw.expires_in {
        Some(seconds) => seconds,
        None => {
            return Err(TokenError::NoExpiry);
        },
    };
    if seconds == 0 {
        return Err(TokenError::NoExpiry);
    }
    if seconds > u64::MAX / 1000 || seconds * 1000 > u64::MAX - now_ms {
        return Err(TokenError::ExpiryOverflow);
    }
    let expires_at_ms: u64 = now_ms + seconds * 1000;
    let account_id = match extract_account_id(access.as_str()) {
        Some(id) => id,
        None => {
            match previous {
                Some(tokens) => tokens.account_id.clone(),
                None => {
                    return Err(TokenError::NoAccount);
                },
            }
        },
    };
    Ok(Tokens { access, refresh, expires_at_ms, account_id })
}

// ---------------------------------------------------------------------------
// Stored tokens

/// Tokens that may be stored, and that a stored file may say.
pub open spec fn is_storable(t: TokensView) -> bool {
    t.access.len() > 0 && t.refresh.len() > 0 && byte_len(t.access) <= MAX_TOKEN_BYTES && byte_len(
        t.refresh,
    ) <= MAX_TOKEN_BYTES && is_account_id(t.account_id) && t.expires_at_ms != 0
}

pub fn validate_stored_tokens(tokens: &Tokens) -> (r: Result<(), TokenError>)
    ensures
        r is Ok <==> is_storable(tokens@),
        r is Err ==> r->Err_0 is InvalidFields,
{
    if tokens.access.as_str().is_empty() || tokens.refresh.as_str().is_empty() || byte_len_of(
        &chars_of(tokens.access.as_str()),
    ) > MAX_TOKEN_BYTES || byte_len_of(&chars_of(tokens.refresh.as_str())) > MAX_TOKEN_BYTES
        || !valid_account_id(tokens.account_id.as_str()) || tokens.expires_at_ms == 0 {
        return Err(TokenError::InvalidFields);
    }
    Ok(())
}

/// Whether a credential file may be read: a regular file within the limit.
pub fn check_token_file(is_regular: bool, len: u64, path: &str) -> (r: Result<(), TokenError>)
    ensures
        r is Ok <==> is_regular && len <= MAX_TOKEN_FILE_BYTES,
        !is_regular ==> r is Err && r->Err_0 is NotRegular && r->Err_0->NotRegular_0@ == path@,
        is_regular && len > MAX_TOKEN_FILE_BYTES ==> r is Err && r->Err_0 is FileTooLarge,
{
    if !is_regular {
        return Err(TokenError::NotRegular(path.to_owned()));
    }
    if len > MAX_TOKEN_FILE_BYTES {
        return Err(TokenError::FileTooLarge);
    }
    Ok(())
}

/// What stands in the token file.
#[derive(Debug)]
pub enum HeldTokens {
    Nothing,
    Tokens(Tokens),
    /// Something that could not be read or parsed, for the reason given.
    Unreadable(String),
}

#[verifier::ext_equal]
pub enum HeldView {
    Nothing,
    Tokens(TokensView),
    Unreadable(Seq<char>),
}

impl View for HeldTokens {
    type V = HeldView;

    open spec fn view(&self) -> HeldView {
        match *self {
            HeldTokens::Nothing => HeldView::Nothing,
            HeldTokens::Tokens(tokens) => HeldView::Tokens(tokens@),
            HeldTokens::Unreadable(reason) => HeldView::Unreadable(reason@),
        }
    }
}

impl HeldView {
    /// The tokens, where the file holds tokens that may be stored.
    pub open spec fn loaded(self) -> Option<TokensView> {
        match self {
            HeldView::Tokens(tokens) => if is_storable(tokens) {
                Some(tokens)
            } else {
                None
            },
            _ => None,
        }
    }

    /// Whether the file is there and nothing can be loaded from it.
    pub open spec fn is_broken(self) -> bool {
        !(self is Nothing) && self.loaded() is None
    }

    /// What the file holds after the tokens of one generation were cleared: a
    /// later generation is left alone.
    pub open spec fn without(self, expected: TokensView) -> HeldView {
        if self.loaded() == Some(expected) {
            HeldView::Nothing
        } else {
            self
        }
    }
}

/// The token store: where its files stand, and what it holds.
#[derive(Debug)]
pub struct TokenStore {
    home: String,
    held: HeldTokens,
}

#[verifier::ext_equal]
pub struct StoreView {
    pub home: Seq<char>,
    pub held: HeldView,
}

impl View for TokenStore {
    type V = StoreView;

    closed spec fn view(&self) -> StoreView {
        StoreView { home: self.home@, held: self.held@ }
    }
}

impl TokenStore {
    pub fn found(home: String, held: HeldTokens) -> (r: TokenStore)
        ensures
            r@ == (StoreView { home: home@, held: held@ }),
    {
        TokenStore { home, held }
    }

    pub fn token_path(&self) -> (r: String)
        ensures
            r@ == join_path(self@.home, TOKEN_FILE@),
    {
        path_join(self.home.as_str(), TOKEN_FILE)
    }

    pub fn lock_path(&self) -> (r: String)
        ensures
            r@ == join_path(self@.home, TOKEN_LOCK_FILE@),
    {
        path_join(self.home.as_str(), TOKEN_LOCK_FILE)
    }

    /// The stored tokens; none where there is no file.
    pub fn load(&self) -> (r: Result<Option<Tokens>, TokenError>)
        ensures
            match self@.held {
                HeldView::Nothing => r is Ok && r->Ok_0 is None,
                HeldView::Tokens(tokens) => if is_storable(tokens) {
                    r is Ok && r->Ok_0 is Some && r->Ok_0->0@ == tokens
                } else {
                    r is Err && r->Err_0 is InvalidFields
                },
                HeldView::Unreadable(reason) => r is Err && r->Err_0 is Unreadable
                    && r->Err_0->Unreadable_0@ == reason,
            },
    {
        match &self.held {
            HeldTokens::Nothing => Ok(None),
            HeldTokens::Tokens(tokens) => {
                match validate_stored_tokens(tokens) {
                    Ok(()) => Ok(Some(tokens.duplicate())),
                    Err(error) => Err(error),
                }
            },
            HeldTokens::Unreadable(reason) => Err(TokenError::Unreadable(reason.clone())),
        }
    }

    /// Replaces what is stored. `body_len` is the length of the tokens as they
    /// are written.
    pub fn save(&mut self, tokens: &Tokens, body_len: u64) -> (r: Result<(), TokenError>)
        ensures
            !is_storable(tokens@) ==> r is Err && r->Err_0 is InvalidFields && final(self)@ == old(
                self,
            )@,
            is_storable(tokens@) && body_len > MAX_TOKEN_FILE_BYTES ==> r is Err
                && r->Err_0 is FileTooLarge && final(self)@ == old(self)@,
            is_storable(tokens@) && body_len <= MAX_TOKEN_FILE_BYTES ==> r is Ok && final(self)@
                == (StoreView { held: HeldView::Tokens(tokens@), ..old(self)@ }),
    {
        if let Err(error) = validate_stored_tokens(tokens) {
            return Err(error);
        }
        if body_len > MAX_TOKEN_FILE_BYTES {
            return Err(TokenError::FileTooLarge);
        }
        self.held = HeldTokens::Tokens(tokens.duplicate());
        Ok(())
    }

    /// Removes what is stored, whatever it is; whether there was anything.
    pub fn clear(&mut self) -> (r: bool)
        ensures
            r == !(old(self)@.held is Nothing),
            final(self)@ == (StoreView { held: HeldView::Nothing, ..old(self)@ }),
    {
        let there = match &self.held {
            HeldTokens::Nothing => false,
            _ => true,
        };
        self.held = HeldTokens::Nothing;
        there
    }

    /// Removes the stored tokens where they are those that are expected; whether
    /// they were.
    pub fn clear_if_current(&mut self, expected: &Tokens) -> (r: Result<bool, TokenError>)
        ensures
            r is Err <==> old(self)@.held.is_broken(),
            old(self)@.held is Unreadable ==> r->Err_0 is Unreadable && r->Err_0->Unreadable_0@
                == old(self)@.held->Unreadable_0,
            r is Err && old(self)@.held is Tokens ==> r->Err_0 is InvalidFields,
            r is Ok ==> r->Ok_0 == (old(self)@.held.loaded() == Some(expected@)),
            final(self)@ == (StoreView { held: old(self)@.held.without(expected@), ..old(self)@ }),
    {
        match self.load() {
            Err(error) => Err(error),
            Ok(None) => Ok(false),
            Ok(Some(tokens)) => {
                if tokens.same(expected) {
                    Ok(self.clear())
                } else {
                    Ok(false)
                }
            },
        }
    }
}

/// What was saved is loaded, until it is cleared; a clear meant for another
/// generation leaves it alone, and one meant for it leaves nothing.
pub proof fn law_saved_tokens_are_loaded_until_they_are_cleared(
    saved: TokensView,
    expected: TokensView,
)
    requires
        is_storable(saved),
    ensures
        HeldView::Tokens(saved).loaded() == Some(saved),
        expected != saved ==> HeldView::Tokens(saved).without(expected).loaded() == Some(saved),
        expected == saved ==> HeldView::Tokens(saved).without(expected) == HeldView::Nothing,
        HeldView::Nothing.loaded() is None,
        HeldView::Nothing.without(expected) == HeldView::Nothing,
{
}

/// The bearer that requests of an account carry.
#[derive(Debug)]
pub struct ChatgptBearerResolver {
    pub expected_account_id: String,
}

impl ChatgptBearerResolver {
    pub fn new(expected_account_id: String) -> (r: ChatgptBearerResolver)
        ensures
            r.expected_account_id@ == expected_account_id@,
    {
        ChatgptBearerResolver { expected_account_id }
    }

    /// The access token while the stored tokens are those of the account. After
    /// a sign-out or a change of account a word that is no secret: an earlier
    /// token is never fallen back to.
    pub fn current_bearer(&self, stored: &Option<Tokens>) -> (r: String)
        ensures
            r@ == (match *stored {
                Some(tokens) => if tokens.account_id@ == self.expected_account_id@ {
                    tokens.access@
                } else {
                    "invalidated"@
                },
                None => "invalidated"@,
            }),
    {
        match stored {
            Some(tokens) => {
                if same_str(tokens.account_id.as_str(), self.expected_account_id.as_str()) {
                    tokens.access.clone()
                } else {
                    "invalidated".to_owned()
                }
            },
            None => "invalidated".to_owned(),
        }
    }
}

// ---------------------------------------------------------------------------
// Refreshing

/// How to go on with the tokens that were loaded.
#[derive(Clone, Copy, Debug, PartialEq, Eq, Structural)]
pub enum RefreshStep {
    /// Use them as they are.
    Use,
    /// Spend the refresh token.
    Refresh,
}

/// Whether loaded tokens have to be refreshed at all.
pub fn first_refresh_step(snapshot: &Option<Tokens>, force: bool, now_ms: u64) -> (r: Result<
    RefreshStep,
    TokenError,
>)
    ensures
        snapshot is None ==> r is Err && r->Err_0 is NotSignedIn,
        snapshot is Some ==> r == Ok::<RefreshStep, TokenError>(
            if force || is_due(snapshot->0@, now_ms) {
                RefreshStep::Refresh
            } else {
                RefreshStep::Use
            },
        ),
{
    match snapshot {
        None => Err(TokenError::NotSignedIn),
        Some(tokens) => {
            if force || tokens.needs_refresh(now_ms) {
                Ok(RefreshStep::Refresh)
            } else {
                Ok(RefreshStep::Use)
            }
        },
    }
}

/// What to do once the lock is held and the tokens were loaded again: tokens
/// that another process replaced in the meantime are used, not refreshed.
pub fn locked_refresh_step(
    current: &Option<Tokens>,
    snapshot: &Tokens,
    force: bool,
    now_ms: u64,
) -> (r: Result<RefreshStep, TokenError>)
    ensures
        current is None ==> r is Err && r->Err_0 is SignedOut,
        current is Some ==> r == Ok::<RefreshStep, TokenError>(
            if current->0@ == snapshot@ && (force || is_due(current->0@, now_ms)) {
                RefreshStep::Refresh
            } else {
                RefreshStep::Use
            },
        ),
{
    match current {
        None => Err(TokenError::SignedOut),
        Some(tokens) => {
            if tokens.same(snapshot) && (force || tokens.needs_refresh(now_ms)) {
                Ok(RefreshStep::Refresh)
            } else {
                Ok(RefreshStep::Use)
            }
        },
    }
}

/// Accepts refreshed tokens only for the account that they refresh.
pub fn accept_refreshed(current: &Tokens, refreshed: &Tokens) -> (r: Result<(), TokenError>)
    ensures
        refreshed@.account_id != current@.account_id ==> r is Err && r->Err_0 is OtherAccount,
        refreshed@.account_id == current@.account_id && !is_storable(refreshed@) ==> r is Err
            && r->Err_0 is InvalidFields,
        refreshed@.account_id == current@.account_id && is_storable(refreshed@) ==> r is Ok,
{
    if !same_str(refreshed.account_id.as_str(), current.account_id.as_str()) {
        return Err(TokenError::OtherAccount);
    }
    validate_stored_tokens(refreshed)
}

/// What the background loop does next.
#[derive(Clone, Copy, Debug, PartialEq, Eq, Structural)]
pub enum LoopStep {
    Stop,
    Refresh,
    Sleep,
}

/// The loop ends once nobody is signed in; while the tokens cannot be read it
/// waits.
pub fn refresh_loop_step(loaded: &Result<Option<Tokens>, TokenError>, now_ms: u64) -> (r: LoopStep)
    ensures
        r == (match *loaded {
            Ok(Some(tokens)) => if is_due(tokens@, now_ms) {
                LoopStep::Refresh
            } else {
                LoopStep::Sleep
            },
            Ok(None) => LoopStep::Stop,
            Err(_) => LoopStep::Sleep,
        }),
{
    match loaded {
        Ok(Some(tokens)) => {
            if tokens.needs_refresh(now_ms) {
                LoopStep::Refresh
            } else {
                LoopStep::Sleep
            }
        },
        Ok(None) => LoopStep::Stop,
        Err(_) => LoopStep::Sleep,
    }
}

/// Tokens that a response gives can be stored wherever those that it refreshes
/// could, and it names no account that is not one.
pub proof fn law_response_tokens_can_be_stored(
    raw: RawTokenResponse,
    previous: Option<TokensView>,
    now_ms: u64,
)
    requires
        response_fault(raw, previous, now_ms) is None,
        previous is Some ==> is_storable(previous->0),
    ensures
        is_storable(response_tokens(raw, previous, now_ms)),
        response_tokens(raw, previous, now_ms).expires_at_ms > now_ms,
{
    assert(raw.expires_in->0 * 1000 >= 1000) by (nonlinear_arith)
        requires
            raw.expires_in->0 > 0,
    ;
}

/// A response that names no account keeps the account of the tokens that it
/// refreshes.
pub proof fn law_refresh_keeps_an_unnamed_account(
    raw: RawTokenResponse,
    previous: TokensView,
    now_ms: u64,
)
    requires
        response_fault(raw, Some(previous), now_ms) is None,
        account_of(raw.access_token->0@) is None,
    ensures
        response_tokens(raw, Some(previous), now_ms).account_id == previous.account_id,
{
}

// ---------------------------------------------------------------------------
// Bounded responses

/// Whether a response that announces its length may be read at all.
pub fn check_announced_length(announced: Option<u64>, limit: usize) -> (r: Result<(), TokenError>)
    ensures
        r is Err <==> announced is Some && announced->0 > limit,
        r is Err ==> r->Err_0 is ResponseTooLong && r->Err_0->ResponseTooLong_0 == limit,
{
    match announced {
        Some(length) => {
            if length > limit as u64 {
                Err(TokenError::ResponseTooLong(limit))
            } else {
                Ok(())
            }
        },
        None => Ok(()),
    }
}

/// Adds a chunk to a body unless it would grow beyond the limit.
pub fn append_bounded(body: &mut Vec<u8>, chunk: &Vec<u8>, limit: usize) -> (r: Result<
    (),
    TokenError,
>)
    ensures
        r is Err <==> old(body)@.len() + chunk@.len() > limit,
        r is Err ==> r->Err_0 is ResponseTooLong && r->Err_0->ResponseTooLong_0 == limit
            && final(body)@ == old(body)@,
        r is Ok ==> final(body)@ == old(body)@ + chunk@,
{
    if chunk.len() > limit || body.len() > limit - chunk.len() {
        return Err(TokenError::ResponseTooLong(limit));
    }
    let mut i: usize = 0;
    proof {
        assert(old(body)@ + chunk@.take(0) =~= old(body)@);
    }
    while i < chunk.len()
        invariant
            i <= chunk@.len(),
            body@ == old(body)@ + chunk@.take(i as int),
        decreases chunk@.len() - i,
    {
        body.push(chunk[i]);
        proof {
            assert((old(body)@ + chunk@.take(i as int)).push(chunk@[i as int]) =~= old(body)@
                + chunk@.take(i + 1));
        }
        i += 1;
    }
    proof {
        assert(chunk@.take(chunk@.len() as int) =~= chunk@);
    }
    Ok(())
}

// ---------------------------------------------------------------------------
// The authorization request

/// The URL that `url::Url` makes of a base and parameters.
pub uninterp spec fn url_with_params(base: Seq<char>, params: Seq<(Seq<char>, Seq<char>)>) -> Option<
    Seq<char>,
>;

pub open spec fn pairs(v: Seq<(String, String)>) -> Seq<(Seq<char>, Seq<char>)> {
    Seq::new(v.len(), |i: int| (v[i].0@, v[i].1@))
}

/// `url::Url::parse_with_params`: the URL with the parameters appended to its
/// query, form-encoded; nothing where the base is no URL, whatever the
/// parameters are. Named by `url_with_params`; the encoding is not spelled out.
#[verifier::external_body]
fn build_url(base: &str, params: &Vec<(String, String)>) -> (r: Option<String>)
    ensures
        opt(r) == url_with_params(base@, pairs(params@)),
        r is Some <==> url_spelled(base@) is Some,
{
    url::Url::parse_with_params(base, params.iter()).ok().map(|url| url.to_string())
}

/// `uuid::Uuid::new_v4` in its simple form: 32 hexadecimal digits, drawn at
/// random.
#[verifier::external_body]
fn random_digits() -> (r: String)
    ensures
        r@.len() == 32,
        all_hex(r@),
{
    uuid::Uuid::new_v4().simple().to_string()
}

/// The challenge that proves, later, who knows the verifier.
pub open spec fn code_challenge(verifier: Seq<char>) -> Seq<char> {
    base64url_encoded(sha256_of(encode_utf8(verifier)))
}

/// The parameters of the authorization request.
pub open spec fn authorization_params(challenge: Seq<char>, state: Seq<char>) -> Seq<
    (Seq<char>, Seq<char>),
> {
    seq![
        ("response_type"@, "code"@),
        ("client_id"@, CLIENT_ID@),
        ("redirect_uri"@, REDIRECT_URI@),
        ("scope"@, SCOPE@),
        ("code_challenge"@, challenge),
        ("code_challenge_method"@, "S256"@),
        ("state"@, state),
        ("id_token_add_organizations"@, "true"@),
        ("codex_cli_simplified_flow"@, "true"@),
        ("originator"@, "codex_cli_rs"@),
    ]
}

/// One sign-in: where the browser goes, and what only this process knows.
#[derive(Debug)]
pub struct AuthorizationFlow {
    pub url: String,
    pub verifier: String,
    pub state: String,
}

pub(crate) fn pair(name: &str, value: &str) -> (r: (String, String))
    ensures
        r.0@ == name@,
        r.1@ == value@,
{
    (name.to_owned(), value.to_owned())
}

impl AuthorizationFlow {
    /// The flow with a given verifier and state.
    pub fn with_secrets(verifier: String, state: String) -> (r: Option<AuthorizationFlow>)
        ensures
            match url_with_params(
                AUTHORIZE_URL@,
                authorization_params(code_challenge(verifier@), state@),
            ) {
                Some(url) => r is Some && r->0.url@ == url && r->0.verifier@ == verifier@
                    && r->0.state@ == state@,
                None => r is None,
            },
            r is Some <==> url_spelled(AUTHORIZE_URL@) is Some,
    {
        let digest = sha256(verifier.as_str().as_bytes());
        let challenge = base64url_encode(digest.as_slice());
        let mut params: Vec<(String, String)> = Vec::new();
        params.push(pair("response_type", "code"));
        params.push(pair("client_id", CLIENT_ID));
        params.push(pair("redirect_uri", REDIRECT_URI));
        params.push(pair("scope", SCOPE));
        params.push(pair("code_challenge", challenge.as_str()));
        params.push(pair("code_challenge_method", "S256"));
        params.push(pair("state", state.as_str()));
        params.push(pair("id_token_add_organizations", "true"));
        params.push(pair("codex_cli_simplified_flow", "true"));
        params.push(pair("originator", "codex_cli_rs"));
        proof {
            assert(pairs(params@) =~= authorization_params(code_challenge(verifier@), state@));
        }
        match build_url(AUTHORIZE_URL, &params) {
            Some(url) => Some(AuthorizationFlow { url, verifier, state }),
            None => None,
        }
    }

    /// A flow with a fresh verifier and a fresh state.
    pub fn new() -> (r: Option<AuthorizationFlow>)
        ensures
            r is Some <==> url_spelled(AUTHORIZE_URL@) is Some,
            r is Some ==> {
                &&& r->0.verifier@.len() == 64
                &&& all_hex(r->0.verifier@)
                &&& r->0.state@.len() == 32
                &&& all_hex(r->0.state@)
                &&& url_with_params(
                    AUTHORIZE_URL@,
                    authorization_params(code_challenge(r->0.verifier@), r->0.state@),
                ) == Some(r->0.url@)
            },
    {
        let first = random_digits();
        let second = random_digits();
        let verifier = cat2(first.as_str(), second.as_str());
        let state = random_digits();
        AuthorizationFlow::with_secrets(verifier, state)
    }
}

/// What the token endpoint is asked with for the code of a sign-in.
pub fn exchange_form(code: &str, verifier: &str) -> (r: Vec<(String, String)>)
    ensures
        pairs(r@) == seq![
            ("grant_type"@, "authorization_code"@),
            ("client_id"@, CLIENT_ID@),
            ("code"@, code@),
            ("code_verifier"@, verifier@),
            ("redirect_uri"@, REDIRECT_URI@),
        ],
{
    let mut form: Vec<(String, String)> = Vec::new();
    form.push(pair("grant_type", "authorization_code"));
    form.push(pair("client_id", CLIENT_ID));
    form.push(pair("code", code));
    form.push(pair("code_verifier", verifier));
    form.push(pair("redirect_uri", REDIRECT_URI));
    proof {
        assert(pairs(form@) =~= seq![
            ("grant_type"@, "authorization_code"@),
            ("client_id"@, CLIENT_ID@),
            ("code"@, code@),
            ("code_verifier"@, verifier@),
            ("redirect_uri"@, REDIRECT_URI@),
        ]);
    }
    form
}

/// What the token endpoint is asked with to refresh tokens.
pub fn refresh_form(current: &Tokens) -> (r: Vec<(String, String)>)
    ensures
        pairs(r@) == seq![
            ("grant_type"@, "refresh_token"@),
            ("client_id"@, CLIENT_ID@),
            ("refresh_token"@, current@.refresh),
            ("scope"@, SCOPE@),
        ],
{
    let mut form: Vec<(String, String)> = Vec::new();
    form.push(pair("grant_type", "refresh_token"));
    form.push(pair("client_id", CLIENT_ID));
    form.push(pair("refresh_token", current.refresh.as_str()));
    form.push(pair("scope", SCOPE));
    proof {
        assert(pairs(form@) =~= seq![
            ("grant_type"@, "refresh_token"@),
            ("client_id"@, CLIENT_ID@),
            ("refresh_token"@, current@.refresh),
            ("scope"@, SCOPE@),
        ]);
    }
    form
}

// ---------------------------------------------------------------------------
// The callback

/// How far a request has been read.
#[derive(Clone, Copy, Debug, PartialEq, Eq, Structural)]
pub enum RequestProgress {
    /// The head is complete.
    Complete,
    /// There is more to read.
    Partial,
    /// It is longer than a callback can be.
    TooLong,
}

/// Whether the blank line that ends the head of a request stands at `i`.
pub open spec fn head_ends_at(request: Seq<u8>, i: int) -> bool {
    0 <= i && i + 4 <= request.len() && request[i] == 13 && request[i + 1] == 10 && request[i + 2]
        == 13 && request[i + 3] == 10
}

pub open spec fn progress(request: Seq<u8>) -> RequestProgress {
    if exists|i: int| head_ends_at(request, i) {
        RequestProgress::Complete
    } else if request.len() > 16384 {
        RequestProgress::TooLong
    } else {
        RequestProgress::Partial
    }
}

pub fn request_progress(request: &Vec<u8>) -> (r: RequestProgress)
    ensures
        r == progress(request@),
{
    let n: usize = request.len();
    let mut i: usize = 0;
    while i < n
        invariant
            i <= n,
            n == request@.len(),
            forall|k: int| 0 <= k < i ==> !head_ends_at(request@, k),
        decreases n - i,
    {
        if n - i >= 4 && request[i] == 13 && request[i + 1] == 10 && request[i + 2] == 13
            && request[i + 3] == 10 {
            proof {
                assert(head_ends_at(request@, i as int));
            }
            return RequestProgress::Complete;
        }
        i += 1;
    }
    if n > 16384 {
        RequestProgress::TooLong
    } else {
        RequestProgress::Partial
    }
}

/// The first line of a text, up to a carriage return with a line feed, from
/// position `i` on.
pub open spec fn line_end(s: Seq<char>, i: int) -> int
    decreases s.len() - i,
{
    if i < 0 || i >= s.len() || (s[i] == '\r' && i + 1 < s.len() && s[i + 1] == '\n') {
        i
    } else {
        line_end(s, i + 1)
    }
}

/// What a request asks for: the second word of a first line that begins with
/// `GET`, where it is a path.
pub open spec fn target_in(request: Seq<char>) -> Option<Seq<char>> {
    let parts = words(request.take(line_end(request, 0)));
    if parts.len() >= 2 && parts[0] == "GET"@ && starts_with(parts[1], "/"@) {
        Some(parts[1])
    } else {
        None
    }
}

/// What the bytes of a request ask for; nothing where they are not UTF-8.
pub open spec fn request_target(request: Seq<u8>) -> Option<Seq<char>> {
    if vstd::utf8::valid_utf8(request) {
        target_in(vstd::utf8::decode_utf8(request))
    } else {
        None
    }
}

fn target_in_of(s: &Vec<char>) -> (r: Option<String>)
    ensures
        opt(r) == target_in(s@),
{
    let mut end: usize = 0;
    let n: usize = s.len();
    while end < n && !(s[end] == '\r' && n - end > 1 && s[end + 1] == '\n')
        invariant
            end <= n,
            n == s@.len(),
            line_end(s@, 0) == line_end(s@, end as int),
        decreases n - end,
    {
        end += 1;
    }
    let line = slice_of(s, 0, end);
    proof {
        assert(line_end(s@, end as int) == end);
        assert(line@ =~= s@.take(end as int));
    }
    let parts = words_of(&line);
    proof {
        let ps = words(line@);
        assert(ps.len() == parts@.len());
        if ps.len() >= 2 {
            assert(ps[0] == parts@[0]@);
            assert(ps[1] == parts@[1]@);
        }
    }
    if parts.len() >= 2 && is_text(&parts[0], "GET") && starts_with_str(&parts[1], "/") {
        Some(string_of(&parts[1]))
    } else {
        None
    }
}

pub fn parse_request_target(request: &[u8]) -> (r: Option<String>)
    ensures
        opt(r) == request_target(request@),
{
    let bytes = vstd::slice::slice_to_vec(request);
    match utf8_text(bytes) {
        Some(text) => {
            let v = chars_of(text.as_str());
            proof {
                vstd::utf8::encode_utf8_decode_utf8(text@);
            }
            target_in_of(&v)
        },
        None => None,
    }
}

/// A URL taken apart.
#[derive(Debug)]
pub struct UrlParts {
    pub path: String,
    pub query: Vec<(String, String)>,
}

/// The path of the URL that a text spells, and the pairs of its query.
pub uninterp spec fn url_spelled(text: Seq<char>) -> Option<
    (Seq<char>, Seq<(Seq<char>, Seq<char>)>),
>;

/// `url::Url::parse`, with `path` and `query_pairs` of the result: the path and
/// the decoded query of the URL that a text spells, and nothing where it spells
/// none. Named by `url_spelled`; the syntax of URLs is not spelled out.
#[verifier::external_body]
fn url_parts(text: &str) -> (r: Option<UrlParts>)
    ensures
        match url_spelled(text@) {
            Some(parts) => r is Some && r->0.path@ == parts.0 && pairs(r->0.query@) == parts.1,
            None => r is None,
        },
{
    let url = url::Url::parse(text).ok()?;
    let query = url.query_pairs().into_owned().collect();
    Some(UrlParts { path: url.path().to_owned(), query })
}

/// The last value of a name among the first `n` pairs.
pub open spec fn last_value(query: Seq<(Seq<char>, Seq<char>)>, name: Seq<char>, n: int) -> Option<
    Seq<char>,
>
    decreases n,
{
    if n <= 0 {
        None
    } else if query[n - 1].0 == name {
        Some(query[n - 1].1)
    } else {
        last_value(query, name, n - 1)
    }
}

pub open spec fn value_of(query: Seq<(Seq<char>, Seq<char>)>, name: Seq<char>) -> Option<Seq<char>> {
    last_value(query, name, query.len() as int)
}

fn value_of_pair(query: &Vec<(String, String)>, name: &str) -> (r: Option<String>)
    ensures
        opt(r) == value_of(pairs(query@), name@),
{
    let ghost qs = pairs(query@);
    let mut n: usize = query.len();
    while n > 0
        invariant
            n <= query@.len(),
            qs == pairs(query@),
            value_of(qs, name@) == last_value(qs, name@, n as int),
        decreases n,
    {
        proof {
            assert(qs[n - 1] == (query@[n - 1].0@, query@[n - 1].1@));
        }
        if same_str(query[n - 1].0.as_str(), name) {
            return Some(query[n - 1].1.clone());
        }
        n -= 1;
    }
    None
}

/// What a callback comes to.
#[derive(Debug)]
pub enum CallbackStep {
    /// Nothing was asked: wait for the next request.
    Ignore,
    /// Answer with this and wait for the next request.
    Answer { status: u16, message: &'static str },
    /// The provider turned the sign-in down, for the reason given.
    Reject { error: String },
    /// The sign-in is complete.
    Accept { code: String },
}

/// What a request of this target comes to, where `parts` is the URL that it
/// spells.
pub open spec fn callback_of(
    parts: Option<(Seq<char>, Seq<(Seq<char>, Seq<char>)>)>,
    expected_state: Seq<char>,
    step: CallbackStep,
) -> bool {
    match parts {
        None => step == (CallbackStep::Answer { status: 400, message: "Invalid callback URL" }),
        Some((path, query)) => if path != REDIRECT_PATH@ {
            step == (CallbackStep::Answer { status: 404, message: "Not found" })
        } else if value_of(query, "state"@) != Some(expected_state) {
            step == (CallbackStep::Answer { status: 400, message: "State mismatch" })
        } else if value_of(query, "error"@) is Some {
            step is Reject && step->error@ == value_of(query, "error"@)->0
        } else if value_of(query, "code"@) is None || value_of(query, "code"@)->0.len() == 0 {
            step == (CallbackStep::Answer { status: 400, message: "Missing authorization code" })
        } else {
            step is Accept && step->code@ == value_of(query, "code"@)->0
        },
    }
}

/// What the URL of a callback comes to.
pub fn judge_callback_url(parts: &Option<UrlParts>, expected_state: &str) -> (r: CallbackStep)
    ensures
        callback_of(
            match *parts {
                Some(p) => Some((p.path@, pairs(p.query@))),
                None => None,
            },
            expected_state@,
            r,
        ),
{
    let p = match parts {
        Some(p) => p,
        None => {
            return CallbackStep::Answer { status: 400, message: "Invalid callback URL" };
        },
    };
    if !same_str(p.path.as_str(), REDIRECT_PATH) {
        return CallbackStep::Answer { status: 404, message: "Not found" };
    }
    let known = match value_of_pair(&p.query, "state") {
        Some(state) => same_str(state.as_str(), expected_state),
        None => false,
    };
    if !known {
        return CallbackStep::Answer { status: 400, message: "State mismatch" };
    }
    if let Some(error) = value_of_pair(&p.query, "error") {
        return CallbackStep::Reject { error };
    }
    match value_of_pair(&p.query, "code") {
        Some(code) => {
            if code.as_str().is_empty() {
                CallbackStep::Answer { status: 400, message: "Missing authorization code" }
            } else {
                CallbackStep::Accept { code }
            }
        },
        None => CallbackStep::Answer { status: 400, message: "Missing authorization code" },
    }
}

/// What a request to the callback address comes to.
pub fn judge_callback(request: &Vec<u8>, expected_state: &str) -> (r: CallbackStep)
    ensures
        request@.len() == 0 ==> r is Ignore,
        request@.len() > 0 && request_target(request@) is None ==> r == (CallbackStep::Answer {
            status: 400,
            message: "Invalid callback request",
        }),
        request@.len() > 0 && request_target(request@) is Some ==> callback_of(
            url_spelled("http://localhost"@ + request_target(request@)->0),
            expected_state@,
            r,
        ),
{
    if request.len() == 0 {
        return CallbackStep::Ignore;
    }
    match parse_request_target(request.as_slice()) {
        Some(target) => {
            let url = cat2("http://localhost", target.as_str());
            let parts = url_parts(url.as_str());
            judge_callback_url(&parts, expected_state)
        },
        None => CallbackStep::Answer { status: 400, message: "Invalid callback request" },
    }
}

/// A code is taken only from a callback that carries the state of this sign-in
/// and reports no error.
pub proof fn law_code_is_taken_only_with_the_state(
    path: Seq<char>,
    query: Seq<(Seq<char>, Seq<char>)>,
    expected_state: Seq<char>,
    step: CallbackStep,
)
    requires
        callback_of(Some((path, query)), expected_state, step),
        step is Accept,
    ensures
        path == REDIRECT_PATH@,
        value_of(query, "state"@) == Some(expected_state),
        value_of(query, "error"@) is None,
        value_of(query, "code"@) == Some(step->code@),
        step->code@.len() > 0,
{
}

// ---------------------------------------------------------------------------
// Answers

/// A text with the characters escaped that mean something in HTML.
pub open spec fn escaped(text: Seq<char>) -> Seq<char> {
    let a = replace(text, "&"@, "&amp;"@);
    let b = replace(a, "<"@, "&lt;"@);
    let c = replace(b, ">"@, "&gt;"@);
    let d = replace(c, "\""@, "&quot;"@);
    replace(d, "'"@, "&#39;"@)
}

fn escaped_of(text: &str) -> (r: Vec<char>)
    ensures
        r@ == escaped(text@),
{
    proof {
        reveal_strlit("&");
        reveal_strlit("<");
        reveal_strlit(">");
        reveal_strlit("\"");
        reveal_strlit("'");
    }
    let v = chars_of(text);
    let a = replace_of(&v, "&", "&amp;");
    let b = replace_of(&a, "<", "&lt;");
    let c = replace_of(&b, ">", "&gt;");
    let d = replace_of(&c, "\"", "&quot;");
    replace_of(&d, "'", "&#39;")
}

pub fn html_escape(input: &str) -> (r: String)
    ensures
        r@ == escaped(input@),
{
    string_of(&escaped_of(input))
}

/// Replacing a character by a text without `d` brings no `d` in, and leaves none
/// where it is `d` that is replaced.
proof fn lemma_replaced_char(s: Seq<char>, p: Seq<char>, t: Seq<char>, d: char, i: int)
    requires
        p.len() == 1,
        0 <= i <= s.len(),
        forall|k: int| 0 <= k < t.len() ==> #[trigger] t[k] != d,
        p[0] == d || forall|k: int| i <= k < s.len() ==> #[trigger] s[k] != d,
    ensures
        forall|k: int|
            0 <= k < replace_from(s, p, t, i).len() ==> #[trigger] replace_from(s, p, t, i)[k] != d,
    decreases s.len() - i,
{
    let r = replace_from(s, p, t, i);
    if i < s.len() {
        lemma_replaced_char(s, p, t, d, i + 1);
        let rest = replace_from(s, p, t, i + 1);
        if matches_at(s, p, i) {
            assert(r =~= t + rest);
        } else {
            assert(r =~= seq![s[i]] + rest);
            if s[i] == d {
                assert(s.subrange(i, i + 1) =~= p);
            }
        }
    }
}

/// Whatever a message holds, its escaped form opens no tag and closes no
/// quotation.
pub proof fn law_escaped_text_is_inert(text: Seq<char>)
    ensures
        !has_char(escaped(text), '<'),
        !has_char(escaped(text), '>'),
        !has_char(escaped(text), '"'),
        !has_char(escaped(text), '\''),
{
    reveal_strlit("&");
    reveal_strlit("<");
    reveal_strlit(">");
    reveal_strlit("\"");
    reveal_strlit("'");
    reveal_strlit("&amp;");
    reveal_strlit("&lt;");
    reveal_strlit("&gt;");
    reveal_strlit("&quot;");
    reveal_strlit("&#39;");
    let a = replace(text, "&"@, "&amp;"@);
    let b = replace(a, "<"@, "&lt;"@);
    lemma_replaced_char(a, "<"@, "&lt;"@, '<', 0);
    let c = replace(b, ">"@, "&gt;"@);
    lemma_replaced_char(b, ">"@, "&gt;"@, '<', 0);
    lemma_replaced_char(b, ">"@, "&gt;"@, '>', 0);
    let d = replace(c, "\""@, "&quot;"@);
    lemma_replaced_char(c, "\""@, "&quot;"@, '<', 0);
    lemma_replaced_char(c, "\""@, "&quot;"@, '>', 0);
    lemma_replaced_char(c, "\""@, "&quot;"@, '"', 0);
    lemma_replaced_char(d, "'"@, "&#39;"@, '<', 0);
    lemma_replaced_char(d, "'"@, "&#39;"@, '>', 0);
    lemma_replaced_char(d, "'"@, "&#39;"@, '"', 0);
    lemma_replaced_char(d, "'"@, "&#39;"@, '\'', 0);
}

pub open spec fn answer_body(message: Seq<char>) -> Seq<char> {
    "<!doctype html><meta charset=\"utf-8\"><title>ds ChatGPT sign-in</title><p>"@ + escaped(message)
        + "</p>"@
}

/// An answer as it goes over the wire.
pub open spec fn answer_text(status: u16, message: Seq<char>) -> Seq<char> {
    "HTTP/1.1 "@ + decimal(status as nat) + " "@ + (if status == 200 {
        "OK"@
    } else {
        "Bad Request"@
    }) + "\r\nContent-Type: text/html; charset=utf-8\r\nContent-Length: "@ + decimal(
        byte_len(answer_body(message)),
    ) + "\r\nConnection: close\r\n\r\n"@ + answer_body(message)
}

pub fn callback_response(status: u16, message: &str) -> (r: String)
    ensures
        r@ == answer_text(status, message@),
{
    let mut body = chars_of(
        "<!doctype html><meta charset=\"utf-8\"><title>ds ChatGPT sign-in</title><p>",
    );
    append(&mut body, &escaped_of(message));
    append_str(&mut body, "</p>");
    let length = decimal_string(byte_len_of(&body));
    let code = decimal_string(status as u128);
    let mut out = chars_of("HTTP/1.1 ");
    append_str(&mut out, code.as_str());
    append_str(&mut out, " ");
    append_str(
        &mut out,
        if status == 200 {
            "OK"
        } else {
            "Bad Request"
        },
    );
    append_str(&mut out, "\r\nContent-Type: text/html; charset=utf-8\r\nContent-Length: ");
    append_str(&mut out, length.as_str());
    append_str(&mut out, "\r\nConnection: close\r\n\r\n");
    append(&mut out, &body);
    string_of(&out)
}

// ---------------------------------------------------------------------------
// What a sign-in comes to

/// Tokens are refreshed from five minutes before their end on, and stay due once
/// they are.
pub proof fn law_tokens_are_due_before_their_end(t: TokensView, now_ms: u64, later_ms: u64)
    ensures
        is_due(t, now_ms) <==> t.expires_at_ms <= now_ms + 300000,
        is_due(t, now_ms) && now_ms <= later_ms ==> is_due(t, later_ms),
        t.expires_at_ms <= now_ms ==> is_due(t, now_ms),
{
}

/// An account is named by one to 256 letters, digits, hyphens and underscores.
pub proof fn law_account_is_named_plainly(id: Seq<char>)
    ensures
        is_account_id(id) <==> 1 <= id.len() <= 256 && forall|i: int|
            0 <= i < id.len() ==> (48 <= #[trigger] id[i] as u32 <= 57) || (65 <= id[i] as u32
                <= 90) || (97 <= id[i] as u32 <= 122) || id[i] == '-' || id[i] == '_',
{
    if is_account_id(id) {
        assert forall|i: int| 0 <= i < id.len() implies (48 <= #[trigger] id[i] as u32 <= 57) || (65
            <= id[i] as u32 <= 90) || (97 <= id[i] as u32 <= 122) || id[i] == '-' || id[i]
            == '_' by {
            assert(is_alnum(id[i]) || id[i] == '-' || id[i] == '_');
        }
    }
}

/// An access token was issued to the account that its claims name: those that its
/// second part encodes, under the claim of the provider. A token without such a
/// part, or with a name that is none, was issued to nobody.
pub proof fn law_account_is_read_from_the_claims(access: Seq<char>, id: Seq<char>)
    ensures
        account_of(access) == Some(id) <==> {
            let parts = split(access, CharClass::Only('.'));
            &&& parts.len() >= 2
            &&& base64url_decoded(parts[1]) is Some
            &&& json_spelled(base64url_decoded(parts[1])->0) is Some
            &&& ({
                let claims = json_spelled(base64url_decoded(parts[1])->0)->0;
                let claim = member(claims, "https://api.openai.com/auth"@);
                claim is Some && text_of(member(claim->0, "chatgpt_account_id"@)) == Some(id)
            })
            &&& is_account_id(id)
        },
{
}

/// A response is taken exactly where it brings an access token, and a refresh token
/// or an earlier one to go on with, neither empty nor too long, a lifetime that can
/// be counted, and an account or an earlier one.
pub proof fn law_response_is_taken_whole(
    raw: RawTokenResponse,
    previous: Option<TokensView>,
    now_ms: u64,
)
    ensures
        response_fault(raw, previous, now_ms) is None <==> {
            &&& raw.access_token is Some && raw.access_token->0@.len() > 0
            &&& byte_len(raw.access_token->0@) <= 262144
            &&& raw.refresh_token is Some ==> raw.refresh_token->0@.len() > 0 && byte_len(
                raw.refresh_token->0@,
            ) <= 262144
            &&& raw.refresh_token is None ==> previous is Some
            &&& raw.expires_in is Some && raw.expires_in->0 > 0
            &&& now_ms + raw.expires_in->0 * 1000 <= u64::MAX
            &&& account_of(raw.access_token->0@) is Some || previous is Some
        },
{
}

/// The tokens of a response are those that it brings, from now on for as many
/// seconds as it says; what it leaves out stays as it was.
pub proof fn law_response_tokens_are_those_it_brings(
    raw: RawTokenResponse,
    previous: Option<TokensView>,
    now_ms: u64,
)
    requires
        response_fault(raw, previous, now_ms) is None,
    ensures
        response_tokens(raw, previous, now_ms).access == raw.access_token->0@,
        raw.refresh_token is Some ==> response_tokens(raw, previous, now_ms).refresh
            == raw.refresh_token->0@,
        raw.refresh_token is None ==> response_tokens(raw, previous, now_ms).refresh
            == previous->0.refresh,
        response_tokens(raw, previous, now_ms).expires_at_ms == now_ms + raw.expires_in->0 * 1000,
        account_of(raw.access_token->0@) is Some ==> response_tokens(
            raw,
            previous,
            now_ms,
        ).account_id == account_of(raw.access_token->0@)->0,
        account_of(raw.access_token->0@) is None ==> response_tokens(
            raw,
            previous,
            now_ms,
        ).account_id == previous->0.account_id,
{
}

/// Tokens may be stored exactly where none of them is empty or too long, they are
/// of an account, and they end at some time.
pub proof fn law_storable_tokens_are_whole(t: TokensView)
    ensures
        is_storable(t) <==> {
            &&& t.access.len() > 0 && byte_len(t.access) <= 262144
            &&& t.refresh.len() > 0 && byte_len(t.refresh) <= 262144
            &&& is_account_id(t.account_id)
            &&& t.expires_at_ms > 0
        },
{
}

/// The sign-in page is asked for a code for this client, to be sent to this
/// process, and is given the challenge and the state of this sign-in.
pub proof fn law_authorization_request_is_for_this_sign_in(challenge: Seq<char>, state: Seq<char>)
    ensures
        authorization_params(challenge, state).contains(("response_type"@, "code"@)),
        authorization_params(challenge, state).contains(
            ("client_id"@, "app_EMoamEEZ73f0CkXaXp7hrann"@),
        ),
        authorization_params(challenge, state).contains(
            ("redirect_uri"@, "http://localhost:1455/auth/callback"@),
        ),
        authorization_params(challenge, state).contains(
            ("scope"@, "openid profile email offline_access"@),
        ),
        authorization_params(challenge, state).contains(("code_challenge"@, challenge)),
        authorization_params(challenge, state).contains(("code_challenge_method"@, "S256"@)),
        authorization_params(challenge, state).contains(("state"@, state)),
{
    let all = authorization_params(challenge, state);
    assert(all[0] == ("response_type"@, "code"@));
    assert(all[1] == ("client_id"@, CLIENT_ID@));
    assert(all[2] == ("redirect_uri"@, REDIRECT_URI@));
    assert(all[3] == ("scope"@, SCOPE@));
    assert(all[4] == ("code_challenge"@, challenge));
    assert(all[5] == ("code_challenge_method"@, "S256"@));
    assert(all[6] == ("state"@, state));
}

/// The head of a request is complete exactly where a blank line ends it; until then
/// it is read on, up to sixteen kibibytes.
pub proof fn law_request_is_read_to_its_blank_line(request: Seq<u8>)
    ensures
        progress(request) == RequestProgress::Complete <==> exists|i: int|
            0 <= i && i + 4 <= request.len() && #[trigger] request[i] == 13 && request[i + 1] == 10
                && request[i + 2] == 13 && request[i + 3] == 10,
        progress(request) == RequestProgress::TooLong ==> request.len() > 16384,
        progress(request) == RequestProgress::Partial ==> request.len() <= 16384,
{
    if exists|i: int|
        0 <= i && i + 4 <= request.len() && #[trigger] request[i] == 13 && request[i + 1] == 10
            && request[i + 2] == 13 && request[i + 3] == 10 {
        let i = choose|i: int|
            0 <= i && i + 4 <= request.len() && #[trigger] request[i] == 13 && request[i + 1] == 10
                && request[i + 2] == 13 && request[i + 3] == 10;
        assert(head_ends_at(request, i));
    }
    if exists|i: int| head_ends_at(request, i) {
        let i = choose|i: int| head_ends_at(request, i);
        assert(request[i] == 13);
    }
}

proof fn lemma_line_end(s: Seq<char>, i: int, end: int)
    requires
        0 <= i <= end <= s.len(),
        forall|k: int|
            i <= k < end ==> !(#[trigger] s[k] == '\r' && k + 1 < s.len() && s[k + 1] == '\n'),
        end == s.len() || (s[end] == '\r' && end + 1 < s.len() && s[end + 1] == '\n'),
    ensures
        line_end(s, i) == end,
    decreases end - i,
{
    if i < end {
        assert(!(s[i] == '\r' && i + 1 < s.len() && s[i + 1] == '\n'));
        lemma_line_end(s, i + 1, end);
    }
}

/// A request asks for the second word of its first line, where the first is `GET`
/// and the second is a path.
pub proof fn law_request_asks_for_the_path_of_its_first_line(request: Seq<char>, end: int)
    requires
        0 <= end <= request.len(),
        forall|k: int|
            0 <= k < end ==> !(#[trigger] request[k] == '\r' && k + 1 < request.len() && request[k
                + 1] == '\n'),
        end == request.len() || (request[end] == '\r' && end + 1 < request.len() && request[end
            + 1] == '\n'),
    ensures
        ({
            let parts = words(request.take(end));
            let asks = parts.len() >= 2 && parts[0] == "GET"@ && parts[1].len() > 0 && parts[1][0]
                == '/';
            &&& asks ==> target_in(request) == Some(parts[1])
            &&& !asks ==> target_in(request) is None
        }),
{
    lemma_line_end(request, 0, end);
    reveal_strlit("/");
    let parts = words(request.take(end));
    if parts.len() >= 2 {
        let p = parts[1];
        if starts_with(p, "/"@) {
            assert(p.subrange(0, 1)[0] == '/');
        }
        if p.len() > 0 && p[0] == '/' {
            assert(p.subrange(0, 1) =~= "/"@);
        }
    }
}

proof fn lemma_last_value(
    query: Seq<(Seq<char>, Seq<char>)>,
    name: Seq<char>,
    n: int,
    k: int,
)
    requires
        0 <= k < n <= query.len(),
        query[k].0 == name,
        forall|m: int| k < m < n ==> (#[trigger] query[m]).0 != name,
    ensures
        last_value(query, name, n) == Some(query[k].1),
    decreases n,
{
    if n - 1 > k {
        assert(query[n - 1].0 != name);
        lemma_last_value(query, name, n - 1, k);
    }
}

/// Of a name that stands in a query more than once, the last value counts; a name
/// that does not stand in it has none.
pub proof fn law_last_value_of_a_name_counts(
    query: Seq<(Seq<char>, Seq<char>)>,
    name: Seq<char>,
    k: int,
)
    requires
        0 <= k < query.len(),
        query[k].0 == name,
        forall|m: int| k < m < query.len() ==> (#[trigger] query[m]).0 != name,
    ensures
        value_of(query, name) == Some(query[k].1),
{
    lemma_last_value(query, name, query.len() as int, k);
}

proof fn lemma_no_value(query: Seq<(Seq<char>, Seq<char>)>, name: Seq<char>, n: int)
    requires
        0 <= n <= query.len(),
        forall|m: int| 0 <= m < n ==> (#[trigger] query[m]).0 != name,
    ensures
        last_value(query, name, n) is None,
    decreases n,
{
    if n > 0 {
        lemma_no_value(query, name, n - 1);
    }
}

pub proof fn law_name_that_is_not_given_has_no_value(
    query: Seq<(Seq<char>, Seq<char>)>,
    name: Seq<char>,
)
    requires
        forall|m: int| 0 <= m < query.len() ==> (#[trigger] query[m]).0 != name,
    ensures
        value_of(query, name) is None,
{
    lemma_no_value(query, name, query.len() as int);
}

/// A callback to the right address with the state of this sign-in is believed: its
/// error where it reports one, and else its code. One without that state, or to
/// another address, is turned away whatever it brings.
pub proof fn law_callback_is_believed_by_its_state(
    path: Seq<char>,
    query: Seq<(Seq<char>, Seq<char>)>,
    expected_state: Seq<char>,
    step: CallbackStep,
)
    requires
        callback_of(Some((path, query)), expected_state, step),
    ensures
        path != "/auth/callback"@ ==> step is Answer && step->status == 404,
        path == "/auth/callback"@ && value_of(query, "state"@) != Some(expected_state)
            ==> step is Answer && step->status == 400,
        path == "/auth/callback"@ && value_of(query, "state"@) == Some(expected_state) && value_of(
            query,
            "error"@,
        ) is Some ==> step is Reject && step->error@ == value_of(query, "error"@)->0,
        path == "/auth/callback"@ && value_of(query, "state"@) == Some(expected_state) && value_of(
            query,
            "error"@,
        ) is None && value_of(query, "code"@) is Some && value_of(query, "code"@)->0.len() > 0
            ==> step is Accept && step->code@ == value_of(query, "code"@)->0,
        path == "/auth/callback"@ && value_of(query, "state"@) == Some(expected_state) && value_of(
            query,
            "error"@,
        ) is None && (value_of(query, "code"@) is None || value_of(query, "code"@)->0.len() == 0)
            ==> step is Answer && step->status == 400,
{
}

/// A message without a character that means something in HTML is shown as it is.
pub proof fn law_plain_message_is_shown_as_it_is(text: Seq<char>)
    requires
        !has_char(text, '&') && !has_char(text, '<') && !has_char(text, '>') && !has_char(
            text,
            '"',
        ) && !has_char(text, '\''),
    ensures
        escaped(text) == text,
        contains(answer_body(text), text),
{
    reveal_strlit("&");
    reveal_strlit("<");
    reveal_strlit(">");
    reveal_strlit("\"");
    reveal_strlit("'");
    lemma_lacks(text, "&"@, 0);
    lemma_lacks(text, "<"@, 0);
    lemma_lacks(text, ">"@, 0);
    lemma_lacks(text, "\""@, 0);
    lemma_lacks(text, "'"@, 0);
    lemma_replace_absent(text, "&"@, "&amp;"@);
    lemma_replace_absent(text, "<"@, "&lt;"@);
    lemma_replace_absent(text, ">"@, "&gt;"@);
    lemma_replace_absent(text, "\""@, "&quot;"@);
    lemma_replace_absent(text, "'"@, "&#39;"@);
    lemma_contains_itself(
        "<!doctype html><meta charset=\"utf-8\"><title>ds ChatGPT sign-in</title><p>"@,
        text,
        "</p>"@,
    );
}

/// An answer begins with its status, announces the length of its body, and ends
/// with the body.
pub proof fn law_answer_announces_its_body(status: u16, message: Seq<char>)
    ensures
        starts_with(answer_text(status, message), "HTTP/1.1 "@ + decimal(status as nat) + " "@),
        ends_with(
            answer_text(status, message),
            "\r\nContent-Length: "@ + decimal(byte_len(answer_body(message)))
                + "\r\nConnection: close\r\n\r\n"@ + answer_body(message),
        ),
        contains(answer_body(message), escaped(message)),
{
    let whole = answer_text(status, message);
    let head = "HTTP/1.1 "@ + decimal(status as nat) + " "@;
    assert(whole.subrange(0, head.len() as int) =~= head);
    let tail = "\r\nContent-Length: "@ + decimal(byte_len(answer_body(message)))
        + "\r\nConnection: close\r\n\r\n"@ + answer_body(message);
    reveal_strlit("\r\nContent-Type: text/html; charset=utf-8\r\nContent-Length: ");
    reveal_strlit("\r\nContent-Type: text/html; charset=utf-8");
    reveal_strlit("\r\nContent-Length: ");
    assert("\r\nContent-Type: text/html; charset=utf-8\r\nContent-Length: "@
        =~= "\r\nContent-Type: text/html; charset=utf-8"@ + "\r\nContent-Length: "@);
    assert(whole.subrange(whole.len() - tail.len(), whole.len() as int) =~= tail);
    lemma_contains_itself(
        "<!doctype html><meta charset=\"utf-8\"><title>ds ChatGPT sign-in</title><p>"@,
        escaped(message),
        "</p>"@,
    );
}

} // verus!
