//! Requests to the translation service.

use crate::decimal::{decimal, to_decimal};
use crate::sign::{sign, signature};
use vstd::prelude::*;

verus! {

/// What a client of the translation service is set up with. It is fixed
/// for a run.
#[derive(Debug, PartialEq, Eq)]
pub struct ClientConfig {
    /// The address that requests go to.
    pub endpoint: String,
    /// The identifier of the application, sent with every request.
    pub app_id: String,
    /// The secret of the application, which enters signatures only.
    pub app_key: String,
    /// The language of the texts to translate.
    pub source_lang: String,
    /// The time to wait before every request, in milliseconds.
    pub min_delay_ms: u64,
}

/// A request for the translation of one text.
#[derive(Debug, PartialEq, Eq)]
pub struct TranslationRequest {
    pub query: String,
    pub source_lang: String,
    pub target_lang: String,
    pub app_id: String,
    /// Seconds since the Unix epoch.
    pub timestamp: u64,
    pub nonce: String,
    pub sign_type: String,
    pub signature: String,
}

/// The mathematical model of a request.
pub struct RequestModel {
    pub query: Seq<char>,
    pub source_lang: Seq<char>,
    pub target_lang: Seq<char>,
    pub app_id: Seq<char>,
    pub timestamp: nat,
    pub nonce: Seq<char>,
    pub sign_type: Seq<char>,
    pub signature: Seq<char>,
}

impl View for TranslationRequest {
    type V = RequestModel;

    open spec fn view(&self) -> RequestModel {
        RequestModel {
            query: self.query@,
            source_lang: self.source_lang@,
            target_lang: self.target_lang@,
            app_id: self.app_id@,
            timestamp: self.timestamp as nat,
            nonce: self.nonce@,
            sign_type: self.sign_type@,
            signature: self.signature@,
        }
    }
}

/// The request that asks for `query` in `target_lang`: it carries the query
/// whole, the client's source language and identifier, the nonce and the
/// time it was made at, and a `v3` signature over the query, the nonce, the
/// time in decimal and the client's identifier and secret.
pub open spec fn request_for(
    cfg: ClientConfig,
    query: Seq<char>,
    target_lang: Seq<char>,
    nonce: Seq<char>,
    timestamp: nat,
) -> RequestModel {
    RequestModel {
        query,
        source_lang: cfg.source_lang@,
        target_lang,
        app_id: cfg.app_id@,
        timestamp,
        nonce,
        sign_type: "v3"@,
        signature: signature(query, nonce, decimal(timestamp), cfg.app_id@, cfg.app_key@),
    }
}

/// The query parameters that carry a request, by name.
pub open spec fn request_params(request: RequestModel) -> Seq<(Seq<char>, Seq<char>)> {
    seq![
        ("q"@, request.query),
        ("from"@, request.source_lang),
        ("to"@, request.target_lang),
        ("appKey"@, request.app_id),
        ("sign"@, request.signature),
        ("salt"@, request.nonce),
        ("signType"@, request.sign_type),
        ("curtime"@, decimal(request.timestamp)),
    ]
}

/// The model of a list of named parameters.
pub open spec fn params_model(params: Seq<(String, String)>) -> Seq<(Seq<char>, Seq<char>)> {
    Seq::new(params.len(), |i: int| (params[i].0@, params[i].1@))
}

/// `c` is a digit of lower-case hexadecimal notation.
pub open spec fn is_lower_hex(c: char) -> bool {
    ('0' <= c && c <= '9') || ('a' <= c && c <= 'f')
}

/// `s` is written as a UUID is: thirty-two lower-case hexadecimal digits in
/// groups of eight, four, four, four and twelve, with a hyphen between
/// groups.
pub open spec fn is_hyphenated_uuid(s: Seq<char>) -> bool {
    &&& s.len() == 36
    &&& forall|i: int|
        0 <= i < 36 ==> if i == 8 || i == 13 || i == 18 || i == 23 {
            #[trigger] s[i] == '-'
        } else {
            is_lower_hex(s[i])
        }
}

/// Trusted: `uuid::Uuid::new_v4`, written out by `to_string`. The value is
/// random; it is always written in the hyphenated lower-case form.
#[verifier::external_body]
fn fresh_nonce() -> (r: String)
    ensures
        is_hyphenated_uuid(r@),
{
    uuid::Uuid::new_v4().to_string()
}

impl ClientConfig {
    /// The configuration for the service's public endpoint, with simplified
    /// Chinese as the source language and one second between requests.
    pub fn standard() -> (cfg: ClientConfig)
        ensures
            cfg.endpoint@ == "https://openapi.youdao.com/api"@,
            cfg.app_id@ == "app_id"@,
            cfg.app_key@ == "app_key"@,
            cfg.source_lang@ == "zh-CHS"@,
            cfg.min_delay_ms == 1000,
    {
        ClientConfig {
            endpoint: String::from_str("https://openapi.youdao.com/api"),
            app_id: String::from_str("app_id"),
            app_key: String::from_str("app_key"),
            source_lang: String::from_str("zh-CHS"),
            min_delay_ms: 1000,
        }
    }
}

/// Builds the request for `query` with the given nonce and time.
pub fn build_request(
    cfg: &ClientConfig,
    query: &str,
    target_lang: &str,
    nonce: &str,
    timestamp: u64,
) -> (r: TranslationRequest)
    ensures
        r@ == request_for(*cfg, query@, target_lang@, nonce@, timestamp as nat),
{
    let curtime = to_decimal(timestamp);
    let signature = sign(
        query,
        nonce,
        curtime.as_str(),
        cfg.app_id.as_str(),
        cfg.app_key.as_str(),
    );
    TranslationRequest {
        query: String::from_str(query),
        source_lang: cfg.source_lang.clone(),
        target_lang: String::from_str(target_lang),
        app_id: cfg.app_id.clone(),
        timestamp,
        nonce: String::from_str(nonce),
        sign_type: String::from_str("v3"),
        signature,
    }
}

/// Builds the request for `query` at the given time, with a nonce of its
/// own: a random UUID. Whatever the nonce, the request is the one that
/// `build_request` makes with it.
pub fn prepare_request(cfg: &ClientConfig, query: &str, target_lang: &str, timestamp: u64) -> (r:
    TranslationRequest)
    ensures
        is_hyphenated_uuid(r.nonce@),
        r@ == request_for(*cfg, query@, target_lang@, r.nonce@, timestamp as nat),
{
    let nonce = fresh_nonce();
    build_request(cfg, query, target_lang, nonce.as_str(), timestamp)
}

impl TranslationRequest {
    /// The query parameters to send, by name, with the time in decimal.
    pub fn query_params(&self) -> (params: Vec<(String, String)>)
        ensures
            params_model(params@) == request_params(self@),
    {
        let mut params: Vec<(String, String)> = Vec::new();
        params.push((String::from_str("q"), self.query.clone()));
        params.push((String::from_str("from"), self.source_lang.clone()));
        params.push((String::from_str("to"), self.target_lang.clone()));
        params.push((String::from_str("appKey"), self.app_id.clone()));
        params.push((String::from_str("sign"), self.signature.clone()));
        params.push((String::from_str("salt"), self.nonce.clone()));
        params.push((String::from_str("signType"), self.sign_type.clone()));
        params.push((String::from_str("curtime"), to_decimal(self.timestamp)));
        assert(params_model(params@) =~= request_params(self@));
        params
    }
}

} // verus!
