use intl_extract::catalog::Catalog;
use intl_extract::hash::{get_hash, hmac_hex, sha256};
use intl_extract::tencent::{sign_request, translated_texts, RequestResponse, Response, ResponseError, TencentPayload};
use intl_extract::text::push_decimal;
use intl_extract::translate::{get_pair_list, merge_translations, plan_translation};

fn pairs(p: &[(&str, &str)]) -> Vec<(String, String)> {
    p.iter().map(|(k, v)| (k.to_string(), v.to_string())).collect()
}

fn sorted(c: &Catalog) -> Vec<(String, String)> {
    let mut v = c.entries.clone();
    v.sort();
    v
}

#[test]
fn digest_of_empty_message() {
    assert_eq!(get_hash(b""), "e3b0c44298fc1c149afbf4c8996fb92427ae41e4649b934ca495991b7852b855");
    assert_eq!(get_hash(b"abc"), "ba7816bf8f01cfea414140de5dae2223b00361a396177a9cb410ff61f20015ad");
}

#[test]
fn hmac_of_known_message() {
    let tag = sha256(b"The quick brown fox jumps over the lazy dog", b"key");
    assert_eq!(tag.len(), 32);
    assert_eq!(
        hmac_hex(b"The quick brown fox jumps over the lazy dog", b"key"),
        "f7bc83f430538424b13298e6aa6fb143ef4d59a14946175997479dbc2d1a3cd8"
    );
    assert_eq!(tag[0], 0xf7);
}

#[test]
fn decimal_writing() {
    let mut s = "n=".to_string();
    push_decimal(&mut s, 0);
    push_decimal(&mut s, 1203);
    push_decimal(&mut s, u64::MAX);
    assert_eq!(s, "n=0120318446744073709551615");
}

#[test]
fn payload_body() {
    let p = TencentPayload::new("zh".to_string(), "en".to_string(), 7);
    let body = p.to_string(&pairs(&[("k1", "你好"), ("k2", "a\"b")]));
    assert_eq!(body, "{\"ProjectId\":7,\"Source\":\"zh\",\"SourceTextList\":[\"你好\",\"a\\\"b\"],\"Target\":\"en\"}");
    assert_eq!(p.to_string(&vec![]), "{\"ProjectId\":7,\"Source\":\"zh\",\"SourceTextList\":[],\"Target\":\"en\"}");
}

#[test]
fn payload_new_keeps_fields() {
    let p = TencentPayload::new("zh".to_string(), "en".to_string(), 0);
    assert_eq!(p.source, "zh");
    assert_eq!(p.target, "en");
    assert_eq!(p.project_id, 0);
}

#[test]
fn translations_pair_with_keys() {
    let p = TencentPayload::new("zh".to_string(), "en".to_string(), 0);
    let m = p.to_map(&pairs(&[("a", "甲"), ("b", "乙")]), vec!["A".to_string(), "B".to_string(), "C".to_string()]);
    assert_eq!(m, pairs(&[("a", "A"), ("b", "B")]));
}

#[test]
fn pending_pairs_skip_existing_keys() {
    let input = Catalog::from_pairs(&pairs(&[("a", "1"), ("b", "2"), ("c", "3")]));
    let existing = Catalog::from_pairs(&pairs(&[("b", "B")]));
    assert_eq!(get_pair_list(&input, &existing), pairs(&[("a", "1"), ("c", "3")]));
    assert_eq!(plan_translation(&input, &existing, false), pairs(&[("a", "1"), ("c", "3")]));
    assert_eq!(plan_translation(&input, &existing, true), pairs(&[("a", "1"), ("b", "2"), ("c", "3")]));
}

#[test]
fn merged_translations_overwrite() {
    let p = TencentPayload::new("zh".to_string(), "en".to_string(), 0);
    let mut existing = Catalog::from_pairs(&pairs(&[("a", "old"), ("z", "Z")]));
    merge_translations(&mut existing, &p, &pairs(&[("a", "甲"), ("b", "乙")]), vec!["A".to_string(), "B".to_string()]);
    assert_eq!(sorted(&existing), pairs(&[("a", "A"), ("b", "B"), ("z", "Z")]));
}

fn response(error: Option<ResponseError>) -> RequestResponse {
    RequestResponse {
        Response: Response {
            RequestId: "r".to_string(),
            Source: "zh".to_string(),
            Target: "en".to_string(),
            TargetTextList: vec!["Hello".to_string()],
            UsedAmount: 2,
            Error: error,
        },
    }
}

#[test]
fn answer_texts_or_error() {
    assert_eq!(translated_texts(response(None)), Ok(vec!["Hello".to_string()]));
    let e = ResponseError { Code: "AuthFailure".to_string(), Message: "bad".to_string() };
    assert_eq!(translated_texts(response(Some(e))), Err("bad".to_string()));
}

#[test]
fn signed_request_header() {
    let (date, auth) = sign_request("id", "key", 1700000000, "{}");
    assert_eq!(date, "2023-11-14");
    let prefix = "TC3-HMAC-SHA256 Credential=id/2023-11-14/tmt/tc3_request, SignedHeaders=content-type;host, Signature=";
    assert!(auth.starts_with(prefix));
    let sig = &auth[prefix.len()..];
    assert_eq!(sig.len(), 64);
    assert!(sig.chars().all(|c| c.is_ascii_hexdigit() && !c.is_ascii_uppercase()));
    let (date0, auth2) = sign_request("id", "other", 1700000000, "{}");
    assert_eq!(date0, "2023-11-14");
    assert_ne!(auth, auth2);
    assert_eq!(sign_request("id", "key", 0, "").0, "1970-01-01");
}
