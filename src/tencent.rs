use chrono::TimeZone;
use vstd::prelude::*;
use vstd::string::StringExecFns;
use vstd::utf8::encode_utf8;

use crate::catalog::pair_views;
use crate::hash::{get_hash, hex_of, hmac_hex, hmac_sha256_of, sha256, sha256_of};
use crate::text::{decimal, push_decimal};

verus! {

/// The latest timestamp whose date has four year digits (9999-12-31T23:59:59Z).
pub const MAX_TIMESTAMP: i64 = 253402300799;

/// The UTC calendar date of a Unix timestamp, written `YYYY-MM-DD`.
pub uninterp spec fn utc_date_of(timestamp: int) -> Seq<char>;

/// A string written as a JSON string literal, quoted and escaped.
pub uninterp spec fn json_quoted_of(s: Seq<char>) -> Seq<char>;

/// Relies on chrono: `Utc.timestamp_opt` gives a single value for every
/// timestamp in chrono's range, which holds years 0 to 9999, and
/// `format("%Y-%m-%d")` writes its date.
#[verifier::external_body]
fn get_date(timestamp: i64) -> (r: String)
    requires
        0 <= timestamp <= MAX_TIMESTAMP,
    ensures
        r@ == utc_date_of(timestamp as int),
{
    let dt: chrono::DateTime<chrono::Utc> = chrono::Utc.timestamp_opt(timestamp, 0).unwrap();
    dt.format("%Y-%m-%d").to_string()
}

/// Relies on `serde_json::to_string` on a `str`, which cannot fail: it writes the
/// string as a quoted, escaped JSON string.
#[verifier::external_body]
fn json_quote(s: &str) -> (r: String)
    ensures
        r@ == json_quoted_of(s@),
{
    serde_json::to_string(s).unwrap()
}

/// The canonical request of a body, ending in the hex digest of the body.
pub open spec fn canonical_request(payload: Seq<char>) -> Seq<char> {
    "POST\n/\n\ncontent-type:application/json; charset=utf-8\nhost:tmt.tencentcloudapi.com\n\ncontent-type;host\n"@
        + hex_of(sha256_of(encode_utf8(payload)))
}

/// The credential scope of a date.
pub open spec fn credential_scope(date: Seq<char>) -> Seq<char> {
    date + "/tmt/tc3_request"@
}

/// The text that the signature signs.
pub open spec fn string_to_sign(timestamp: nat, date: Seq<char>, payload: Seq<char>) -> Seq<char> {
    "TC3-HMAC-SHA256\n"@ + decimal(timestamp) + "\n"@ + credential_scope(date) + "\n"@ + hex_of(
        sha256_of(encode_utf8(canonical_request(payload))),
    )
}

/// The signing key derived from the secret key and the date.
pub open spec fn signing_key(secret_key: Seq<char>, date: Seq<char>) -> Seq<u8> {
    let k_date = hmac_sha256_of(encode_utf8("TC3"@ + secret_key), encode_utf8(date));
    let k_service = hmac_sha256_of(k_date, encode_utf8("tmt"@));
    hmac_sha256_of(k_service, encode_utf8("tc3_request"@))
}

/// The value of the `Authorization` header of a request.
pub open spec fn authorization_text(
    secret_id: Seq<char>,
    secret_key: Seq<char>,
    timestamp: nat,
    date: Seq<char>,
    payload: Seq<char>,
) -> Seq<char> {
    "TC3-HMAC-SHA256 Credential="@ + secret_id + "/"@ + credential_scope(date)
        + ", SignedHeaders=content-type;host, Signature="@ + hex_of(
        hmac_sha256_of(
            signing_key(secret_key, date),
            encode_utf8(string_to_sign(timestamp, date, payload)),
        ),
    )
}

/// Signs a request body sent at `timestamp`; returns the date of the request
/// and the value of its `Authorization` header.
pub fn sign_request(secret_id: &str, secret_key: &str, timestamp: i64, payload: &str) -> (r: (
    String,
    String,
))
    requires
        0 <= timestamp <= MAX_TIMESTAMP,
    ensures
        r.0@ == utc_date_of(timestamp as int),
        r.1@ == authorization_text(
            secret_id@,
            secret_key@,
            timestamp as nat,
            utc_date_of(timestamp as int),
            payload@,
        ),
{
    let date = get_date(timestamp);
    let mut canonical = String::from_str(
        "POST\n/\n\ncontent-type:application/json; charset=utf-8\nhost:tmt.tencentcloudapi.com\n\ncontent-type;host\n",
    );
    let payload_hash = get_hash(payload.as_bytes());
    canonical.append(payload_hash.as_str());

    let mut to_sign = String::from_str("TC3-HMAC-SHA256\n");
    push_decimal(&mut to_sign, timestamp as u64);
    to_sign.append("\n");
    to_sign.append(date.as_str());
    to_sign.append("/tmt/tc3_request");
    to_sign.append("\n");
    let request_hash = get_hash(canonical.as_str().as_bytes());
    to_sign.append(request_hash.as_str());

    let mut prefixed = String::from_str("TC3");
    prefixed.append(secret_key);
    let k_date = sha256(date.as_str().as_bytes(), prefixed.as_str().as_bytes());
    let k_service = sha256("tmt".as_bytes(), k_date.as_slice());
    let k_signing = sha256("tc3_request".as_bytes(), k_service.as_slice());
    let signature = hmac_hex(to_sign.as_str().as_bytes(), k_signing.as_slice());

    let mut auth = String::from_str("TC3-HMAC-SHA256 Credential=");
    auth.append(secret_id);
    auth.append("/");
    auth.append(date.as_str());
    auth.append("/tmt/tc3_request");
    auth.append(", SignedHeaders=content-type;host, Signature=");
    auth.append(signature.as_str());
    proof {
        let d = utc_date_of(timestamp as int);
        assert(canonical@ =~= canonical_request(payload@));
        assert(to_sign@ =~= string_to_sign(timestamp as nat, d, payload@));
        assert(auth@ =~= authorization_text(secret_id@, secret_key@, timestamp as nat, d, payload@));
    }
    (date, auth)
}

/// The JSON array of the quoted texts, without its brackets.
pub open spec fn json_items(texts: Seq<Seq<char>>) -> Seq<char>
    decreases texts.len(),
{
    if texts.len() == 0 {
        Seq::empty()
    } else if texts.len() == 1 {
        json_quoted_of(texts[0])
    } else {
        json_items(texts.drop_last()) + ","@ + json_quoted_of(texts.last())
    }
}

/// The body of a batch translation request, with the keys in sorted order.
pub open spec fn payload_text(
    source: Seq<char>,
    target: Seq<char>,
    project_id: nat,
    texts: Seq<Seq<char>>,
) -> Seq<char> {
    "{\"ProjectId\":"@ + decimal(project_id) + ",\"Source\":"@ + json_quoted_of(source)
        + ",\"SourceTextList\":["@ + json_items(texts) + "],\"Target\":"@ + json_quoted_of(target)
        + "}"@
}

/// The texts of a sequence of pairs.
pub open spec fn texts_of(s: Seq<(Seq<char>, Seq<char>)>) -> Seq<Seq<char>> {
    s.map_values(|p: (Seq<char>, Seq<char>)| p.1)
}

/// The languages and project of a batch translation request.
pub struct TencentPayload {
    pub source: String,
    pub target: String,
    pub project_id: u32,
}

impl TencentPayload {
    pub fn new(source: String, target: String, project_id: u32) -> (r: TencentPayload)
        ensures
            r.source@ == source@,
            r.target@ == target@,
            r.project_id == project_id,
    {
        TencentPayload { source, target, project_id }
    }

    /// The request body that asks to translate the texts of `pair_list`, in order.
    pub fn to_string(&self, pair_list: &Vec<(String, String)>) -> (r: String)
        ensures
            r@ == payload_text(
                self.source@,
                self.target@,
                self.project_id as nat,
                texts_of(pair_views(pair_list@)),
            ),
    {
        let mut s = String::from_str("{\"ProjectId\":");
        push_decimal(&mut s, self.project_id as u64);
        s.append(",\"Source\":");
        let src = json_quote(self.source.as_str());
        s.append(src.as_str());
        s.append(",\"SourceTextList\":[");
        let ghost start = s@;
        let mut i: usize = 0;
        while i < pair_list.len()
            invariant
                i <= pair_list.len(),
                s@ == start + json_items(texts_of(pair_views(pair_list@.take(i as int)))),
            decreases pair_list.len() - i,
        {
            if i > 0 {
                s.append(",");
            }
            let q = json_quote(pair_list[i].1.as_str());
            s.append(q.as_str());
            proof {
                let t = texts_of(pair_views(pair_list@.take(i as int + 1)));
                assert(t.drop_last() =~= texts_of(pair_views(pair_list@.take(i as int))));
                assert(t.last() == pair_list@[i as int].1@);
                if i == 0 {
                    assert(texts_of(pair_views(pair_list@.take(0))) =~= Seq::empty());
                }
            }
            assert(s@ =~= start + json_items(texts_of(pair_views(pair_list@.take(i as int + 1)))));
            i = i + 1;
        }
        assert(pair_list@.take(pair_list.len() as int) =~= pair_list@);
        s.append("],\"Target\":");
        let tgt = json_quote(self.target.as_str());
        s.append(tgt.as_str());
        s.append("}");
        assert(s@ =~= payload_text(
            self.source@,
            self.target@,
            self.project_id as nat,
            texts_of(pair_views(pair_list@)),
        ));
        s
    }

    /// Pairs each key of `pair_list` with the translated text at the same position.
    pub fn to_map(&self, pair_list: &Vec<(String, String)>, list: Vec<String>) -> (r: Vec<(String, String)>)
        requires
            list.len() >= pair_list.len(),
        ensures
            r.len() == pair_list.len(),
            forall|i: int| #![trigger r@[i]] 0 <= i < r.len() ==> r@[i].0@ == pair_list@[i].0@ && r@[i].1@
                == list@[i]@,
    {
        let mut r: Vec<(String, String)> = Vec::new();
        let mut i: usize = 0;
        while i < pair_list.len()
            invariant
                i <= pair_list.len(),
                list.len() >= pair_list.len(),
                r.len() == i,
                forall|j: int| #![trigger r@[j]] 0 <= j < i ==> r@[j].0@ == pair_list@[j].0@ && r@[j].1@
                    == list@[j]@,
            decreases pair_list.len() - i,
        {
            r.push((pair_list[i].0.clone(), list[i].clone()));
            i = i + 1;
        }
        r
    }
}

/// The error part of a service answer.
#[allow(non_snake_case)]
pub struct ResponseError {
    pub Code: String,
    pub Message: String,
}

/// The body of a service answer.
#[allow(non_snake_case)]
pub struct Response {
    pub RequestId: String,
    pub Source: String,
    pub Target: String,
    pub TargetTextList: Vec<String>,
    pub UsedAmount: u32,
    pub Error: Option<ResponseError>,
}

/// A service answer.
#[allow(non_snake_case)]
pub struct RequestResponse {
    pub Response: Response,
}

/// The translated texts of an answer, or the message of the error it reports.
pub fn translated_texts(response: RequestResponse) -> (r: Result<Vec<String>, String>)
    ensures
        match response.Response.Error {
            Some(e) => r is Err && r->Err_0@ == e.Message@,
            None => r is Ok && r->Ok_0@ == response.Response.TargetTextList@,
        },
{
    match response.Response.Error {
        Some(e) => Err(e.Message),
        None => Ok(response.Response.TargetTextList),
    }
}

} // verus!
