//! Signed URLs for the endpoints of the API.
//!
//! A request is signed with the MD5 digest, in lower-case hexadecimal, of the
//! developer id, the method name, the developer key and a UTC timestamp
//! written one after the other.

use crate::clock::{utc_now, UtcNow};
use crate::hi_rez_constants::{ReturnDataType, UrlConstants};
use crate::text::{decimal, digit_char, push_decimal, push_two_digits, two_digits};
use crypto::digest::Digest;
use crypto::md5::Md5;
use vstd::prelude::*;
use vstd::utf8::encode_utf8;

verus! {

/// The 16 bytes of the MD5 digest of a message.
pub uninterp spec fn md5(message: Seq<u8>) -> Seq<u8>;

/// The character of a hexadecimal digit, in lower case.
pub open spec fn hex_digit(n: int) -> char
    recommends
        0 <= n <= 15,
{
    if n < 10 {
        digit_char(n)
    } else {
        ((87 + n) as u8) as char
    }
}

/// Bytes in lower-case hexadecimal, two digits each, the high one first.
pub open spec fn lower_hex(bytes: Seq<u8>) -> Seq<char>
    decreases bytes.len(),
{
    if bytes.len() == 0 {
        Seq::empty()
    } else {
        lower_hex(bytes.drop_last()) + seq![
            hex_digit(bytes.last() as int / 16),
            hex_digit(bytes.last() as int % 16),
        ]
    }
}

/// The signature of a request: the MD5 digest of
/// `id || method || key || timestamp` in lower-case hexadecimal.
pub open spec fn spec_signature(
    id: Seq<char>,
    method_name: UrlConstants,
    key: Seq<char>,
    date: Seq<char>,
) -> Seq<char> {
    lower_hex(md5(encode_utf8(id + method_name.spec_val() + key + date)))
}

/// A clock reading as `YYYYMMDDhhmmss`: the year as it is, the other fields
/// filled with zeros to two digits.
pub open spec fn timestamp_text(t: UtcNow) -> Seq<char> {
    decimal(t.year as int) + two_digits(t.month as nat) + two_digits(t.day as nat) + two_digits(
        t.hour as nat,
    ) + two_digits(t.minute as nat) + two_digits(t.second as nat)
}

/// The unsigned URL that checks whether the API can be reached:
/// `{base}/ping{format}`.
pub open spec fn spec_ping_url(base_url: UrlConstants, data_type: ReturnDataType) -> Seq<char> {
    base_url.spec_val() + "/"@ + "ping"@ + data_type.spec_val()
}

/// The URL that asks for a new session at the time `timestamp`, with the
/// request's signature in its place:
/// `{base}/createsession{format}/{id}/{signature}/{timestamp}`.
pub open spec fn spec_signed_session_url(
    base_url: UrlConstants,
    data_type: ReturnDataType,
    id: Seq<char>,
    signature: Seq<char>,
    timestamp: Seq<char>,
) -> Seq<char> {
    base_url.spec_val() + "/"@ + UrlConstants::CreateSession.spec_val() + data_type.spec_val()
        + "/"@ + id + "/"@ + signature + "/"@ + timestamp
}

/// The URL that asks for a new session at the time `timestamp`.
pub open spec fn spec_session_url(
    base_url: UrlConstants,
    data_type: ReturnDataType,
    id: Seq<char>,
    key: Seq<char>,
    timestamp: Seq<char>,
) -> Seq<char> {
    spec_signed_session_url(
        base_url,
        data_type,
        id,
        spec_signature(id, UrlConstants::CreateSession, key, timestamp),
        timestamp,
    )
}

/// The URL of a call of `method_name` within `session` at the time
/// `timestamp`, with the request's signature in its place and the call's own
/// arguments, which begin with a slash if there are any, at the end:
/// `{base}/{method}{format}/{id}/{signature}/{session}/{timestamp}{arguments}`.
pub open spec fn spec_signed_url(
    id: Seq<char>,
    signature: Seq<char>,
    session: Seq<char>,
    base_url: UrlConstants,
    method_name: UrlConstants,
    data_type: ReturnDataType,
    method_specific: Seq<char>,
    timestamp: Seq<char>,
) -> Seq<char> {
    base_url.spec_val() + "/"@ + method_name.spec_val() + data_type.spec_val() + "/"@ + id + "/"@
        + signature + "/"@ + session + "/"@ + timestamp + method_specific
}

/// The URL of a call of `method_name` within `session` at the time
/// `timestamp`, with the call's own arguments in `method_specific`.
pub open spec fn spec_url(
    id: Seq<char>,
    key: Seq<char>,
    session: Seq<char>,
    base_url: UrlConstants,
    method_name: UrlConstants,
    data_type: ReturnDataType,
    method_specific: Seq<char>,
    timestamp: Seq<char>,
) -> Seq<char> {
    spec_signed_url(
        id,
        spec_signature(id, method_name, key, timestamp),
        session,
        base_url,
        method_name,
        data_type,
        method_specific,
        timestamp,
    )
}

/// Digests `message` with rust-crypto's MD5 (`Md5::new`, `Digest::input_str`)
/// and reads the digest as text with `Digest::result_str`.
///
/// Trusted: the result is the digest of the bytes of `message`, which `md5`
/// names, written as `result_str` writes it: two lower-case hexadecimal
/// digits for each byte, the high one first.
#[verifier::external_body]
fn md5_hex(message: &str) -> (digest: String)
    ensures
        digest@ == lower_hex(md5(encode_utf8(message@))),
{
    let mut md5 = Md5::new();
    md5.input_str(message);
    md5.result_str()
}

/// Signs a request made at the time `date`.
pub fn build_signature(id: &str, method_name: &UrlConstants, key: &str, date: &str) -> (signature:
    String)
    ensures
        signature@ == spec_signature(id@, *method_name, key@, date@),
{
    let mut message: String = id.to_owned();
    message.append(method_name.val().as_str());
    message.append(key);
    message.append(date);
    md5_hex(message.as_str())
}

/// Writes a clock reading as `YYYYMMDDhhmmss`.
pub fn format_timestamp(now: &UtcNow) -> (timestamp: String)
    ensures
        timestamp@ == timestamp_text(*now),
{
    let mut timestamp = String::new();
    push_decimal(&mut timestamp, now.year as i64);
    push_two_digits(&mut timestamp, now.month);
    push_two_digits(&mut timestamp, now.day);
    push_two_digits(&mut timestamp, now.hour);
    push_two_digits(&mut timestamp, now.minute);
    push_two_digits(&mut timestamp, now.second);
    assert(timestamp@ =~= timestamp_text(*now));
    timestamp
}

/// The current UTC time as `YYYYMMDDhhmmss`.
pub fn get_timestamp() -> (timestamp: String)
    ensures
        exists|now: UtcNow| now.wf() && timestamp@ == timestamp_text(now),
{
    let now = utc_now();
    format_timestamp(&now)
}

/// The unsigned URL that checks whether the API can be reached.
pub fn ping_url(base_url: &UrlConstants, data_type: &ReturnDataType) -> (url: String)
    ensures
        url@ == spec_ping_url(*base_url, *data_type),
{
    let mut url: String = base_url.val();
    url.append("/");
    url.append("ping");
    url.append(data_type.val().as_str());
    url
}

/// Puts together the URL that asks for a new session at the time
/// `timestamp`, around a signature that is given.
pub fn signed_session_url(
    base_url: &UrlConstants,
    data_type: &ReturnDataType,
    id: &str,
    signature: &str,
    timestamp: &str,
) -> (url: String)
    ensures
        url@ == spec_signed_session_url(*base_url, *data_type, id@, signature@, timestamp@),
{
    let mut url: String = base_url.val();
    url.append("/");
    url.append(UrlConstants::CreateSession.val().as_str());
    url.append(data_type.val().as_str());
    url.append("/");
    url.append(id);
    url.append("/");
    url.append(signature);
    url.append("/");
    url.append(timestamp);
    url
}

/// The URL that asks for a new session, signed for the time `timestamp`.
pub fn session_url_at(
    base_url: &UrlConstants,
    data_type: &ReturnDataType,
    id: &str,
    key: &str,
    timestamp: &str,
) -> (url: String)
    ensures
        url@ == spec_session_url(*base_url, *data_type, id@, key@, timestamp@),
{
    let signature = build_signature(id, &UrlConstants::CreateSession, key, timestamp);
    signed_session_url(base_url, data_type, id, signature.as_str(), timestamp)
}

/// The URL that asks for a new session, signed for the current time.
pub fn session_url(base_url: &UrlConstants, data_type: &ReturnDataType, id: &str, key: &str) -> (url:
    String)
    ensures
        exists|now: UtcNow|
            now.wf() && url@ == spec_session_url(
                *base_url,
                *data_type,
                id@,
                key@,
                timestamp_text(now),
            ),
{
    let timestamp = get_timestamp();
    session_url_at(base_url, data_type, id, key, timestamp.as_str())
}

/// Puts together the URL of a call of `method_name` within `session` at the
/// time `timestamp`, around a signature that is given.
pub fn signed_url(
    id: &String,
    signature: &String,
    session: &String,
    base_url: &UrlConstants,
    method_name: &UrlConstants,
    data_type: &ReturnDataType,
    method_specific: &String,
    timestamp: &str,
) -> (url: String)
    ensures
        url@ == spec_signed_url(
            id@,
            signature@,
            session@,
            *base_url,
            *method_name,
            *data_type,
            method_specific@,
            timestamp@,
        ),
{
    let mut url: String = base_url.val();
    url.append("/");
    url.append(method_name.val().as_str());
    url.append(data_type.val().as_str());
    url.append("/");
    url.append(id.as_str());
    url.append("/");
    url.append(signature.as_str());
    url.append("/");
    url.append(session.as_str());
    url.append("/");
    url.append(timestamp);
    url.append(method_specific.as_str());
    url
}

/// The URL of a call of `method_name` within `session`, signed for the time
/// `timestamp`.
pub fn url_at(
    id: &String,
    key: &String,
    session: &String,
    base_url: &UrlConstants,
    method_name: &UrlConstants,
    data_type: &ReturnDataType,
    method_specific: &String,
    timestamp: &str,
) -> (url: String)
    ensures
        url@ == spec_url(
            id@,
            key@,
            session@,
            *base_url,
            *method_name,
            *data_type,
            method_specific@,
            timestamp@,
        ),
{
    let signature = build_signature(id.as_str(), method_name, key.as_str(), timestamp);
    signed_url(id, &signature, session, base_url, method_name, data_type, method_specific, timestamp)
}

/// The URL of a call of `method_name` within `session`, signed for the
/// current time.
pub fn url(
    id: &String,
    key: &String,
    session: &String,
    base_url: &UrlConstants,
    method_name: &UrlConstants,
    data_type: &ReturnDataType,
    method_specific: &String,
) -> (url: String)
    ensures
        exists|now: UtcNow|
            now.wf() && url@ == spec_url(
                id@,
                key@,
                session@,
                *base_url,
                *method_name,
                *data_type,
                method_specific@,
                timestamp_text(now),
            ),
{
    let timestamp = get_timestamp();
    url_at(id, key, session, base_url, method_name, data_type, method_specific, timestamp.as_str())
}

} // verus!
