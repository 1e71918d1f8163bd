//! Uploading a log to the Parsely.io service: the file prepared as the
//! service expects it, the form fields sent with it, and the reply read back.
use crate::text::{char_start, chars_of, lemma_after_ascii, lemma_str_valid, sub_string};
use std::io::Write;
use vstd::prelude::*;
use vstd::string::*;
use vstd::utf8::*;

verus! {

/// Response from Parsely upload
#[derive(Debug)]
pub struct ParselyUploadResponse {
    pub success: bool,
    pub link: Option<String>,
    pub error: Option<String>,
}

/// `p` occurs in `s` at byte offset `i`.
pub open spec fn occurs_at(s: Seq<u8>, p: Seq<u8>, i: int) -> bool {
    0 <= i && i + p.len() <= s.len() && s.subrange(i, i + p.len()) == p
}

/// The first offset at or after `i` where `p` occurs in `s`.
pub open spec fn find_from(s: Seq<u8>, p: Seq<u8>, i: int) -> Option<int>
    decreases s.len() + 1 - i,
{
    if i < 0 || i + p.len() > s.len() {
        None
    } else if occurs_at(s, p, i) {
        Some(i)
    } else {
        find_from(s, p, i + 1)
    }
}

/// `str::find` with a string pattern, on bytes: the first offset where `p`
/// occurs in `s`.
pub open spec fn find_bytes(s: Seq<u8>, p: Seq<u8>) -> Option<int> {
    find_from(s, p, 0)
}

/// The UTF-8 bytes of an ASCII text.
pub open spec fn ascii(t: Seq<char>) -> Seq<u8> {
    t.map_values(|c: char| c as u8)
}

/// The reply reports a failure: it holds `NOT OK` or `error`.
pub open spec fn reports_failure(x: Seq<u8>) -> bool {
    find_bytes(x, ascii("NOT OK"@)) is Some || find_bytes(x, ascii("error"@)) is Some
}

/// Where the link lies in a reply: from just after the first `<file>` to the
/// first `</file>`.
pub open spec fn link_bounds(x: Seq<u8>) -> Option<(int, int)> {
    match (find_bytes(x, ascii("<file>"@)), find_bytes(x, ascii("</file>"@))) {
        (Some(s), Some(e)) => Some((s + 6, e)),
        _ => None,
    }
}

/// The first `</file>` does not come before the end of the first `<file>`
/// (cutting the link out of such a reply would panic).
pub open spec fn link_well_placed(x: Seq<u8>) -> bool {
    !reports_failure(x) ==> match link_bounds(x) {
        Some((a, b)) => a <= b,
        None => true,
    }
}

/// Whether `p` occurs in `s` at offset `i`.
fn occurs_at_exec(s: &[u8], p: &[u8], i: usize) -> (r: bool)
    requires
        i + p@.len() <= s@.len(),
    ensures
        r == occurs_at(s@, p@, i as int),
{
    let mut k: usize = 0;
    while k < p.len()
        invariant
            i + p@.len() <= s.len(),
            k <= p@.len(),
            forall|j: int| 0 <= j < k ==> s@[i + j] == p@[j],
        decreases p@.len() - k,
    {
        if s[i + k] != p[k] {
            proof {
                assert(s@.subrange(i as int, i + p@.len())[k as int] != p@[k as int]);
            }
            return false;
        }
        k = k + 1;
    }
    proof {
        assert(s@.subrange(i as int, i + p@.len()) =~= p@);
    }
    true
}

/// The first offset where `p` occurs in `s`.
pub fn find_subslice(s: &[u8], p: &[u8]) -> (r: Option<usize>)
    ensures
        match r {
            Some(i) => find_bytes(s@, p@) == Some(i as int),
            None => find_bytes(s@, p@) is None,
        },
{
    if p.len() > s.len() {
        return None;
    }
    let last = s.len() - p.len();
    let mut i: usize = 0;
    loop
        invariant
            p@.len() <= s@.len(),
            last == s@.len() - p@.len(),
            i <= last,
            find_bytes(s@, p@) == find_from(s@, p@, i as int),
        decreases last - i,
    {
        if occurs_at_exec(s, p, i) {
            return Some(i);
        }
        if i == last {
            return None;
        }
        i = i + 1;
    }
}

/// What [`find_from`] finds is an occurrence, the first from `i` on.
pub proof fn lemma_find_from(s: Seq<u8>, p: Seq<u8>, i: int)
    requires
        0 <= i,
    ensures
        match find_from(s, p, i) {
            Some(j) => i <= j && occurs_at(s, p, j) && forall|k: int|
                i <= k < j ==> !occurs_at(s, p, k),
            None => forall|k: int| i <= k ==> !occurs_at(s, p, k),
        },
    decreases s.len() + 1 - i,
{
    if !(i < 0 || i + p.len() > s.len()) && !occurs_at(s, p, i) {
        lemma_find_from(s, p, i + 1);
    }
}

proof fn lemma_ascii_bytes(s: &str)
    requires
        is_ascii_chars(s@),
    ensures
        s.spec_bytes() == ascii(s@),
{
    is_ascii_chars_encode_utf8(s@);
    assert(s.spec_bytes() =~= ascii(s@));
}

/// Parse Parsely XML response.
///
/// A reply that reports a failure is returned as the error; otherwise the
/// link between `<file>` and `</file>` is the result, and a reply without
/// one is an unexpected response.
pub fn parse_parsely_response(xml: &str) -> (r: Result<ParselyUploadResponse, String>)
    requires
        link_well_placed(xml.spec_bytes()),
    ensures
        match r {
            Ok(resp) => {
                let x = xml.spec_bytes();
                if reports_failure(x) {
                    &&& !resp.success
                    &&& resp.link is None
                    &&& resp.error matches Some(e) && e@ == xml@
                } else if link_bounds(x) is Some {
                    let (a, b) = link_bounds(x)->0;
                    &&& resp.success
                    &&& resp.link matches Some(l) && l@ == chars_of(x.subrange(a, b))
                    &&& resp.error is None
                } else {
                    &&& !resp.success
                    &&& resp.link is None
                    &&& resp.error matches Some(e) && e@ == "Unexpected response: "@ + xml@
                }
            },
            Err(_) => false,
        },
{
    let bytes = xml.as_bytes();
    let not_ok = "NOT OK";
    let error = "error";
    let open_tag = "<file>";
    let close_tag = "</file>";
    proof {
        reveal_strlit("NOT OK");
        reveal_strlit("error");
        reveal_strlit("<file>");
        reveal_strlit("</file>");
        lemma_ascii_bytes(not_ok);
        lemma_ascii_bytes(error);
        lemma_ascii_bytes(open_tag);
        lemma_ascii_bytes(close_tag);
    }
    // Check for errors
    if find_subslice(bytes, not_ok.as_bytes()).is_some() || find_subslice(
        bytes,
        error.as_bytes(),
    ).is_some() {
        return Ok(ParselyUploadResponse { success: false, link: None, error: Some(xml.to_owned()) });
    }
    // Extract link from <file> element

    if let Some(start) = find_subslice(bytes, open_tag.as_bytes()) {
        if let Some(end) = find_subslice(bytes, close_tag.as_bytes()) {
            proof {
                let x = xml.spec_bytes();
                lemma_str_valid(xml);
                lemma_find_from(x, ascii("<file>"@), 0);
                lemma_find_from(x, ascii("</file>"@), 0);
                assert(x.subrange(start as int, start + 6) == ascii("<file>"@));
                assert(x[start + 5] == x.subrange(start as int, start + 6)[5]);
                lemma_after_ascii(x, start + 5);
                assert(x[end as int] == x.subrange(end as int, end + 7)[0]);
                assert(char_start(x, end as int));
            }
            let link = sub_string(xml, start + 6, end);
            return Ok(ParselyUploadResponse { success: true, link: Some(link), error: None });
        }
    }
    let mut msg = String::from_str("Unexpected response: ");
    msg.append(xml);
    Ok(ParselyUploadResponse { success: false, link: None, error: Some(msg) })
}

// ───────────────────────── what is sent ─────────────────────────

/// The text `s` encoded as Windows-1252, as `encoding_rs` does it (characters
/// that Windows-1252 cannot hold become numeric character references).
pub uninterp spec fn windows_1252_of(s: Seq<char>) -> Seq<u8>;

/// The bytes `d` gzip-compressed by `flate2` at the default level, with
/// flate2's default header (time stamp 0, no name, no comment).
pub uninterp spec fn gzip_of(d: Seq<u8>) -> Seq<u8>;

/// Calls `encoding_rs::WINDOWS_1252.encode` and takes the bytes. Claimed: they
/// are [`windows_1252_of`] of the text, a function of the text alone.
#[verifier::external_body]
fn encode_windows_1252(s: &str) -> (r: Vec<u8>)
    ensures
        r@ == windows_1252_of(s@),
{
    let (encoded, _, _) = encoding_rs::WINDOWS_1252.encode(s);
    encoded.into_owned()
}

/// Calls `flate2::write::GzEncoder` over a `Vec` at the default level: writes
/// `d`, then finishes. Claimed: the result is `Ok` and holds [`gzip_of`] of
/// `d`. flate2 reports only the errors of the writer it writes into, and
/// writing into a `Vec` does not fail.
#[verifier::external_body]
fn gzip_bytes(d: &[u8]) -> (r: Result<Vec<u8>, String>)
    ensures
        r is Ok,
        r matches Ok(v) ==> v@ == gzip_of(d@),
{
    let mut encoder = flate2::write::GzEncoder::new(Vec::new(), flate2::Compression::default());
    match encoder.write_all(d) {
        Ok(()) => {},
        Err(e) => return Err(e.to_string()),
    }
    match encoder.finish() {
        Ok(v) => Ok(v),
        Err(e) => Err(e.to_string()),
    }
}

/// The log text as the service takes it: encoded as Windows-1252, then
/// gzip-compressed.  Compressing into memory does not fail, so the result is
/// always `Ok`.
pub fn prepare_upload(log_content: &str) -> (r: Result<Vec<u8>, String>)
    ensures
        r is Ok,
        r matches Ok(v) ==> v@ == gzip_of(windows_1252_of(log_content@)),
{
    let encoded = encode_windows_1252(log_content);
    match gzip_bytes(encoded.as_slice()) {
        Ok(v) => Ok(v),
        Err(e) => {
            let mut m = String::from_str("Failed to compress: ");
            m.append(e.as_str());
            Err(m)
        },
    }
}

/// The text fields sent with an upload: `public=1` always; the username and
/// password when a username is set; the guild when a username and a guild
/// are both set.
pub open spec fn form_fields(username: Seq<char>, password: Seq<char>, guild: Seq<char>) -> Seq<
    (Seq<char>, Seq<char>),
> {
    let base = seq![("public"@, "1"@)];
    if username.len() == 0 {
        base
    } else if guild.len() == 0 {
        base + seq![("username"@, username), ("password"@, password)]
    } else {
        base + seq![("username"@, username), ("password"@, password), ("guild"@, guild)]
    }
}

/// The views of the fields.
pub open spec fn field_views(fs: Seq<(String, String)>) -> Seq<(Seq<char>, Seq<char>)> {
    fs.map_values(|f: (String, String)| (f.0@, f.1@))
}

/// The text fields sent with an upload, in order: `public=1`, then the
/// username and password if the username is not empty, then the guild if
/// the guild is not empty either.
pub fn upload_form_fields(username: &str, password: &str, guild: &str) -> (r: Vec<(String, String)>)
    ensures
        field_views(r@) == form_fields(username@, password@, guild@),
{
    let mut r: Vec<(String, String)> = Vec::new();
    r.push((String::from_str("public"), String::from_str("1")));
    if !username.is_empty() {
        r.push((String::from_str("username"), username.to_owned()));
        r.push((String::from_str("password"), password.to_owned()));
        if !guild.is_empty() {
            r.push((String::from_str("guild"), guild.to_owned()));
        }
    }
    proof {
        assert(field_views(r@) =~= form_fields(username@, password@, guild@));
    }
    r
}

// ───────────────────────── what comes back ─────────────────────────

/// Whether a reply can be read: [`parse_parsely_response`] takes every reply
/// for which this is true; on the others, cutting the link out would panic.
pub fn can_parse_parsely_response(xml: &str) -> (r: bool)
    ensures
        r == link_well_placed(xml.spec_bytes()),
{
    let bytes = xml.as_bytes();
    let not_ok = "NOT OK";
    let error = "error";
    let open_tag = "<file>";
    let close_tag = "</file>";
    proof {
        reveal_strlit("NOT OK");
        reveal_strlit("error");
        reveal_strlit("<file>");
        reveal_strlit("</file>");
        lemma_ascii_bytes(not_ok);
        lemma_ascii_bytes(error);
        lemma_ascii_bytes(open_tag);
        lemma_ascii_bytes(close_tag);
    }
    if find_subslice(bytes, not_ok.as_bytes()).is_some() || find_subslice(
        bytes,
        error.as_bytes(),
    ).is_some() {
        return true;
    }
    match (find_subslice(bytes, open_tag.as_bytes()), find_subslice(bytes, close_tag.as_bytes())) {
        (Some(a), Some(b)) => a <= b && b - a >= 6,
        _ => true,
    }
}

} // verus!
