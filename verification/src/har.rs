//! HTTP Archive (HAR 1.2) records, the lookup table used to answer requests
//! from a recorded archive, and the text helpers of the recorder: query
//! strings, percent-decoding, protocol names, content types and ISO 8601
//! timestamps.

use vstd::prelude::*;
use vstd::utf8::encode_utf8;

use crate::num::{decimal, decimal_padded, u64_to_decimal_padded};
use crate::text::{chars_of, find, find_char_from, lemma_find, occurs_at, push_char, push_str, slice_chars, string_of};

verus! {

// ---------------------------------------------------------------------------
// Records
// ---------------------------------------------------------------------------

/// Creator metadata embedded in the HAR log.
#[derive(Debug, Clone)]
pub struct HarCreator {
    /// Producer tool name.
    pub name: String,
    /// Producer tool version.
    pub version: String,
}

/// A single HTTP header (or query parameter) name/value pair.
#[derive(Debug, Clone)]
pub struct HarHeader {
    /// Header name.
    pub name: String,
    /// Header value.
    pub value: String,
}

impl View for HarHeader {
    type V = (Seq<char>, Seq<char>);

    open spec fn view(&self) -> (Seq<char>, Seq<char>) {
        (self.name@, self.value@)
    }
}

/// The views of a list of headers.
pub open spec fn headers_view(v: Seq<HarHeader>) -> Seq<(Seq<char>, Seq<char>)> {
    v.map_values(|h: HarHeader| h@)
}

/// POST body recorded in a HAR request.
#[derive(Debug, Clone)]
pub struct HarPostData {
    /// `Content-Type` of the request body.
    pub mime_type: String,
    /// Request body text.
    pub text: String,
}

/// HAR request object.
#[derive(Debug, Clone)]
pub struct HarRequest {
    /// HTTP method (`GET`, `POST`, …).
    pub method: String,
    /// Full request URL.
    pub url: String,
    /// Negotiated HTTP version.
    pub http_version: String,
    /// Request headers in order.
    pub headers: Vec<HarHeader>,
    /// Query-string parameters parsed from the URL.
    pub query_string: Vec<HarHeader>,
    /// The request body, if any.
    pub post_data: Option<HarPostData>,
    /// `-1`: not computed.
    pub headers_size: i64,
    /// Byte length of the request body, or `-1`.
    pub body_size: i64,
}

/// Response content recorded in a HAR entry.
#[derive(Debug, Clone)]
pub struct HarContent {
    /// Decoded response body size in bytes (`-1` if unknown).
    pub size: i64,
    /// Bytes saved by compression, if known.
    pub compression: Option<i64>,
    /// Response `Content-Type`.
    pub mime_type: String,
    /// Response body text, or base64 (see `encoding`).
    pub text: Option<String>,
    /// `"base64"` when `text` is base64-encoded binary data.
    pub encoding: Option<String>,
}

/// HAR response object.
#[derive(Debug, Clone)]
pub struct HarResponse {
    /// HTTP status code.
    pub status: u16,
    /// Status reason phrase.
    pub status_text: String,
    /// Negotiated HTTP version.
    pub http_version: String,
    /// Response headers in order.
    pub headers: Vec<HarHeader>,
    /// Response body and metadata.
    pub content: HarContent,
    /// Empty when there is no redirect.
    pub redirect_url: String,
    /// `-1`: not computed.
    pub headers_size: i64,
    /// Encoded body length, or `-1`.
    pub body_size: i64,
}

/// The entries of a JSON object, each key with its value's text when the
/// value is a string.
pub type JsonStringEntries = Vec<(String, Option<String>)>;

/// The entries of the JSON value `v` when it is an object, in the order of
/// its map, each key with the text of its value when that is a string;
/// `None` when `v` is not an object.
pub uninterp spec fn json_entries_of(v: serde_json::Value) -> Option<Seq<(Seq<char>, Option<Seq<char>>)>>;

/// `serde_json::Value::as_object`, each entry's key with
/// `Value::as_str` of its value; `None` when the value is not an object.
///
/// Trusted: the entries are those named by `json_entries_of`, a function of
/// the value alone (serde_json's map iterates in an order that the value
/// itself fixes).
#[verifier::external_body]
fn json_string_entries(v: &serde_json::Value) -> (r: Option<JsonStringEntries>)
    ensures
        entries_view(r) == json_entries_of(*v),
{
    v.as_object().map(|obj| obj.iter().map(|(k, x)| (k.clone(), x.as_str().map(|t| t.to_owned()))).collect())
}

/// Headers from the entries of a protocol `Headers` object: each key with
/// its value's text, or an empty value when that is not a string; no
/// headers when the object was not one.
pub open spec fn spec_headers_from_entries(e: Option<Seq<(Seq<char>, Option<Seq<char>>)>>) -> Seq<(Seq<char>, Seq<char>)> {
    match e {
        Some(es) => es.map_values(
            |p: (Seq<char>, Option<Seq<char>>)|
                (
                    p.0,
                    match p.1 {
                        Some(t) => t,
                        None => seq![],
                    },
                ),
        ),
        None => seq![],
    }
}

/// The entries as plain text.
pub open spec fn entries_view(e: Option<JsonStringEntries>) -> Option<Seq<(Seq<char>, Option<Seq<char>>)>> {
    match e {
        Some(v) => Some(
            v@.map_values(
                |p: (String, Option<String>)|
                    (
                        p.0@,
                        match p.1 {
                            Some(t) => Some(t@),
                            None => None,
                        },
                    ),
            ),
        ),
        None => None,
    }
}

/// The headers of the entries of a protocol `Headers` object.
pub fn headers_from_entries(entries: Option<JsonStringEntries>) -> (r: Vec<HarHeader>)
    ensures
        headers_view(r@) == spec_headers_from_entries(entries_view(entries)),
{
    let ghost ev = entries_view(entries);
    let mut r: Vec<HarHeader> = Vec::new();
    match entries {
        Some(es) => {
            let ghost all = ev->0;
            let mut i: usize = 0;
            while i < es.len()
                invariant
                    i <= es@.len(),
                    all == entries_view(Some(es))->0,
                    headers_view(r@) == spec_headers_from_entries(Some(all.take(i as int))),
                decreases es@.len() - i,
            {
                let name = es[i].0.clone();
                let value = match &es[i].1 {
                    Some(t) => t.clone(),
                    None => String::new(),
                };
                let ghost before = r@;
                r.push(HarHeader { name, value });
                proof {
                    assert(all.take(i + 1) =~= all.take(i as int).push(all[i as int]));
                    assert(headers_view(r@) =~= headers_view(before).push((name@, value@)));
                    assert(spec_headers_from_entries(Some(all.take(i + 1))) =~= spec_headers_from_entries(
                        Some(all.take(i as int)),
                    ).push((name@, value@)));
                }
                i = i + 1;
            }
            assert(all.take(es@.len() as int) =~= all);
        },
        None => {
            assert(headers_view(r@) =~= seq![]);
        },
    }
    r
}

/// The headers of a protocol `Headers` object: one per entry, in the
/// object's order, with an empty value where the value is not a string; none
/// when the value is not an object.
pub fn cdp_headers_to_har(headers: &serde_json::Value) -> (r: Vec<HarHeader>)
    ensures
        headers_view(r@) == spec_headers_from_entries(json_entries_of(*headers)),
{
    let entries = json_string_entries(headers);
    headers_from_entries(entries)
}

/// What to do when no archived entry matches a request.
#[derive(Debug, Clone, Copy, PartialEq, Eq, Structural)]
pub enum HarNotFound {
    /// Continue the request normally (the default).
    Continue,
    /// Abort the request with a network error.
    Abort,
}

impl Default for HarNotFound {
    fn default() -> (n: Self)
        ensures
            n == HarNotFound::Continue,
    {
        HarNotFound::Continue
    }
}

/// Options for answering requests from an archive.
#[derive(Debug, Clone)]
pub struct HarOptions {
    /// What to do when no entry matches.
    pub not_found: HarNotFound,
    /// URL glob limiting which requests are answered from the archive;
    /// `None` matches all.
    pub url: Option<String>,
}

impl Default for HarOptions {
    fn default() -> (o: Self)
        ensures
            o.not_found == HarNotFound::Continue,
            o.url is None,
    {
        HarOptions { not_found: HarNotFound::Continue, url: None }
    }
}

/// Options of the archive recorder.
#[derive(Debug, Clone)]
pub struct HarRecordingOptions {
    /// Fetch response bodies too.
    pub capture_body: bool,
}

impl Default for HarRecordingOptions {
    fn default() -> (o: Self)
        ensures
            o.capture_body,
    {
        HarRecordingOptions { capture_body: true }
    }
}

// ---------------------------------------------------------------------------
// Answering requests from an archive
// ---------------------------------------------------------------------------

/// An archived request as read back for playback.
#[derive(Debug, Clone)]
pub struct HarPlaybackRequest {
    pub method: String,
    pub url: String,
}

/// An archived header as read back for playback.
#[derive(Debug, Clone)]
pub struct HarPlaybackHeader {
    pub name: String,
    pub value: String,
}

/// An archived body as read back for playback.
#[derive(Debug, Clone)]
pub struct HarPlaybackContent {
    pub text: Option<String>,
    pub mime_type: Option<String>,
    /// `"base64"` when `text` is base64-encoded.
    pub encoding: Option<String>,
}

/// An archived response as read back for playback.
#[derive(Debug, Clone)]
pub struct HarPlaybackResponse {
    pub status: u16,
    pub headers: Vec<HarPlaybackHeader>,
    pub content: HarPlaybackContent,
}

/// One archived request/response pair.
#[derive(Debug, Clone)]
pub struct HarPlaybackEntry {
    pub request: HarPlaybackRequest,
    pub response: HarPlaybackResponse,
}

/// The entries of an archive read back for playback.
#[derive(Debug, Clone)]
pub struct HarPlayback {
    pub entries: Vec<HarPlaybackEntry>,
}

/// The uppercase form of `s` (`str::to_uppercase`).
pub uninterp spec fn uppercase(s: Seq<char>) -> Seq<char>;

/// `str::to_uppercase`.
///
/// Trusted: the result is the uppercase form named by `uppercase`, a
/// function of the text alone (Unicode case mapping, no locale).
#[verifier::external_body]
fn to_uppercase(s: &str) -> (r: String)
    ensures
        r@ == uppercase(s@),
{
    s.to_uppercase()
}

/// A table answering requests from an archive: per entry, the uppercased
/// method, the URL and the response.
pub struct HarLookup {
    pub entries: Vec<(String, String, HarPlaybackResponse)>,
}

/// The position of the first entry whose method and URL are `method` and
/// `url`.
pub open spec fn first_match(
    entries: Seq<(String, String, HarPlaybackResponse)>,
    method: Seq<char>,
    url: Seq<char>,
) -> Option<int>
    decreases entries.len(),
{
    if entries.len() == 0 {
        None
    } else if entries[0].0@ == method && entries[0].1@ == url {
        Some(0)
    } else {
        match first_match(entries.drop_first(), method, url) {
            Some(j) => Some(j + 1),
            None => None,
        }
    }
}

proof fn lemma_first_match(
    entries: Seq<(String, String, HarPlaybackResponse)>,
    method: Seq<char>,
    url: Seq<char>,
    k: int,
)
    requires
        0 <= k <= entries.len(),
        forall|j: int| 0 <= j < k ==> !(entries[j].0@ == method && entries[j].1@ == url),
    ensures
        k < entries.len() && entries[k].0@ == method && entries[k].1@ == url ==> first_match(
            entries,
            method,
            url,
        ) == Some(k),
        k == entries.len() ==> first_match(entries, method, url) is None,
    decreases k,
{
    if k > 0 {
        lemma_first_match(entries.drop_first(), method, url, k - 1);
    }
}

impl HarLookup {
    /// The table of an archive: each entry keyed by its uppercased method
    /// and its URL, in archive order.
    pub fn from_har(har: HarPlayback) -> (t: Self)
        ensures
            t.entries@.len() == har.entries@.len(),
            forall|i: int|
                0 <= i < t.entries@.len() ==> {
                    &&& (#[trigger] t.entries@[i]).0@ == uppercase(har.entries@[i].request.method@)
                    &&& t.entries@[i].1@ == har.entries@[i].request.url@
                    &&& t.entries@[i].2 == har.entries@[i].response
                },
    {
        let mut entries: Vec<(String, String, HarPlaybackResponse)> = Vec::new();
        let mut src = har.entries;
        let ghost all = src@;
        let mut rev: Vec<HarPlaybackEntry> = Vec::new();
        while src.len() > 0
            invariant
                rev@.len() + src@.len() == all.len(),
                src@ == all.take(src@.len() as int),
                forall|k: int| 0 <= k < rev@.len() ==> #[trigger] rev@[k] == all[all.len() - 1 - k],
            decreases src@.len(),
        {
            let e = src.pop().unwrap();
            rev.push(e);
            assert(src@ =~= all.take(src@.len() as int));
        }
        while rev.len() > 0
            invariant
                rev@.len() + entries@.len() == all.len(),
                forall|k: int| 0 <= k < rev@.len() ==> #[trigger] rev@[k] == all[all.len() - 1 - k],
                forall|i: int|
                    0 <= i < entries@.len() ==> {
                        &&& (#[trigger] entries@[i]).0@ == uppercase(all[i].request.method@)
                        &&& entries@[i].1@ == all[i].request.url@
                        &&& entries@[i].2 == all[i].response
                    },
            decreases rev@.len(),
        {
            let e = rev.pop().unwrap();
            let m = to_uppercase(e.request.method.as_str());
            entries.push((m, e.request.url, e.response));
        }
        HarLookup { entries }
    }

    /// The response of the first entry whose method and URL match; the
    /// method is compared uppercased.
    pub fn lookup(&self, method: &str, url: &str) -> (r: Option<&HarPlaybackResponse>)
        ensures
            match first_match(self.entries@, uppercase(method@), url@) {
                Some(k) => r == Some(&self.entries@[k].2),
                None => r is None,
            },
    {
        let m = to_uppercase(method);
        let mut k: usize = 0;
        while k < self.entries.len()
            invariant
                m@ == uppercase(method@),
                k <= self.entries@.len(),
                forall|j: int|
                    0 <= j < k ==> !(self.entries@[j].0@ == m@ && self.entries@[j].1@ == url@),
            decreases self.entries@.len() - k,
        {
            let e = &self.entries[k];
            if e.0 == m && same_text(e.1.as_str(), url) {
                proof {
                    lemma_first_match(self.entries@, m@, url@, k as int);
                }
                return Some(&e.2);
            }
            k = k + 1;
        }
        proof {
            lemma_first_match(self.entries@, m@, url@, k as int);
        }
        None
    }
}

fn same_text(a: &str, b: &str) -> (r: bool)
    ensures
        r == (a@ == b@),
{
    let av = chars_of(a);
    crate::text::eq_str(av.as_slice(), b)
}


// ---------------------------------------------------------------------------
// Recorder helpers: query strings and percent-decoding
// ---------------------------------------------------------------------------

/// The value of a hexadecimal digit byte (`0-9`, `a-f`, `A-F`).
pub open spec fn hex_value(b: u8) -> Option<u8> {
    if 48 <= b <= 57 {
        Some((b - 48) as u8)
    } else if 97 <= b <= 102 {
        Some((b - 97 + 10) as u8)
    } else if 65 <= b <= 70 {
        Some((b - 65 + 10) as u8)
    } else {
        None
    }
}

/// The value of a hexadecimal digit byte.
pub fn hex_digit(b: u8) -> (r: Option<u8>)
    ensures
        r == hex_value(b),
{
    if 48 <= b && b <= 57 {
        Some(b - 48)
    } else if 97 <= b && b <= 102 {
        Some(b - 97 + 10)
    } else if 65 <= b && b <= 70 {
        Some(b - 65 + 10)
    } else {
        None
    }
}

/// Percent-decoding of the bytes `b`: `+` becomes a space, `%XX` with two
/// hex digits becomes the byte `XX`, and every other byte (a `%` without
/// two hex digits after it too) stands for itself; each resulting byte is
/// read as the character with that code.
pub open spec fn percent_decoded(b: Seq<u8>) -> Seq<char>
    decreases b.len(),
{
    if b.len() == 0 {
        seq![]
    } else if b[0] == 43 {
        seq![' '] + percent_decoded(b.skip(1))
    } else if b[0] == 37 && 2 < b.len() && hex_value(b[1]) is Some && hex_value(b[2]) is Some {
        seq![((hex_value(b[1])->0 * 16 + hex_value(b[2])->0) as u8) as char] + percent_decoded(
            b.skip(3),
        )
    } else {
        seq![b[0] as char] + percent_decoded(b.skip(1))
    }
}

/// Percent-decode `s` (`+` as space, `%XX` escapes), byte by byte.
pub fn percent_decode(s: &str) -> (r: String)
    ensures
        r@ == percent_decoded(encode_utf8(s@)),
{
    let bytes = s.as_bytes();
    let ghost b = bytes@;
    let mut out = String::new();
    let mut i: usize = 0;
    assert(b.skip(0) =~= b);
    assert(out@ + percent_decoded(b) =~= percent_decoded(b));
    while i < bytes.len()
        invariant
            b == bytes@,
            i <= b.len(),
            out@ + percent_decoded(b.skip(i as int)) == percent_decoded(b),
        decreases b.len() - i,
    {
        let ghost rest = b.skip(i as int);
        assert(rest[0] == b[i as int]);
        if bytes[i] == 43 {
            push_char(&mut out, ' ');
            assert(rest.skip(1) =~= b.skip(i + 1));
            i = i + 1;
        } else if bytes[i] == 37 && bytes.len() - i > 2 {
            assert(rest[1] == b[i + 1] && rest[2] == b[i + 2]);
            match (hex_digit(bytes[i + 1]), hex_digit(bytes[i + 2])) {
                (Some(hi), Some(lo)) => {
                    let v: u8 = hi * 16 + lo;
                    push_char(&mut out, v as char);
                    assert(rest.skip(3) =~= b.skip(i + 3));
                    i = i + 3;
                },
                _ => {
                    push_char(&mut out, '%');
                    assert(rest.skip(1) =~= b.skip(i + 1));
                    i = i + 1;
                },
            }
        } else {
            push_char(&mut out, bytes[i] as char);
            assert(rest.skip(1) =~= b.skip(i + 1));
            i = i + 1;
        }
        assert(out@ + percent_decoded(b.skip(i as int)) =~= percent_decoded(b));
    }
    assert(b.skip(i as int) =~= seq![]);
    assert(out@ =~= percent_decoded(b));
    out
}

/// The parts of `s` between the occurrences of `c`.
pub open spec fn split_on(s: Seq<char>, c: char) -> Seq<Seq<char>>
    decreases s.len(),
{
    match find(s, seq![c]) {
        Some(p) => {
            proof {
                lemma_find(s, seq![c]);
            }
            if 0 <= p < s.len() {
                seq![s.take(p)] + split_on(s.skip(p + 1), c)
            } else {
                seq![s]
            }
        },
        None => seq![s],
    }
}

/// The views of a list of character vectors.
pub open spec fn char_vecs(v: Seq<Vec<char>>) -> Seq<Seq<char>> {
    v.map_values(|x: Vec<char>| x@)
}

/// The parts of `v` between the occurrences of `c`.
fn split_chars(v: &[char], c: char) -> (r: Vec<Vec<char>>)
    ensures
        char_vecs(r@) == split_on(v@, c),
{
    let mut r: Vec<Vec<char>> = Vec::new();
    let mut start: usize = 0;
    let n = v.len();
    assert(v@.skip(0) =~= v@);
    assert(char_vecs(r@) + split_on(v@, c) =~= split_on(v@, c));
    loop
        invariant
            n == v@.len(),
            start <= v@.len(),
            char_vecs(r@) + split_on(v@.skip(start as int), c) == split_on(v@, c),
        decreases v@.len() - start,
    {
        let ghost rest = v@.skip(start as int);
        let ghost before = r@;
        match find_char_from(v, c, start) {
            Some(i) => {
                proof {
                    lemma_find(rest, seq![c]);
                    assert(rest.take(i - start) =~= v@.subrange(start as int, i as int));
                    assert(rest.skip(i - start + 1) =~= v@.skip(i + 1));
                }
                let piece = slice_chars(v, start, i);
                r.push(piece);
                assert(char_vecs(r@) =~= char_vecs(before).push(piece@));
                assert(char_vecs(r@) + split_on(v@.skip(i + 1), c) =~= split_on(v@, c));
                start = i + 1;
            },
            None => {
                let piece = slice_chars(v, start, v.len());
                r.push(piece);
                assert(piece@ =~= rest);
                assert(char_vecs(r@) =~= char_vecs(before).push(piece@));
                assert(char_vecs(r@) =~= split_on(v@, c));
                return r;
            },
        }
    }
}

/// One query parameter: the percent-decoded text before the first `=`
/// and after it, or the whole pair and an empty value.
pub open spec fn query_pair(p: Seq<char>) -> (Seq<char>, Seq<char>) {
    match find(p, seq!['=']) {
        Some(e) => (percent_decoded(encode_utf8(p.take(e))), percent_decoded(encode_utf8(p.skip(e + 1)))),
        None => (percent_decoded(encode_utf8(p)), seq![]),
    }
}

/// The parameters of the non-empty pairs, in order.
pub open spec fn query_pairs(pairs: Seq<Seq<char>>) -> Seq<(Seq<char>, Seq<char>)>
    decreases pairs.len(),
{
    if pairs.len() == 0 {
        seq![]
    } else {
        let r = query_pairs(pairs.drop_last());
        if pairs.last().len() == 0 {
            r
        } else {
            r.push(query_pair(pairs.last()))
        }
    }
}

/// The text before the first `c` in `s`, or all of `s`.
pub open spec fn before_first(s: Seq<char>, c: char) -> Seq<char> {
    match find(s, seq![c]) {
        Some(p) => s.take(p),
        None => s,
    }
}

/// The query parameters of a URL: after the first `?` and before the next
/// `#`, split at `&`, empty pairs dropped, each pair split at its first
/// `=` and percent-decoded. No `?`, no parameters.
pub open spec fn spec_query_string(url: Seq<char>) -> Seq<(Seq<char>, Seq<char>)> {
    match find(url, seq!['?']) {
        Some(q) => query_pairs(split_on(before_first(url.skip(q + 1), '#'), '&')),
        None => seq![],
    }
}

fn query_param(p: &Vec<char>) -> (h: HarHeader)
    ensures
        h@ == query_pair(p@),
{
    let ps = p.as_slice();
    let n = ps.len();
    match find_char_from(ps, '=', 0) {
        Some(e) => {
            assert(p@.skip(0) =~= p@);
            proof {
                lemma_find(p@, seq!['=']);
            }
            let n = slice_chars(ps, 0, e);
            let name = string_of(n.as_slice());
            let w = slice_chars(ps, e + 1, p.len());
            let value = string_of(w.as_slice());
            assert(n@ =~= p@.take(e as int));
            assert(w@ =~= p@.skip(e + 1));
            HarHeader {
                name: percent_decode(name.as_str()),
                value: percent_decode(value.as_str()),
            }
        },
        None => {
            assert(p@.skip(0) =~= p@);
            let name = string_of(ps);
            HarHeader { name: percent_decode(name.as_str()), value: String::new() }
        },
    }
}

/// The query parameters of `url` as name/value records.
pub fn parse_query_string(url: &str) -> (r: Vec<HarHeader>)
    ensures
        headers_view(r@) == spec_query_string(url@),
{
    let v = chars_of(url);
    let n = v.len();
    assert(v@.skip(0) =~= v@);
    let q = match find_char_from(v.as_slice(), '?', 0) {
        Some(q) => q,
        None => {
            let r: Vec<HarHeader> = Vec::new();
            assert(headers_view(r@) =~= seq![]);
            return r;
        },
    };
    proof {
        lemma_find(v@, seq!['?']);
    }
    let query = slice_chars(v.as_slice(), q + 1, v.len());
    assert(query@ =~= url@.skip(q + 1));
    let query = match find_char_from(query.as_slice(), '#', 0) {
        Some(h) => {
            assert(query@.skip(0) =~= query@);
            proof {
                lemma_find(query@, seq!['#']);
            }
            let t = slice_chars(query.as_slice(), 0, h);
            assert(t@ =~= before_first(url@.skip(q + 1), '#'));
            t
        },
        None => {
            assert(query@.skip(0) =~= query@);
            query
        },
    };
    let pairs = split_chars(query.as_slice(), '&');
    let ghost ps = char_vecs(pairs@);
    let mut out: Vec<HarHeader> = Vec::new();
    let mut k: usize = 0;
    while k < pairs.len()
        invariant
            k <= pairs@.len(),
            ps == char_vecs(pairs@),
            headers_view(out@) == query_pairs(ps.take(k as int)),
        decreases pairs@.len() - k,
    {
        proof {
            assert(ps.take(k + 1).drop_last() =~= ps.take(k as int));
        }
        let ghost before = out@;
        if pairs[k].len() > 0 {
            let h = query_param(&pairs[k]);
            out.push(h);
            assert(headers_view(out@) =~= headers_view(before).push(h@));
        }
        k = k + 1;
    }
    assert(ps.take(pairs@.len() as int) =~= ps);
    out
}

// ---------------------------------------------------------------------------
// Recorder helpers: protocol names and content types
// ---------------------------------------------------------------------------

/// The HTTP version written for a protocol name.
pub open spec fn http_version_of(protocol: Seq<char>) -> Seq<char> {
    if protocol == "h2"@ {
        "HTTP/2.0"@
    } else if protocol == "h3"@ || protocol == "h3-29"@ {
        "HTTP/3.0"@
    } else if protocol == "http/1.0"@ {
        "HTTP/1.0"@
    } else {
        "HTTP/1.1"@
    }
}

/// The HTTP version for a protocol name: `h2`, `h3` (and `h3-29`),
/// `http/1.0`, and HTTP/1.1 for anything else.
pub fn protocol_to_http_version(protocol: &str) -> (r: String)
    ensures
        r@ == http_version_of(protocol@),
{
    let p = chars_of(protocol);
    let p = p.as_slice();
    if crate::text::eq_str(p, "h2") {
        "HTTP/2.0".to_owned()
    } else if crate::text::eq_str(p, "h3") || crate::text::eq_str(p, "h3-29") {
        "HTTP/3.0".to_owned()
    } else if crate::text::eq_str(p, "http/1.0") {
        "HTTP/1.0".to_owned()
    } else {
        "HTTP/1.1".to_owned()
    }
}

/// The HTTP version of a response: the one its protocol names, HTTP/1.1
/// when the browser reports no protocol.
pub fn response_http_version(protocol: Option<&str>) -> (r: String)
    ensures
        r@ == match protocol {
            Some(p) => http_version_of(p@),
            None => "HTTP/1.1"@,
        },
{
    match protocol {
        Some(p) => protocol_to_http_version(p),
        None => "HTTP/1.1".to_owned(),
    }
}

/// The status code of a response as HAR holds it: the browser's status
/// when it fits in 16 bits, else 0.
pub fn status_code(status: i64) -> (r: u16)
    ensures
        r as int == (if 0 <= status <= u16::MAX {
            status as int
        } else {
            0
        }),
{
    if 0 <= status && status <= 65535 {
        status as u16
    } else {
        0
    }
}

/// The text and encoding of a response body as HAR holds them: a body
/// fetched as base64 is marked `base64`; no body gives neither.
pub fn response_body(body: Option<(String, bool)>) -> (r: (Option<String>, Option<String>))
    ensures
        match body {
            Some((text, b64)) => r.0 == Some(text) && (if b64 {
                r.1 matches Some(e) && e@ == "base64"@
            } else {
                r.1 is None
            }),
            None => r.0 is None && r.1 is None,
        },
{
    match body {
        Some((text, true)) => (Some(text), Some("base64".to_owned())),
        Some((text, false)) => (Some(text), None),
        None => (None, None),
    }
}

/// ASCII lowercase of one character; other characters stay.
pub open spec fn ascii_lower(c: char) -> char {
    if 65 <= (c as u32) <= 90 {
        (((c as u32) + 32) as u8) as char
    } else {
        c
    }
}

/// Equality up to ASCII case (`str::eq_ignore_ascii_case`).
pub open spec fn eq_ignore_ascii_case(a: Seq<char>, b: Seq<char>) -> bool {
    a.len() == b.len() && forall|i: int| 0 <= i < a.len() ==> ascii_lower(#[trigger] a[i]) == ascii_lower(b[i])
}

/// The value of the first header named `Content-Type` in any case, or
/// `text/plain`.
pub open spec fn content_type_of(hs: Seq<(Seq<char>, Seq<char>)>) -> Seq<char>
    decreases hs.len(),
{
    if hs.len() == 0 {
        "text/plain"@
    } else if eq_ignore_ascii_case(hs[0].0, "content-type"@) {
        hs[0].1
    } else {
        content_type_of(hs.drop_first())
    }
}

fn lower_char(c: char) -> (r: char)
    ensures
        r == ascii_lower(c),
{
    let x = c as u32;
    if 65 <= x && x <= 90 {
        ((x + 32) as u8) as char
    } else {
        c
    }
}

fn same_ignoring_ascii_case(a: &str, b: &str) -> (r: bool)
    ensures
        r == eq_ignore_ascii_case(a@, b@),
{
    let av = chars_of(a);
    let bv = chars_of(b);
    if av.len() != bv.len() {
        return false;
    }
    let mut i: usize = 0;
    while i < av.len()
        invariant
            av@ == a@,
            bv@ == b@,
            av@.len() == bv@.len(),
            i <= av@.len(),
            forall|j: int| 0 <= j < i ==> ascii_lower(#[trigger] a@[j]) == ascii_lower(b@[j]),
        decreases av@.len() - i,
    {
        if lower_char(av[i]) != lower_char(bv[i]) {
            return false;
        }
        i = i + 1;
    }
    true
}

proof fn lemma_content_type(hs: Seq<(Seq<char>, Seq<char>)>, k: int)
    requires
        0 <= k <= hs.len(),
        forall|j: int| 0 <= j < k ==> !eq_ignore_ascii_case(#[trigger] hs[j].0, "content-type"@),
    ensures
        content_type_of(hs) == content_type_of(hs.skip(k)),
    decreases k,
{
    if k > 0 {
        assert(!eq_ignore_ascii_case(hs[0].0, "content-type"@));
        assert forall|j: int| 0 <= j < k - 1 implies !eq_ignore_ascii_case(
            #[trigger] hs.drop_first()[j].0,
            "content-type"@,
        ) by {
            assert(hs.drop_first()[j] == hs[j + 1]);
        }
        lemma_content_type(hs.drop_first(), k - 1);
        assert(hs.drop_first().skip(k - 1) =~= hs.skip(k));
    } else {
        assert(hs.skip(0) =~= hs);
    }
}

/// The `Content-Type` of a header list (its name compared ignoring ASCII
/// case), or `text/plain` when it has none.
pub fn content_type_from_headers(headers: &[HarHeader]) -> (r: String)
    ensures
        r@ == content_type_of(headers_view(headers@)),
{
    let ghost hs = headers_view(headers@);
    let mut k: usize = 0;
    while k < headers.len()
        invariant
            hs == headers_view(headers@),
            k <= headers@.len(),
            forall|j: int| 0 <= j < k ==> !eq_ignore_ascii_case(#[trigger] hs[j].0, "content-type"@),
        decreases headers@.len() - k,
    {
        if same_ignoring_ascii_case(headers[k].name.as_str(), "content-type") {
            proof {
                lemma_content_type(hs, k as int);
                assert(hs.skip(k as int)[0] == hs[k as int]);
            }
            return headers[k].value.clone();
        }
        k = k + 1;
    }
    proof {
        lemma_content_type(hs, k as int);
        assert(hs.skip(k as int) =~= seq![]);
    }
    "text/plain".to_owned()
}


// ---------------------------------------------------------------------------
// Recorder helpers: calendar dates
// ---------------------------------------------------------------------------

/// The civil date `(year, month, day)` of the day `z` days after
/// 1970-01-01 in the proleptic Gregorian calendar, by the days-to-civil
/// computation over 400-year eras of 146097 days, with years starting in
/// March.
pub open spec fn civil_date(z0: int) -> (int, int, int) {
    let z = z0 + 719468;
    let era = z / 146097;
    let doe = z - era * 146097;
    let yoe = (doe - doe / 1460 + doe / 36524 - doe / 146096) / 365;
    let y = yoe + era * 400;
    let doy = doe - (365 * yoe + yoe / 4 - yoe / 100);
    let mp = (5 * doy + 2) / 153;
    let d = doy - (153 * mp + 2) / 5 + 1;
    let m = if mp < 10 {
        mp + 3
    } else {
        mp - 9
    };
    (if m <= 2 {
        y + 1
    } else {
        y
    }, m, d)
}

proof fn lemma_era_bounds(z: int)
    ensures
        0 <= z - (z / 146097) * 146097 < 146097,
{
}

proof fn lemma_day_of_era(doe: int)
    requires
        0 <= doe < 146097,
    ensures
        ({
            let yoe = (doe - doe / 1460 + doe / 36524 - doe / 146096) / 365;
            let doy = doe - (365 * yoe + yoe / 4 - yoe / 100);
            let mp = (5 * doy + 2) / 153;
            &&& 0 <= yoe <= 399
            &&& 0 <= doy <= 365
            &&& 0 <= mp <= 11
            &&& 1 <= doy - (153 * mp + 2) / 5 + 1 <= 31
        }),
{
    let a = doe / 1460;
    let b = doe / 36524;
    let c = doe / 146096;
    assert(0 <= a <= 100);
    assert(0 <= b <= 4);
    assert(0 <= c <= 1);
    let n = doe - a + b - c;
    let yoe = n / 365;
    assert(0 <= n);
    assert(yoe <= 399) by (nonlinear_arith)
        requires
            n <= 146096 - a + b - c,
            doe < 146097,
            a == doe / 1460,
            b == doe / 36524,
            c == doe / 146096,
            yoe == n / 365,
            n == doe - a + b - c,
    ;
    let doy = doe - (365 * yoe + yoe / 4 - yoe / 100);
    assert(0 <= doy <= 365) by (nonlinear_arith)
        requires
            0 <= doe < 146097,
            a == doe / 1460,
            b == doe / 36524,
            c == doe / 146096,
            n == doe - a + b - c,
            yoe == n / 365,
            doy == doe - (365 * yoe + yoe / 4 - yoe / 100),
    ;
    let mp = (5 * doy + 2) / 153;
    assert(0 <= mp <= 11);
    let d = doy - (153 * mp + 2) / 5 + 1;
    assert(1 <= d <= 31) by (nonlinear_arith)
        requires
            0 <= doy <= 365,
            mp == (5 * doy + 2) / 153,
            d == doy - (153 * mp + 2) / 5 + 1,
    ;
}

/// The civil date `(year, month, day)` of the day `z` days after
/// 1970-01-01. The month is in `1..=12` and the day in `1..=31`.
pub fn civil_from_days(z: i64) -> (r: (i64, u32, u32))
    requires
        z <= i64::MAX - 719468,
    ensures
        (r.0 as int, r.1 as int, r.2 as int) == civil_date(z as int),
        1 <= r.1 <= 12,
        1 <= r.2 <= 31,
{
    let z = z + 719468;
    let era: i64 = if z >= 0 {
        z / 146097
    } else {
        let q = (146096 - (z as i128)) / 146097;
        -(q as i64)
    };
    assert(era == (z as int) / 146097);
    proof {
        lemma_era_bounds(z as int);
        lemma_day_of_era(z - era * 146097);
    }
    let doe = (z - era * 146097) as u32;
    let yoe = (doe - doe / 1460 + doe / 36524 - doe / 146096) / 365;
    let y = yoe as i64 + era * 400;
    let doy = doe - (365 * yoe + yoe / 4 - yoe / 100);
    let mp = (5 * doy + 2) / 153;
    let d = doy - (153 * mp + 2) / 5 + 1;
    let m = if mp < 10 {
        mp + 3
    } else {
        mp - 9
    };
    let y = if m <= 2 {
        y + 1
    } else {
        y
    };
    (y, m, d)
}


/// Integer division rounding toward zero (Rust's `/` on signed integers).
pub open spec fn trunc_div(a: int, b: int) -> int {
    if a >= 0 {
        a / b
    } else {
        -((-a) / b)
    }
}

/// A year as `{:04}` prints it: at least four digits, a `-` counted in
/// the width.
pub open spec fn year_text(y: int) -> Seq<char> {
    if y < 0 {
        seq!['-'] + decimal_padded((-y) as nat, 3)
    } else {
        decimal_padded(y as nat, 4)
    }
}

/// The ISO 8601 text `YYYY-MM-DDTHH:MM:SS.mmmZ` of the instant `secs`
/// seconds (and `millis` milliseconds) after the Unix epoch. The date is
/// that of day `secs / 86400` (rounded toward zero); the time of day is
/// `secs` modulo 86400.
pub open spec fn iso8601_text(secs: int, millis: nat) -> Seq<char> {
    let (y, m, d) = civil_date(trunc_div(secs, 86400));
    let t = secs % 86400;
    year_text(y) + "-"@ + decimal_padded(m as nat, 2) + "-"@ + decimal_padded(d as nat, 2) + "T"@
        + decimal_padded((t / 3600) as nat, 2) + ":"@ + decimal_padded(((t % 3600) / 60) as nat, 2)
        + ":"@ + decimal_padded((t % 60) as nat, 2) + "."@ + decimal_padded(millis, 3) + "Z"@
}

fn push_padded(s: &mut String, n: u64, width: usize)
    ensures
        final(s)@ == old(s)@ + decimal_padded(n as nat, width as nat),
{
    let p = u64_to_decimal_padded(n, width);
    push_str(s, p.as_str());
}

/// `YYYY-MM-DDTHH:MM:SS.mmmZ` for the instant `secs` whole seconds and
/// `millis` milliseconds after the Unix epoch.
pub fn epoch_parts_to_iso8601(secs: i64, millis: u32) -> (r: String)
    ensures
        r@ == iso8601_text(secs as int, millis as nat),
{
    let s128 = secs as i128;
    let days128: i128 = if s128 >= 0 {
        s128 / 86400
    } else {
        -((-s128) / 86400)
    };
    assert(days128 == trunc_div(secs as int, 86400));
    let days = days128 as i64;
    let (y, m, d) = civil_from_days(days);
    let rem = s128 - days128 * 86400;
    let t128 = if rem < 0 {
        rem + 86400
    } else {
        rem
    };
    assert(t128 == (secs as int) % 86400);
    let t = t128 as u64;
    let mut out = String::new();
    if y < 0 {
        push_char(&mut out, '-');
        let a: u64 = if y == i64::MIN {
            9223372036854775808u64
        } else {
            (-y) as u64
        };
        push_padded(&mut out, a, 3);
    } else {
        push_padded(&mut out, y as u64, 4);
    }
    assert(out@ == year_text(y as int));
    push_str(&mut out, "-");
    push_padded(&mut out, m as u64, 2);
    push_str(&mut out, "-");
    push_padded(&mut out, d as u64, 2);
    push_str(&mut out, "T");
    push_padded(&mut out, t / 3600, 2);
    push_str(&mut out, ":");
    push_padded(&mut out, (t % 3600) / 60, 2);
    push_str(&mut out, ":");
    push_padded(&mut out, t % 60, 2);
    push_str(&mut out, ".");
    push_padded(&mut out, millis as u64, 3);
    push_str(&mut out, "Z");
    out
}

} // verus!

verus! {

proof fn lemma_percent_plain_bytes(b: Seq<u8>)
    requires
        forall|i: int| 0 <= i < b.len() ==> #[trigger] b[i] < 128 && b[i] != 43 && b[i] != 37,
    ensures
        percent_decoded(b) == b.map_values(|x: u8| x as char),
    decreases b.len(),
{
    if b.len() > 0 {
        assert forall|i: int| 0 <= i < b.skip(1).len() implies #[trigger] b.skip(1)[i] < 128 && b.skip(1)[i]
            != 43 && b.skip(1)[i] != 37 by {
            assert(b.skip(1)[i] == b[i + 1]);
        }
        lemma_percent_plain_bytes(b.skip(1));
        assert(b[0] < 128 && b[0] != 43 && b[0] != 37);
        assert(percent_decoded(b) =~= b.map_values(|x: u8| x as char));
    }
}

/// Percent-decoding leaves ASCII text without `+` and `%` as it is.
pub proof fn law_percent_decoding_keeps_plain_text(s: Seq<char>)
    requires
        vstd::utf8::is_ascii_chars(s),
        !s.contains('+'),
        !s.contains('%'),
    ensures
        percent_decoded(encode_utf8(s)) == s,
{
    vstd::utf8::is_ascii_chars_encode_utf8(s);
    let b = encode_utf8(s);
    assert forall|i: int| 0 <= i < b.len() implies #[trigger] b[i] < 128 && b[i] != 43 && b[i] != 37 by {
        assert(s[i] as u8 == b[i]);
        assert('\0' <= s[i] <= '\u{7f}');
        assert(s[i] != '+' && s[i] != '%');
        assert((s[i] as u32) <= 127);
    }
    lemma_percent_plain_bytes(b);
    assert forall|i: int| 0 <= i < s.len() implies (b[i] as char) == s[i] by {
        assert(s[i] as u8 == b[i]);
        assert('\0' <= s[i] <= '\u{7f}');
    }
    assert(b.map_values(|x: u8| x as char) =~= s);
}

} // verus!
