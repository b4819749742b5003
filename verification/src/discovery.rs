//! Finding a running browser's WebSocket endpoint over its DevTools HTTP
//! interface: which URL to ask, the request to send, and where the JSON
//! answer starts in the reply.

use vstd::prelude::*;

use crate::text::{
    chars_of, find, find_chars, has_prefix, lemma_find, occurs_at, push_str, slice_chars,
    starts_with_str, string_of, trim_end_matches_char, trim_end_matching,
};

verus! {

/// The version endpoint of a browser at `addr`: an address given with its
/// `http://` or `https://` scheme keeps it, without trailing slashes; any
/// other is taken as `host:port` over `http://`.
pub open spec fn spec_version_endpoint(addr: Seq<char>) -> Seq<char> {
    if has_prefix(addr, "http://"@) || has_prefix(addr, "https://"@) {
        trim_end_matching(addr, '/') + "/json/version"@
    } else {
        "http://"@ + addr + "/json/version"@
    }
}

/// The version endpoint of a browser at `addr`.
pub fn version_endpoint(addr: &str) -> (r: String)
    ensures
        r@ == spec_version_endpoint(addr@),
{
    let v = chars_of(addr);
    if starts_with_str(v.as_slice(), "http://") || starts_with_str(v.as_slice(), "https://") {
        let mut r = trim_end_matches_char(addr, '/');
        push_str(&mut r, "/json/version");
        r
    } else {
        let mut r = "http://".to_owned();
        push_str(&mut r, addr);
        push_str(&mut r, "/json/version");
        r
    }
}

/// `s` without the copies of `p` at its start (`str::trim_start_matches`
/// with a non-empty string).
pub open spec fn strip_repeated(s: Seq<char>, p: Seq<char>) -> Seq<char>
    decreases s.len(),
{
    if p.len() > 0 && has_prefix(s, p) {
        strip_repeated(s.skip(p.len() as int), p)
    } else {
        s
    }
}

fn strip_repeated_chars(v: &Vec<char>, p: &str) -> (r: Vec<char>)
    requires
        p@.len() > 0,
    ensures
        r@ == strip_repeated(v@, p@),
{
    let pc = chars_of(p);
    let n = v.len();
    let mut i: usize = 0;
    assert(v@.skip(0) =~= v@);
    while i < n && starts_with_str(slice_chars(v.as_slice(), i, n).as_slice(), p)
        invariant
            n == v@.len(),
            i <= n,
            pc@ == p@,
            p@.len() > 0,
            strip_repeated(v@.skip(i as int), p@) == strip_repeated(v@, p@),
        decreases n - i,
    {
        assert(v@.subrange(i as int, n as int) =~= v@.skip(i as int));
        assert(v@.skip(i as int).skip(p@.len() as int) =~= v@.skip(i + p@.len()));
        i = i + pc.len();
    }
    let r = slice_chars(v.as_slice(), i, n);
    assert(r@ =~= v@.skip(i as int));
    r
}

/// The host and path of an endpoint URL: the text after any leading
/// `http://` and then any leading `https://`, split before its first `/`
/// (an empty path when it has none).
pub open spec fn spec_endpoint_parts(url: Seq<char>) -> (Seq<char>, Seq<char>) {
    let rest = strip_repeated(strip_repeated(url, "http://"@), "https://"@);
    match find(rest, "/"@) {
        Some(i) => (rest.take(i), rest.skip(i)),
        None => (rest, seq![]),
    }
}

/// The host (with its port) and the path of an endpoint URL.
pub fn endpoint_parts(url: &str) -> (r: (String, String))
    ensures
        (r.0@, r.1@) == spec_endpoint_parts(url@),
{
    proof {
        reveal_strlit("http://");
        reveal_strlit("https://");
        reveal_strlit("/");
    }
    let v = chars_of(url);
    let a = strip_repeated_chars(&v, "http://");
    let rest = strip_repeated_chars(&a, "https://");
    let n = rest.len();
    let slash = chars_of("/");
    match find_chars(rest.as_slice(), slash.as_slice()) {
        Some(i) => {
            proof {
                lemma_find(rest@, slash@);
                assert(occurs_at(rest@, slash@, i as int));
            }
            let host = string_of(slice_chars(rest.as_slice(), 0, i).as_slice());
            let path = string_of(slice_chars(rest.as_slice(), i, n).as_slice());
            assert(host@ =~= rest@.take(i as int));
            assert(path@ =~= rest@.skip(i as int));
            (host, path)
        },
        None => (string_of(rest.as_slice()), String::new()),
    }
}

/// The HTTP/1.0 request for `path` on `host`, closing the connection after
/// the reply.
pub open spec fn spec_discovery_request(path: Seq<char>, host: Seq<char>) -> Seq<char> {
    "GET "@ + path + " HTTP/1.0\r\nHost: "@ + host + "\r\nConnection: close\r\n\r\n"@
}

/// The HTTP/1.0 request for `path` on `host`.
pub fn discovery_request(path: &str, host: &str) -> (r: String)
    ensures
        r@ == spec_discovery_request(path@, host@),
{
    let mut r = "GET ".to_owned();
    push_str(&mut r, path);
    push_str(&mut r, " HTTP/1.0\r\nHost: ");
    push_str(&mut r, host);
    push_str(&mut r, "\r\nConnection: close\r\n\r\n");
    r
}

/// The JSON document in a reply: the text from its first `{` on; none when
/// it holds no `{`.
pub open spec fn spec_json_in_reply(text: Seq<char>) -> Option<Seq<char>> {
    match find(text, "{"@) {
        Some(i) => Some(text.skip(i)),
        None => None,
    }
}

/// The JSON document in a reply, if any.
pub fn json_in_reply(text: &str) -> (r: Option<String>)
    ensures
        match r {
            Some(j) => spec_json_in_reply(text@) == Some(j@),
            None => spec_json_in_reply(text@) is None,
        },
{
    let v = chars_of(text);
    let n = v.len();
    let brace = chars_of("{");
    match find_chars(v.as_slice(), brace.as_slice()) {
        Some(i) => {
            proof {
                lemma_find(v@, brace@);
                assert(occurs_at(v@, brace@, i as int));
            }
            let rest = slice_chars(v.as_slice(), i, n);
            assert(rest@ =~= text@.skip(i as int));
            Some(string_of(rest.as_slice()))
        },
        None => None,
    }
}

} // verus!
