//! Loopback Web bundle runtime: HTTP routing, WebSocket framing, bounded client
//! output and component descriptor validation.

use vstd::prelude::*;

use crate::text::{
    before_char, before_char_chars, chars_eq_ignore_case, chars_equal, chars_of, contains_chars,
    contains_sub, eq_ignore_case, has_prefix, is_digit, last_index, last_index_chars,
    lemma_last_index, split_char, split_chars, starts_with_chars, string_from_chars, sub_chars,
    trim, trim_chars, sub_bytes, decimal, u64_text, str_equal, eq_ignore_ascii_case, trim_string,
};
use crate::codec::{base64_bytes, base64_decode, base64_encode, base64_text, sha1_digest, sha1_of, utf8_decode};
use crate::tavern_card::{find_key, key_index, obj_get, JsonValue};
use crate::text::{parse_u64, parse_u64_text};

verus! {

/// Execution target served by this runtime.
pub const WEB_TARGET: &'static str = "rintawa.runtime.web-bundle@1";
/// Bridge protocol major spoken with browser renderers.
pub const WEB_BRIDGE_PROTOCOL_MAJOR: u32 = 1;
/// Largest accepted Web bundle.
pub const MAX_BUNDLE_BYTES: usize = 16777216;
/// Largest accepted HTTP request head.
pub const MAX_HTTP_HEADER_BYTES: usize = 65536;
/// Largest buffered input or output per client.
pub const MAX_CLIENT_BUFFER_BYTES: usize = 2097152;
/// Largest accepted WebSocket message.
pub const MAX_WS_MESSAGE_BYTES: usize = 1048576;
/// Most concurrently connected clients per component.
pub const MAX_CLIENTS: usize = 8;
/// Most connections accepted per task tick.
pub const MAX_ACCEPTS_PER_TICK: usize = 8;
/// Most WebSocket frames processed per client and tick.
pub const MAX_FRAMES_PER_TICK: usize = 32;
/// Periodic task interval.
pub const TASK_INTERVAL_MS: u32 = 10;
/// Largest single network read.
pub const NETWORK_READ_BYTES: u32 = 65536;
/// Largest single network write.
pub const NETWORK_WRITE_BYTES: usize = 65536;
/// Path of the renderer bridge WebSocket endpoint.
pub const WS_PATH: &'static str = "/__rintawa/ws";

/// The pieces of a comma separated header value.
pub open spec fn header_tokens(value: Seq<char>) -> Seq<Seq<char>> {
    split_char(value, ',')
}

/// A comma separated header value lists `expected` (ASCII case-insensitively,
/// ignoring white space around each token).
pub open spec fn spec_header_has_token(value: Seq<char>, expected: Seq<char>) -> bool {
    exists|k: int|
        0 <= k < header_tokens(value).len() && eq_ignore_case(
            trim(#[trigger] header_tokens(value)[k]),
            expected,
        )
}

/// Reports whether a comma separated HTTP header value contains a token.
pub fn header_has_token(value: &str, expected: &str) -> (r: bool)
    ensures
        r == spec_header_has_token(value@, expected@),
{
    let v = chars_of(value);
    let e = chars_of(expected);
    let tokens = split_chars(v.as_slice(), ',');
    let mut k: usize = 0;
    while k < tokens.len()
        invariant
            v@ == value@,
            e@ == expected@,
            tokens@.len() == header_tokens(value@).len(),
            forall|m: int| 0 <= m < tokens@.len() ==> (#[trigger] tokens@[m])@ == header_tokens(value@)[m],
            k <= tokens@.len(),
            forall|m: int|
                0 <= m < k ==> !eq_ignore_case(trim(#[trigger] header_tokens(value@)[m]), expected@),
        decreases tokens@.len() - k,
    {
        let t = trim_chars(tokens[k].as_slice());
        if chars_eq_ignore_case(t.as_slice(), e.as_slice()) {
            return true;
        }
        k = k + 1;
    }
    false
}

/// The host name of a `Host` header: a trailing `:<digits>` port is removed.
pub open spec fn host_name(host: Seq<char>) -> Seq<char> {
    let i = last_index(host, ':');
    if i >= 0 && i + 1 < host.len() && (forall|k: int| i < k < host.len() ==> is_digit(#[trigger] host[k])) {
        host.take(i)
    } else {
        host
    }
}

/// The `Host` header names the loopback interface.
pub open spec fn spec_loopback_host(host: Seq<char>) -> bool {
    host_name(host) == "127.0.0.1"@ || eq_ignore_case(host_name(host), "localhost"@)
}

fn host_name_chars(host: &[char]) -> (out: Vec<char>)
    ensures
        out@ == host_name(host@),
{
    match last_index_chars(host, ':') {
        Some(i) => {
            proof {
                lemma_last_index(host@, ':');
            }
            let n = host.len();
            if i + 1 >= n {
                return sub_chars(host, 0, n);
            }
            let mut k: usize = i + 1;
            while k < n
                invariant
                    n == host@.len(),
                    i as int == last_index(host@, ':'),
                    i < k <= n,
                    forall|m: int| i < m < k ==> is_digit(#[trigger] host@[m]),
                decreases n - k,
            {
                if !('0' <= host[k] && host[k] <= '9') {
                    proof {
                        assert(!is_digit(host@[k as int]));
                        assert(!(forall|m: int| (i as int) < m < host@.len() ==> is_digit(#[trigger] host@[m])));
                    }
                    let out = sub_chars(host, 0, n);
                    proof {
                        assert(host@.subrange(0, n as int) =~= host@);
                    }
                    return out;
                }
                k = k + 1;
            }
            let out = sub_chars(host, 0, i);
            proof {
                assert(host@.subrange(0, i as int) =~= host@.take(i as int));
            }
            out
        },
        None => {
            let out = sub_chars(host, 0, host.len());
            proof {
                assert(host@.subrange(0, host@.len() as int) =~= host@);
            }
            out
        },
    }
}

/// Reports whether a `Host` header value names the loopback interface.
pub fn loopback_host_allowed(host: &str) -> (r: bool)
    ensures
        r == spec_loopback_host(host@),
{
    let h = chars_of(host);
    let name = host_name_chars(h.as_slice());
    let ip = chars_of("127.0.0.1");
    let local = chars_of("localhost");
    chars_equal(name.as_slice(), ip.as_slice()) || chars_eq_ignore_case(
        name.as_slice(),
        local.as_slice(),
    )
}

/// A WebSocket upgrade is allowed only from the loopback host, and only when any
/// `Origin` header is `http://` followed by that same host.
pub open spec fn spec_origin_allowed(host: Seq<char>, origin: Option<Seq<char>>) -> bool {
    spec_loopback_host(host) && match origin {
        None => true,
        Some(o) => has_prefix(o, "http://"@) && eq_ignore_case(o.skip(7), host),
    }
}

/// Reports whether a WebSocket upgrade request is same-origin on loopback.
pub fn websocket_origin_allowed(host: &str, origin: Option<&str>) -> (r: bool)
    ensures
        r == spec_origin_allowed(host@, match origin {
            Some(o) => Some(o@),
            None => None,
        }),
{
    if !loopback_host_allowed(host) {
        return false;
    }
    match origin {
        None => true,
        Some(o) => {
            let oc = chars_of(o);
            let prefix = chars_of("http://");
            proof {
                reveal_strlit("http://");
            }
            if !starts_with_chars(oc.as_slice(), prefix.as_slice()) {
                return false;
            }
            let rest = sub_chars(oc.as_slice(), 7, oc.len());
            let h = chars_of(host);
            proof {
                assert(oc@.subrange(7, oc@.len() as int) =~= oc@.skip(7));
            }
            chars_eq_ignore_case(rest.as_slice(), h.as_slice())
        },
    }
}

/// A path segment that cannot name a bundle asset.
pub open spec fn unsafe_segment(seg: Seq<char>) -> bool {
    seg.len() == 0 || seg == "."@ || seg == ".."@
}

/// The bundle asset a request path names: `None` for the root document,
/// `Some(empty)` for a rejected path, otherwise the path without its leading `/`.
pub open spec fn spec_asset_path(path: Seq<char>) -> Option<Seq<char>> {
    let p = before_char(path, '?');
    if p == "/"@ {
        None
    } else if !has_prefix(p, "/"@) {
        None
    } else {
        let rest = p.skip(1);
        if rest.len() == 0 || (exists|k: int|
            0 <= k < split_char(rest, '/').len() && unsafe_segment(
                #[trigger] split_char(rest, '/')[k],
            )) || contains_sub(rest, "\\"@) {
            Some(Seq::empty())
        } else {
            Some(rest)
        }
    }
}

/// Maps a request path to a bundle asset key; `None` means the entry document.
pub fn normalize_asset_path(path: &str) -> (r: Option<String>)
    ensures
        match r {
            Some(s) => spec_asset_path(path@) == Some(s@),
            None => spec_asset_path(path@).is_none(),
        },
{
    let pc = chars_of(path);
    let p = before_char_chars(pc.as_slice(), '?');
    let slash = chars_of("/");
    if chars_equal(p.as_slice(), slash.as_slice()) {
        return None;
    }
    if !starts_with_chars(p.as_slice(), slash.as_slice()) {
        return None;
    }
    proof {
        reveal_strlit("/");
    }
    let rest = sub_chars(p.as_slice(), 1, p.len());
    proof {
        assert(p@.subrange(1, p@.len() as int) =~= p@.skip(1));
    }
    if rest.len() == 0 {
        return Some(string_from_chars(Vec::<char>::new().as_slice()));
    }
    let segments = split_chars(rest.as_slice(), '/');
    let dot = chars_of(".");
    let dotdot = chars_of("..");
    let mut k: usize = 0;
    while k < segments.len()
        invariant
            rest@ == p@.skip(1),
            pc@ == path@,
            p@ == before_char(pc@, '?'),
            p@ != "/"@,
            has_prefix(p@, "/"@),
            rest@.len() > 0,
            dot@ == "."@,
            dotdot@ == ".."@,
            segments@.len() == split_char(rest@, '/').len(),
            forall|m: int| 0 <= m < segments@.len() ==> (#[trigger] segments@[m])@ == split_char(rest@, '/')[m],
            k <= segments@.len(),
            forall|m: int| 0 <= m < k ==> !unsafe_segment(#[trigger] split_char(rest@, '/')[m]),
        decreases segments@.len() - k,
    {
        let seg = &segments[k];
        if seg.len() == 0 || chars_equal(seg.as_slice(), dot.as_slice()) || chars_equal(
            seg.as_slice(),
            dotdot.as_slice(),
        ) {
            proof {
                assert(unsafe_segment(split_char(rest@, '/')[k as int]));
            }
            return Some(string_from_chars(Vec::<char>::new().as_slice()));
        }
        k = k + 1;
    }
    let backslash = chars_of("\\");
    if contains_chars(rest.as_slice(), backslash.as_slice()) {
        return Some(string_from_chars(Vec::<char>::new().as_slice()));
    }
    Some(string_from_chars(rest.as_slice()))
}

/// Splits an entry path at its last `/` into a non-empty root and entry name.
pub open spec fn spec_split_asset_root(path: Seq<char>) -> Option<(Seq<char>, Seq<char>)> {
    let i = last_index(path, '/');
    if i >= 0 && i > 0 && i + 1 < path.len() {
        Some((path.take(i), path.skip(i + 1)))
    } else {
        None
    }
}

/// Splits a bundle entry path into its asset root directory and entry key.
pub fn split_asset_root(path: &str) -> (r: Option<(String, String)>)
    ensures
        match r {
            Some((root, entry)) => spec_split_asset_root(path@) == Some((root@, entry@)),
            None => spec_split_asset_root(path@).is_none(),
        },
{
    let pc = chars_of(path);
    proof {
        lemma_last_index(pc@, '/');
    }
    match last_index_chars(pc.as_slice(), '/') {
        Some(i) => {
            if i > 0 && i < pc.len() - 1 {
                let root = sub_chars(pc.as_slice(), 0, i);
                let entry = sub_chars(pc.as_slice(), i + 1, pc.len());
                proof {
                    assert(pc@.subrange(0, i as int) =~= pc@.take(i as int));
                    assert(pc@.subrange(i + 1, pc@.len() as int) =~= pc@.skip(i + 1));
                }
                Some((string_from_chars(root.as_slice()), string_from_chars(entry.as_slice())))
            } else {
                None
            }
        },
        None => None,
    }
}

/// The extension after the last `.` of a path, if any.
pub open spec fn extension(path: Seq<char>) -> Option<Seq<char>> {
    let i = last_index(path, '.');
    if i >= 0 {
        Some(path.skip(i + 1))
    } else {
        None
    }
}

/// The `Content-Type` served for a bundle asset.
pub open spec fn spec_content_type(path: Seq<char>) -> Seq<char> {
    match extension(path) {
        Some(e) => if e == "html"@ {
            "text/html; charset=utf-8"@
        } else if e == "js"@ || e == "mjs"@ {
            "text/javascript; charset=utf-8"@
        } else if e == "css"@ {
            "text/css; charset=utf-8"@
        } else if e == "json"@ {
            "application/json; charset=utf-8"@
        } else if e == "svg"@ {
            "image/svg+xml"@
        } else if e == "png"@ {
            "image/png"@
        } else if e == "jpg"@ || e == "jpeg"@ {
            "image/jpeg"@
        } else if e == "webp"@ {
            "image/webp"@
        } else if e == "ico"@ {
            "image/x-icon"@
        } else if e == "woff"@ {
            "font/woff"@
        } else if e == "woff2"@ {
            "font/woff2"@
        } else {
            "application/octet-stream"@
        },
        None => "application/octet-stream"@,
    }
}

proof fn lemma_last_index_at(s: Seq<char>, c: char, k: int)
    requires
        0 <= k < s.len(),
        s[k] == c,
        forall|j: int| k < j < s.len() ==> s[j] != c,
    ensures
        last_index(s, c) == k,
    decreases s.len(),
{
    if s.len() - 1 != k {
        assert(s.last() != c);
        assert forall|j: int| k < j < s.drop_last().len() implies s.drop_last()[j] != c by {
            assert(s.drop_last()[j] == s[j]);
        }
        lemma_last_index_at(s.drop_last(), c, k);
    }
}

/// The `Content-Type` a bundle asset is served with follows the extension after
/// its last `.`, whatever comes before it: HTML, JavaScript and module
/// scripts, stylesheets and JSON as UTF-8 text, images and fonts with their
/// media types, and anything else (or a path without a `.`) as an opaque
/// byte stream.
pub proof fn law_content_type_by_extension(stem: Seq<char>, ext: Seq<char>)
    requires
        forall|k: int| 0 <= k < ext.len() ==> ext[k] != '.',
    ensures
        ext == "html"@ ==> spec_content_type(stem + "."@ + ext) == "text/html; charset=utf-8"@,
        ext == "js"@ || ext == "mjs"@ ==> spec_content_type(stem + "."@ + ext) == "text/javascript; charset=utf-8"@,
        ext == "css"@ ==> spec_content_type(stem + "."@ + ext) == "text/css; charset=utf-8"@,
        ext == "json"@ ==> spec_content_type(stem + "."@ + ext) == "application/json; charset=utf-8"@,
        ext == "svg"@ ==> spec_content_type(stem + "."@ + ext) == "image/svg+xml"@,
        ext == "png"@ ==> spec_content_type(stem + "."@ + ext) == "image/png"@,
        ext == "jpg"@ || ext == "jpeg"@ ==> spec_content_type(stem + "."@ + ext) == "image/jpeg"@,
        ext == "webp"@ ==> spec_content_type(stem + "."@ + ext) == "image/webp"@,
        ext == "ico"@ ==> spec_content_type(stem + "."@ + ext) == "image/x-icon"@,
        ext == "woff"@ ==> spec_content_type(stem + "."@ + ext) == "font/woff"@,
        ext == "woff2"@ ==> spec_content_type(stem + "."@ + ext) == "font/woff2"@,
        ext == "txt"@ || ext == "wasm"@ || ext.len() == 0 ==> spec_content_type(stem + "."@ + ext) == "application/octet-stream"@,
{
    reveal_strlit(".");
    reveal_strlit("html");
    reveal_strlit("js");
    reveal_strlit("mjs");
    reveal_strlit("css");
    reveal_strlit("json");
    reveal_strlit("svg");
    reveal_strlit("png");
    reveal_strlit("jpg");
    reveal_strlit("jpeg");
    reveal_strlit("webp");
    reveal_strlit("ico");
    reveal_strlit("woff");
    reveal_strlit("woff2");
    reveal_strlit("txt");
    reveal_strlit("wasm");
    assert("css"@[0] != "mjs"@[0]);
    assert("svg"@[0] != "mjs"@[0] && "svg"@[0] != "css"@[0]);
    assert("png"@[0] != "mjs"@[0] && "png"@[0] != "css"@[0] && "png"@[0] != "svg"@[0]);
    assert("jpg"@[0] != "mjs"@[0] && "jpg"@[0] != "css"@[0] && "jpg"@[0] != "svg"@[0] && "jpg"@[0] != "png"@[0]);
    assert("ico"@[0] != "mjs"@[0] && "ico"@[0] != "css"@[0] && "ico"@[0] != "svg"@[0] && "ico"@[0] != "png"@[0]
        && "ico"@[0] != "jpg"@[0]);
    assert("txt"@[0] != "mjs"@[0] && "txt"@[0] != "css"@[0] && "txt"@[0] != "svg"@[0] && "txt"@[0] != "png"@[0]
        && "txt"@[0] != "jpg"@[0] && "txt"@[0] != "ico"@[0]);
    assert("json"@[0] != "html"@[0]);
    assert("jpeg"@[0] != "html"@[0] && "jpeg"@[1] != "json"@[1]);
    assert("webp"@[0] != "html"@[0] && "webp"@[0] != "json"@[0] && "webp"@[0] != "jpeg"@[0]);
    assert("woff"@[0] != "html"@[0] && "woff"@[0] != "json"@[0] && "woff"@[0] != "jpeg"@[0] && "woff"@[1] != "webp"@[1]);
    assert("wasm"@[0] != "html"@[0] && "wasm"@[0] != "json"@[0] && "wasm"@[0] != "jpeg"@[0] && "wasm"@[1] != "webp"@[1]
        && "wasm"@[1] != "woff"@[1]);
    let path = stem + "."@ + ext;
    let k = stem.len() as int;
    assert(path[k] == '.');
    assert forall|j: int| k < j < path.len() implies path[j] != '.' by {
        assert(path[j] == ext[j - k - 1]);
    }
    lemma_last_index_at(path, '.', k);
    assert(path.skip(k + 1) =~= ext);
    assert(extension(path) == Some(ext));
}

/// A path without a `.` is served as an opaque byte stream.
pub proof fn law_content_type_without_extension(path: Seq<char>)
    requires
        forall|k: int| 0 <= k < path.len() ==> path[k] != '.',
    ensures
        spec_content_type(path) == "application/octet-stream"@,
{
    lemma_last_index(path, '.');
}

fn ext_is(e: &[char], lit: &str) -> (r: bool)
    ensures
        r == (e@ == lit@),
{
    let l = chars_of(lit);
    chars_equal(e, l.as_slice())
}

/// Chooses the `Content-Type` for a bundle asset from its extension.
pub fn content_type(path: &str) -> (r: &'static str)
    ensures
        r@ == spec_content_type(path@),
{
    let pc = chars_of(path);
    match last_index_chars(pc.as_slice(), '.') {
        None => "application/octet-stream",
        Some(i) => {
            proof {
                lemma_last_index(pc@, '.');
            }
            let e = sub_chars(pc.as_slice(), i + 1, pc.len());
            proof {
                assert(pc@.subrange(i + 1, pc@.len() as int) =~= pc@.skip(i + 1));
            }
            if ext_is(e.as_slice(), "html") {
                "text/html; charset=utf-8"
            } else if ext_is(e.as_slice(), "js") || ext_is(e.as_slice(), "mjs") {
                "text/javascript; charset=utf-8"
            } else if ext_is(e.as_slice(), "css") {
                "text/css; charset=utf-8"
            } else if ext_is(e.as_slice(), "json") {
                "application/json; charset=utf-8"
            } else if ext_is(e.as_slice(), "svg") {
                "image/svg+xml"
            } else if ext_is(e.as_slice(), "png") {
                "image/png"
            } else if ext_is(e.as_slice(), "jpg") || ext_is(e.as_slice(), "jpeg") {
                "image/jpeg"
            } else if ext_is(e.as_slice(), "webp") {
                "image/webp"
            } else if ext_is(e.as_slice(), "ico") {
                "image/x-icon"
            } else if ext_is(e.as_slice(), "woff") {
                "font/woff"
            } else if ext_is(e.as_slice(), "woff2") {
                "font/woff2"
            } else {
                "application/octet-stream"
            }
        },
    }
}


/// Big-endian value of a byte sequence.
pub open spec fn be_value(b: Seq<u8>) -> nat
    decreases b.len(),
{
    if b.len() == 0 {
        0
    } else {
        be_value(b.drop_last()) * 256 + (b.last() as nat)
    }
}

/// `256` raised to `k`.
pub open spec fn pow256(k: nat) -> nat
    decreases k,
{
    if k == 0 {
        1
    } else {
        pow256((k - 1) as nat) * 256
    }
}

proof fn lemma_pow256_mono(j: nat, k: nat)
    requires
        j <= k,
    ensures
        pow256(j) <= pow256(k),
    decreases k,
{
    if j < k {
        lemma_pow256_mono(j, (k - 1) as nat);
    }
}

fn be_number(b: &[u8], from: usize, count: usize) -> (v: u64)
    requires
        count <= 8,
        from + count <= b@.len(),
    ensures
        v as nat == be_value(b@.subrange(from as int, from + count)),
{
    let n = b.len();
    let mut value: u64 = 0;
    let mut k: usize = 0;
    proof {
        reveal_with_fuel(pow256, 9);
        assert(pow256(8) == 0x1_0000_0000_0000_0000nat);
    }
    while k < count
        invariant
            count <= 8,
            from + count <= b@.len(),
            n == b@.len(),
            k <= count,
            value as nat == be_value(b@.subrange(from as int, from + k)),
            (value as nat) < pow256(k as nat),
            pow256(8) == 0x1_0000_0000_0000_0000nat,
        decreases count - k,
    {
        proof {
            lemma_pow256_mono((k + 1) as nat, 8);
            assert(b@.subrange(from as int, from + k + 1).drop_last() =~= b@.subrange(from as int, from + k));
        }
        value = value * 256 + (b[from + k] as u64);
        k = k + 1;
    }
    value
}

/// XOR-unmasks (or masks) a payload with a four byte key.
pub open spec fn unmask(mask: Seq<u8>, data: Seq<u8>) -> Seq<u8> {
    Seq::new(data.len(), |i: int| data[i] ^ mask[i % 4])
}

/// Result of scanning the front of a client input buffer for one WebSocket frame.
pub enum FrameScan {
    /// More bytes are needed.
    Incomplete,
    /// The buffer starts with a frame this runtime refuses.
    Invalid,
    /// One whole frame: its opcode, unmasked payload and encoded size.
    Complete { opcode: u8, payload: Seq<u8>, consumed: nat },
}

/// Length of the extended payload length field selected by the 7-bit length.
pub open spec fn extended_len_size(short: u8) -> nat {
    if short == 126 {
        2
    } else if short == 127 {
        8
    } else {
        0
    }
}

/// Scans one client-to-server frame: FIN set, no RSV bits, masked, bounded;
/// control frames carry at most 125 bytes.
pub open spec fn scan_frame(buf: Seq<u8>) -> FrameScan {
    if buf.len() < 2 {
        FrameScan::Incomplete
    } else {
        let first = buf[0];
        let second = buf[1];
        if first & 0x80 == 0 || first & 0x70 != 0 || second & 0x80 == 0 {
            FrameScan::Invalid
        } else {
            let opcode = first & 0x0f;
            let short = second & 0x7f;
            let ext = extended_len_size(short) as int;
            if buf.len() < 2 + ext {
                FrameScan::Incomplete
            } else {
                let len: int = if ext == 0 {
                    short as int
                } else {
                    be_value(buf.subrange(2, 2 + ext)) as int
                };
                if (opcode & 0x08 != 0 && len > 125) || len > MAX_WS_MESSAGE_BYTES {
                    FrameScan::Invalid
                } else {
                    let start = 2 + ext + 4;
                    if buf.len() < start + len {
                        FrameScan::Incomplete
                    } else {
                        FrameScan::Complete {
                            opcode,
                            payload: unmask(buf.subrange(2 + ext, start), buf.subrange(start, start + len)),
                            consumed: (start + len) as nat,
                        }
                    }
                }
            }
        }
    }
}

/// One decoded WebSocket frame.
#[derive(Debug)]
pub struct WebSocketFrame {
    /// Frame opcode.
    pub opcode: u8,
    /// Unmasked payload bytes.
    pub payload: Vec<u8>,
}

/// Takes one complete masked client frame off the front of `buffer`.
///
/// `Ok(None)` leaves the buffer untouched until more bytes arrive; `Err(())`
/// reports a frame the runtime refuses, also leaving the buffer untouched.
pub fn take_websocket_frame(buffer: &mut Vec<u8>) -> (r: Result<Option<WebSocketFrame>, ()>)
    ensures
        match scan_frame(old(buffer)@) {
            FrameScan::Incomplete => r == Ok::<Option<WebSocketFrame>, ()>(None) && final(buffer)@ == old(buffer)@,
            FrameScan::Invalid => r.is_err() && final(buffer)@ == old(buffer)@,
            FrameScan::Complete { opcode, payload, consumed } => match r {
                Ok(Some(frame)) => frame.opcode == opcode && frame.payload@ == payload
                    && final(buffer)@ == old(buffer)@.skip(consumed as int),
                _ => false,
            },
        },
{
    let n = buffer.len();
    if n < 2 {
        return Ok(None);
    }
    let first = buffer[0];
    let second = buffer[1];
    if first & 0x80 == 0 || first & 0x70 != 0 || second & 0x80 == 0 {
        return Err(());
    }
    let opcode = first & 0x0f;
    let short = second & 0x7f;
    let ext: usize = if short == 126 {
        2
    } else if short == 127 {
        8
    } else {
        0
    };
    if n < 2 + ext {
        return Ok(None);
    }
    let len: u64 = if ext == 0 {
        short as u64
    } else {
        be_number(buffer.as_slice(), 2, ext)
    };
    if (opcode & 0x08 != 0 && len > 125) || len > MAX_WS_MESSAGE_BYTES as u64 {
        return Err(());
    }
    let len = len as usize;
    let start = 2 + ext + 4;
    if n < start + len {
        return Ok(None);
    }
    let mut payload: Vec<u8> = Vec::new();
    let mut i: usize = 0;
    while i < len
        invariant
            n == buffer@.len(),
            start + len <= n,
            start == 2 + ext + 4,
            i <= len,
            payload@ == unmask(buffer@.subrange(2 + ext, start as int), buffer@.subrange(start as int, start + len)).take(i as int),
        decreases len - i,
    {
        let m = buffer[2 + ext + i % 4];
        let b = buffer[start + i] ^ m;
        payload.push(b);
        proof {
            assert(payload@ =~= unmask(buffer@.subrange(2 + ext, start as int), buffer@.subrange(start as int, start + len)).take(i + 1));
        }
        i = i + 1;
    }
    proof {
        assert(unmask(buffer@.subrange(2 + ext, start as int), buffer@.subrange(start as int, start + len)).take(len as int)
            =~= unmask(buffer@.subrange(2 + ext, start as int), buffer@.subrange(start as int, start + len)));
    }
    let rest = sub_bytes(buffer.as_slice(), start + len, n);
    proof {
        assert(buffer@.subrange(start + len, n as int) =~= buffer@.skip(start + len));
    }
    *buffer = rest;
    Ok(Some(WebSocketFrame { opcode, payload }))
}


/// A masked client frame with FIN set and a 7-bit payload length.
pub open spec fn masked_client_frame(opcode: u8, mask: Seq<u8>, payload: Seq<u8>) -> Seq<u8> {
    seq![0x80u8 | opcode, 0x80u8 | (payload.len() as u8)] + mask + unmask(mask, payload)
}

/// Masking twice with the same key gives the payload back.
pub proof fn lemma_unmask_involution(mask: Seq<u8>, payload: Seq<u8>)
    requires
        mask.len() == 4,
    ensures
        unmask(mask, unmask(mask, payload)) == payload,
{
    assert forall|i: int| 0 <= i < payload.len() implies #[trigger] unmask(mask, unmask(mask, payload))[i] == payload[i] by {
        let p = payload[i];
        let m = mask[i % 4];
        assert((p ^ m) ^ m == p) by (bit_vector);
    }
    assert(unmask(mask, unmask(mask, payload)) =~= payload);
}

/// A client that masks a short payload with any key is decoded back to exactly
/// that opcode and payload, and only the frame's own bytes are consumed.
pub proof fn lemma_masked_frame_roundtrip(opcode: u8, mask: Seq<u8>, payload: Seq<u8>, rest: Seq<u8>)
    requires
        opcode < 16,
        mask.len() == 4,
        payload.len() <= 125,
    ensures
        scan_frame(masked_client_frame(opcode, mask, payload) + rest) == (FrameScan::Complete {
            opcode,
            payload,
            consumed: 6 + payload.len(),
        }),
{
    let len = payload.len() as u8;
    let buf = masked_client_frame(opcode, mask, payload) + rest;
    let first = 0x80u8 | opcode;
    let second = 0x80u8 | len;
    assert(buf[0] == first);
    assert(buf[1] == second);
    assert(first & 0x80 != 0 && first & 0x70 == 0 && first & 0x0f == opcode) by (bit_vector)
        requires
            first == 0x80u8 | opcode,
            opcode < 16,
    ;
    assert(second & 0x80 != 0 && second & 0x7f == len) by (bit_vector)
        requires
            second == 0x80u8 | len,
            len <= 125,
    ;
    assert(extended_len_size(len) == 0);
    assert(buf.subrange(2, 6) =~= mask);
    assert(buf.subrange(6, 6 + payload.len() as int) =~= unmask(mask, payload));
    lemma_unmask_involution(mask, payload);
}

/// A client frame with a 16-bit extended length (`126`, then the payload length
/// big-endian in two bytes), masked with any key, decodes to exactly its opcode
/// and payload and consumes exactly its own `8 + length` bytes.
pub proof fn law_extended_length_frame(opcode: u8, mask: Seq<u8>, payload: Seq<u8>, rest: Seq<u8>)
    requires
        opcode < 8,
        mask.len() == 4,
        payload.len() <= 65535,
    ensures
        scan_frame(
            seq![0x80u8 | opcode, 0xfeu8, (payload.len() / 256) as u8, (payload.len() % 256) as u8] + mask
                + Seq::new(payload.len(), |i: int| payload[i] ^ mask[i % 4]) + rest,
        ) == (FrameScan::Complete { opcode, payload, consumed: 8 + payload.len() }),
{
    let len = payload.len();
    let masked = Seq::new(len, |i: int| payload[i] ^ mask[i % 4]);
    let hi = (len / 256) as u8;
    let lo = (len % 256) as u8;
    let buf = seq![0x80u8 | opcode, 0xfeu8, hi, lo] + mask + masked + rest;
    let first = 0x80u8 | opcode;
    assert(buf[0] == first);
    assert(buf[1] == 0xfeu8);
    assert(first & 0x80 != 0 && first & 0x70 == 0 && first & 0x0f == opcode && opcode & 0x08 == 0) by (bit_vector)
        requires
            first == 0x80u8 | opcode,
            opcode < 8,
    ;
    assert(0xfeu8 & 0x80u8 != 0 && 0xfeu8 & 0x7fu8 == 126u8) by (bit_vector);
    assert(extended_len_size(126u8) == 2);
    let field = buf.subrange(2, 4);
    assert(field =~= seq![hi, lo]);
    assert(field.drop_last() =~= seq![hi]);
    assert(seq![hi].drop_last() =~= Seq::<u8>::empty());
    reveal_with_fuel(be_value, 3);
    assert(be_value(field) == hi as nat * 256 + lo as nat);
    assert(hi as nat * 256 + lo as nat == len);
    assert(buf.subrange(4, 8) =~= mask);
    assert(buf.subrange(8, 8 + len as int) =~= masked);
    assert(unmask(mask, masked) =~= payload) by {
        assert forall|i: int| 0 <= i < len implies #[trigger] unmask(mask, masked)[i] == payload[i] by {
            let p = payload[i];
            let m = mask[i % 4];
            assert((p ^ m) ^ m == p) by (bit_vector);
        }
    }
}

/// A client frame with a 64-bit extended length (`127`, then the payload length
/// big-endian in eight bytes), masked with any key, decodes to exactly its
/// opcode and payload and consumes exactly its own `14 + length` bytes, for
/// every payload within the message bound.
pub proof fn law_long_length_frame(opcode: u8, mask: Seq<u8>, payload: Seq<u8>, rest: Seq<u8>)
    requires
        opcode < 8,
        mask.len() == 4,
        payload.len() <= MAX_WS_MESSAGE_BYTES,
    ensures
        scan_frame(
            seq![
                0x80u8 | opcode,
                0xffu8,
                0u8,
                0u8,
                0u8,
                0u8,
                0u8,
                (payload.len() / 65536) as u8,
                ((payload.len() / 256) % 256) as u8,
                (payload.len() % 256) as u8,
            ] + mask + Seq::new(payload.len(), |i: int| payload[i] ^ mask[i % 4]) + rest,
        ) == (FrameScan::Complete { opcode, payload, consumed: 14 + payload.len() }),
{
    let len = payload.len();
    let masked = Seq::new(len, |i: int| payload[i] ^ mask[i % 4]);
    let b2 = (len / 65536) as u8;
    let b1 = ((len / 256) % 256) as u8;
    let b0 = (len % 256) as u8;
    let buf = seq![0x80u8 | opcode, 0xffu8, 0u8, 0u8, 0u8, 0u8, 0u8, b2, b1, b0] + mask + masked + rest;
    let first = 0x80u8 | opcode;
    assert(buf[0] == first);
    assert(buf[1] == 0xffu8);
    assert(first & 0x80 != 0 && first & 0x70 == 0 && first & 0x0f == opcode && opcode & 0x08 == 0) by (bit_vector)
        requires
            first == 0x80u8 | opcode,
            opcode < 8,
    ;
    assert(0xffu8 & 0x80u8 != 0 && 0xffu8 & 0x7fu8 == 127u8) by (bit_vector);
    assert(extended_len_size(127u8) == 8);
    let field = buf.subrange(2, 10);
    assert(field =~= seq![0u8, 0u8, 0u8, 0u8, 0u8, b2, b1, b0]);
    let f5 = seq![0u8, 0u8, 0u8, 0u8, 0u8];
    assert(be_value(f5) == 0) by {
        reveal_with_fuel(be_value, 6);
        assert(f5.drop_last() =~= seq![0u8, 0u8, 0u8, 0u8]);
        assert(seq![0u8, 0u8, 0u8, 0u8].drop_last() =~= seq![0u8, 0u8, 0u8]);
        assert(seq![0u8, 0u8, 0u8].drop_last() =~= seq![0u8, 0u8]);
        assert(seq![0u8, 0u8].drop_last() =~= seq![0u8]);
        assert(seq![0u8].drop_last() =~= Seq::<u8>::empty());
    }
    let f6 = f5.push(b2);
    let f7 = f6.push(b1);
    assert(field =~= f7.push(b0));
    assert(f6.drop_last() =~= f5);
    assert(f7.drop_last() =~= f6);
    assert(field.drop_last() =~= f7);
    assert(be_value(f6) == b2 as nat);
    assert(be_value(f7) == b2 as nat * 256 + b1 as nat);
    assert(be_value(field) == (b2 as nat * 256 + b1 as nat) * 256 + b0 as nat);
    assert((b2 as nat * 256 + b1 as nat) * 256 + b0 as nat == len) by (nonlinear_arith)
        requires
            b2 as nat == len / 65536,
            b1 as nat == (len / 256) % 256,
            b0 as nat == len % 256,
            len <= 1048576,
    ;
    assert(buf.subrange(10, 14) =~= mask);
    assert(buf.subrange(14, 14 + len as int) =~= masked);
    assert(unmask(mask, masked) =~= payload) by {
        assert forall|i: int| 0 <= i < len implies #[trigger] unmask(mask, masked)[i] == payload[i] by {
            let p = payload[i];
            let m = mask[i % 4];
            assert((p ^ m) ^ m == p) by (bit_vector);
        }
    }
}

/// Frames the runtime refuses: one without FIN, one with a reserved bit set, an
/// unmasked one, and a control frame (opcode 8 to 15) whose 16-bit length is
/// over 125.
pub proof fn law_refused_frames(buf: Seq<u8>)
    requires
        buf.len() >= 2,
    ensures
        buf[0] < 0x80 ==> scan_frame(buf) is Invalid,
        buf[0] >= 0x90 ==> scan_frame(buf) is Invalid,
        buf[1] < 0x80 ==> scan_frame(buf) is Invalid,
        0x88 <= buf[0] <= 0x8f && buf[1] == 0xfe && buf.len() >= 4 && buf[2] as int * 256 + buf[3] as int > 125
            ==> scan_frame(buf) is Invalid,
{
    let b0 = buf[0];
    let b1 = buf[1];
    assert(b0 < 0x80 ==> b0 & 0x80 == 0) by (bit_vector);
    assert(b0 >= 0x90 ==> (b0 & 0x80 == 0 || b0 & 0x70 != 0)) by (bit_vector);
    assert(b1 < 0x80 ==> b1 & 0x80 == 0) by (bit_vector);
    assert(0x88 <= b0 <= 0x8f ==> b0 & 0x80 != 0 && b0 & 0x70 == 0 && (b0 & 0x0f) & 0x08 != 0) by (bit_vector);
    assert(b1 == 0xfe ==> b1 & 0x80 != 0 && b1 & 0x7f == 126) by (bit_vector);
    if 0x88 <= b0 <= 0x8f && b1 == 0xfe && buf.len() >= 4 {
        let field = buf.subrange(2, 4);
        assert(field.drop_last() =~= seq![buf[2]]);
        assert(seq![buf[2]].drop_last() =~= Seq::<u8>::empty());
        reveal_with_fuel(be_value, 3);
        assert(be_value(field) == buf[2] as nat * 256 + buf[3] as nat);
    }
}

/// Big-endian encoding of `n` in `k` bytes.
pub open spec fn be_bytes(n: nat, k: nat) -> Seq<u8>
    decreases k,
{
    if k == 0 {
        Seq::empty()
    } else {
        be_bytes(n / 256, (k - 1) as nat).push((n % 256) as u8)
    }
}

/// A length written big-endian into `k` bytes reads back unchanged.
pub proof fn lemma_be_bytes_roundtrip(n: nat, k: nat)
    requires
        n < pow256(k),
    ensures
        be_bytes(n, k).len() == k,
        be_value(be_bytes(n, k)) == n,
    decreases k,
{
    if k > 0 {
        assert(n / 256 < pow256((k - 1) as nat)) by (nonlinear_arith)
            requires
                n < pow256((k - 1) as nat) * 256,
        ;
        lemma_be_bytes_roundtrip(n / 256, (k - 1) as nat);
        assert(be_bytes(n, k).drop_last() =~= be_bytes(n / 256, (k - 1) as nat));
        assert(n == (n / 256) * 256 + n % 256) by (nonlinear_arith);
    }
}

fn push_be(n: u64, k: usize, out: &mut Vec<u8>)
    ensures
        final(out)@ == old(out)@ + be_bytes(n as nat, k as nat),
    decreases k,
{
    if k > 0 {
        push_be(n / 256, k - 1, out);
        out.push((n % 256) as u8);
        proof {
            assert(old(out)@ + be_bytes((n / 256) as nat, (k - 1) as nat) + seq![(n % 256) as u8]
                =~= old(out)@ + be_bytes(n as nat, k as nat));
        }
    } else {
        proof {
            assert(old(out)@ + Seq::<u8>::empty() =~= old(out)@);
        }
    }
}

/// Header of an unmasked server frame with FIN set.
pub open spec fn server_frame_header(opcode: u8, len: nat) -> Seq<u8> {
    let first = 0x80u8 | (opcode & 0x0f);
    if len <= 125 {
        seq![first, len as u8]
    } else if len <= 65535 {
        seq![first, 126u8] + be_bytes(len, 2)
    } else {
        seq![first, 127u8] + be_bytes(len, 8)
    }
}

/// Encodes one unmasked server-to-client frame.
pub fn encode_ws_frame(opcode: u8, payload: &[u8]) -> (frame: Vec<u8>)
    ensures
        frame@ == server_frame_header(opcode, payload@.len()) + payload@,
{
    let mut frame: Vec<u8> = Vec::new();
    frame.push(0x80u8 | (opcode & 0x0f));
    let len = payload.len();
    if len <= 125 {
        frame.push(len as u8);
    } else if len <= 65535 {
        frame.push(126u8);
        push_be(len as u64, 2, &mut frame);
    } else {
        frame.push(127u8);
        push_be(len as u64, 8, &mut frame);
    }
    let ghost header = frame@;
    let mut i: usize = 0;
    while i < len
        invariant
            len == payload@.len(),
            i <= len,
            frame@ == header + payload@.take(i as int),
        decreases len - i,
    {
        frame.push(payload[i]);
        proof {
            assert(header + payload@.take(i as int) + seq![payload@[i as int]] =~= header + payload@.take(i + 1));
        }
        i = i + 1;
    }
    proof {
        assert(payload@.take(len as int) =~= payload@);
        assert(header =~= server_frame_header(opcode, payload@.len()));
    }
    frame
}

/// A bundle asset scheduled for streaming after the response header.
#[derive(Debug)]
pub struct PendingAsset {
    /// Asset key inside the component bundle.
    pub key: String,
    /// Bytes of the asset already written.
    pub offset: usize,
    /// Total bytes to write.
    pub length: usize,
}

/// Protocol phase of one client connection.
#[derive(Debug)]
pub enum ClientMode {
    /// Reading an HTTP request head.
    HttpRequest,
    /// Writing an HTTP response, then closing.
    HttpResponse,
    /// Upgraded renderer bridge connection.
    WebSocket { hello_complete: bool },
}

/// Per-connection buffers and protocol state.
#[derive(Debug)]
pub struct Client {
    /// Host socket handle.
    pub socket: u64,
    /// Bytes read and not yet consumed.
    pub inbound: Vec<u8>,
    /// Bytes queued for writing.
    pub outbound: Vec<u8>,
    /// How much of `outbound` was already written.
    pub outbound_offset: usize,
    /// Asset streamed after `outbound` drains.
    pub pending_asset: Option<PendingAsset>,
    /// Digest of the last Portable UI state sent to this client.
    pub last_state_digest: Option<[u8; 20]>,
    /// Protocol phase.
    pub mode: ClientMode,
    /// Close the connection once everything queued is written.
    pub close_after_write: bool,
}

impl Client {
    /// A freshly accepted connection waiting for an HTTP request.
    pub fn new(socket: u64) -> (c: Client)
        ensures
            c.socket == socket,
            c.inbound@.len() == 0,
            c.outbound@.len() == 0,
            c.outbound_offset == 0,
            c.pending_asset.is_none(),
            c.last_state_digest.is_none(),
            c.mode is HttpRequest,
            !c.close_after_write,
    {
        Client {
            socket,
            inbound: Vec::new(),
            outbound: Vec::new(),
            outbound_offset: 0,
            pending_asset: None,
            last_state_digest: None,
            mode: ClientMode::HttpRequest,
            close_after_write: false,
        }
    }
}

/// The not yet written part of a client's output buffer.
pub open spec fn unwritten(outbound: Seq<u8>, offset: usize) -> Seq<u8> {
    if offset == 0 {
        outbound
    } else if offset >= outbound.len() {
        Seq::empty()
    } else {
        outbound.skip(offset as int)
    }
}

/// Queues bytes for a client, first dropping what was already written.
///
/// Output beyond `MAX_CLIENT_BUFFER_BYTES` is refused: the buffer is cleared,
/// streaming stops and the connection is marked to close.
pub fn append_bounded_output(client: &mut Client, bytes: &[u8]) -> (accepted: bool)
    ensures
        final(client).outbound_offset == 0,
        final(client).socket == old(client).socket,
        final(client).inbound == old(client).inbound,
        final(client).mode == old(client).mode,
        final(client).last_state_digest == old(client).last_state_digest,
        accepted == (unwritten(old(client).outbound@, old(client).outbound_offset).len() + bytes@.len()
            <= MAX_CLIENT_BUFFER_BYTES),
        accepted ==> final(client).outbound@ == unwritten(old(client).outbound@, old(client).outbound_offset) + bytes@
            && final(client).pending_asset == old(client).pending_asset
            && final(client).close_after_write == old(client).close_after_write,
        !accepted ==> final(client).outbound@.len() == 0 && final(client).pending_asset.is_none()
            && final(client).close_after_write,
{
    if client.outbound_offset > 0 {
        if client.outbound_offset >= client.outbound.len() {
            client.outbound.clear();
        } else {
            let rest = sub_bytes(client.outbound.as_slice(), client.outbound_offset, client.outbound.len());
            proof {
                assert(old(client).outbound@.subrange(old(client).outbound_offset as int, old(client).outbound@.len() as int)
                    =~= old(client).outbound@.skip(old(client).outbound_offset as int));
            }
            client.outbound = rest;
        }
        client.outbound_offset = 0;
    }
    if client.outbound.len() > MAX_CLIENT_BUFFER_BYTES || bytes.len() > MAX_CLIENT_BUFFER_BYTES - client.outbound.len() {
        client.outbound.clear();
        client.pending_asset = None;
        client.close_after_write = true;
        return false;
    }
    let ghost before = client.outbound@;
    let ghost snap_offset = client.outbound_offset;
    let ghost snap_socket = client.socket;
    let ghost snap_inbound = client.inbound;
    let ghost snap_mode = client.mode;
    let ghost snap_digest = client.last_state_digest;
    let ghost snap_pending = client.pending_asset;
    let ghost snap_close = client.close_after_write;
    let mut i: usize = 0;
    while i < bytes.len()
        invariant
            i <= bytes@.len(),
            client.outbound@ == before + bytes@.take(i as int),
            client.outbound_offset == snap_offset,
            client.socket == snap_socket,
            client.inbound == snap_inbound,
            client.mode == snap_mode,
            client.last_state_digest == snap_digest,
            client.pending_asset == snap_pending,
            client.close_after_write == snap_close,
        decreases bytes@.len() - i,
    {
        client.outbound.push(bytes[i]);
        proof {
            assert(before + bytes@.take(i as int) + seq![bytes@[i as int]] =~= before + bytes@.take(i + 1));
        }
        i = i + 1;
    }
    proof {
        assert(bytes@.take(bytes@.len() as int) =~= bytes@);
    }
    true
}

/// Frames a server message and queues it within the client output bound.
pub fn queue_ws_frame(client: &mut Client, opcode: u8, payload: &[u8]) -> (accepted: bool)
    ensures
        accepted == (unwritten(old(client).outbound@, old(client).outbound_offset).len()
            + server_frame_header(opcode, payload@.len()).len() + payload@.len() <= MAX_CLIENT_BUFFER_BYTES),
        accepted ==> final(client).outbound@ == unwritten(old(client).outbound@, old(client).outbound_offset)
            + server_frame_header(opcode, payload@.len()) + payload@,
        !accepted ==> final(client).outbound@.len() == 0 && final(client).close_after_write,
        final(client).mode == old(client).mode,
        final(client).outbound_offset == 0,
{
    let frame = encode_ws_frame(opcode, payload);
    proof {
        lemma_header_len(opcode, payload@.len());
    }
    let accepted = append_bounded_output(client, frame.as_slice());
    proof {
        assert(unwritten(old(client).outbound@, old(client).outbound_offset) + frame@
            =~= unwritten(old(client).outbound@, old(client).outbound_offset) + server_frame_header(opcode, payload@.len()) + payload@);
    }
    accepted
}

proof fn lemma_header_len(opcode: u8, len: nat)
    ensures
        server_frame_header(opcode, len).len() == if len <= 125 {
            2nat
        } else if len <= 65535 {
            4nat
        } else {
            10nat
        },
{
    if len > 125 {
        lemma_be_len(len, 2);
        lemma_be_len(len, 8);
    }
}

proof fn lemma_be_len(n: nat, k: nat)
    ensures
        be_bytes(n, k).len() == k,
    decreases k,
{
    if k > 0 {
        lemma_be_len(n / 256, (k - 1) as nat);
    }
}


/// Reason phrase written for the statuses this runtime answers with.
pub open spec fn status_reason(status: u16) -> Seq<char> {
    if status == 200 {
        "OK"@
    } else if status == 400 {
        "Bad Request"@
    } else if status == 404 {
        "Not Found"@
    } else if status == 405 {
        "Method Not Allowed"@
    } else if status == 431 {
        "Request Header Fields Too Large"@
    } else {
        "Error"@
    }
}

/// Text of an HTTP/1.1 response head that closes the connection and forbids caching.
pub open spec fn http_head_text(status: u16, content_type: Seq<char>, content_length: nat) -> Seq<char> {
    "HTTP/1.1 "@ + decimal(status as nat) + " "@ + status_reason(status) + "\r\nContent-Type: "@
        + content_type + "\r\nContent-Length: "@ + decimal(content_length)
        + "\r\nConnection: close\r\nCache-Control: no-store\r\n\r\n"@
}

fn reason_text(status: u16) -> (r: &'static str)
    ensures
        r@ == status_reason(status),
{
    if status == 200 {
        "OK"
    } else if status == 400 {
        "Bad Request"
    } else if status == 404 {
        "Not Found"
    } else if status == 405 {
        "Method Not Allowed"
    } else if status == 431 {
        "Request Header Fields Too Large"
    } else {
        "Error"
    }
}

/// Copies the UTF-8 bytes of a string.
pub fn utf8_bytes(s: &String) -> (out: Vec<u8>)
    ensures
        out@ == vstd::utf8::encode_utf8(s@),
{
    let b = s.as_str().as_bytes();
    let out = vstd::slice::slice_to_vec(b);
    out
}

/// Encodes an HTTP response head.
pub fn http_response_header(status: u16, content_type: &str, content_length: usize) -> (out: Vec<u8>)
    ensures
        out@ == vstd::utf8::encode_utf8(http_head_text(status, content_type@, content_length as nat)),
{
    let mut text = String::new();
    text.append("HTTP/1.1 ");
    let code = u64_text(status as u64);
    text.append(code.as_str());
    text.append(" ");
    text.append(reason_text(status));
    text.append("\r\nContent-Type: ");
    text.append(content_type);
    text.append("\r\nContent-Length: ");
    let len = u64_text(content_length as u64);
    text.append(len.as_str());
    text.append("\r\nConnection: close\r\nCache-Control: no-store\r\n\r\n");
    proof {
        assert(text@ =~= http_head_text(status, content_type@, content_length as nat));
    }
    utf8_bytes(&text)
}

/// Replaces any queued output with a complete response and marks the
/// connection to close once it is written.
pub fn queue_http_response(client: &mut Client, status: u16, content_type: &str, body: &[u8])
    ensures
        final(client).outbound@ == vstd::utf8::encode_utf8(http_head_text(status, content_type@, body@.len())) + body@,
        final(client).outbound_offset == 0,
        final(client).inbound@.len() == 0,
        final(client).mode is HttpResponse,
        final(client).pending_asset.is_none(),
        final(client).close_after_write,
        final(client).socket == old(client).socket,
{
    let header = http_response_header(status, content_type, body.len());
    let mut out = header;
    let ghost head = out@;
    let mut i: usize = 0;
    while i < body.len()
        invariant
            i <= body@.len(),
            out@ == head + body@.take(i as int),
        decreases body@.len() - i,
    {
        out.push(body[i]);
        proof {
            assert(head + body@.take(i as int) + seq![body@[i as int]] =~= head + body@.take(i + 1));
        }
        i = i + 1;
    }
    proof {
        assert(body@.take(body@.len() as int) =~= body@);
    }
    client.inbound = Vec::new();
    client.mode = ClientMode::HttpResponse;
    client.outbound = out;
    client.outbound_offset = 0;
    client.pending_asset = None;
    client.close_after_write = true;
}

/// Queues a `200 OK` head and schedules the bundle asset to stream after it.
pub fn queue_http_asset(client: &mut Client, key: String, content_type: &str, content_length: usize)
    ensures
        final(client).outbound@ == vstd::utf8::encode_utf8(http_head_text(200, content_type@, content_length as nat)),
        final(client).outbound_offset == 0,
        final(client).inbound@.len() == 0,
        final(client).mode is HttpResponse,
        content_length > 0 ==> final(client).pending_asset == Some(PendingAsset { key, offset: 0, length: content_length }),
        content_length == 0 ==> final(client).pending_asset.is_none(),
        final(client).close_after_write,
        final(client).socket == old(client).socket,
{
    let header = http_response_header(200, content_type, content_length);
    client.inbound = Vec::new();
    client.mode = ClientMode::HttpResponse;
    client.outbound = header;
    client.outbound_offset = 0;
    client.pending_asset = if content_length > 0 {
        Some(PendingAsset { key, offset: 0, length: content_length })
    } else {
        None
    };
    client.close_after_write = true;
}

/// Next write a client connection needs.
#[derive(Debug)]
pub enum FlushStep {
    /// Close the connection now.
    Close,
    /// Nothing to write yet.
    Idle,
    /// Write `outbound[from..to]`.
    Buffered { from: usize, to: usize },
    /// Write `asset[from..to]` of the pending asset.
    Asset { from: usize, to: usize },
}

/// `min(a + b, cap)` without overflow.
pub open spec fn capped_end(a: usize, step: usize, cap: nat) -> nat {
    if a + step < cap {
        (a + step) as nat
    } else {
        cap
    }
}

/// Chooses the next bounded chunk to write: queued bytes first, then the pending
/// asset (closing when its bytes are gone), then close-after-write.
pub fn plan_flush(client: &Client, stored_len: Option<usize>) -> (step: FlushStep)
    requires
        match (client.pending_asset, stored_len) {
            (Some(a), Some(n)) => a.offset <= a.length && a.offset <= n,
            _ => true,
        },
    ensures
        client.outbound_offset < client.outbound@.len() ==> step == (FlushStep::Buffered {
            from: client.outbound_offset,
            to: capped_end(client.outbound_offset, NETWORK_WRITE_BYTES, client.outbound@.len()) as usize,
        }),
        client.outbound_offset >= client.outbound@.len() ==> match client.pending_asset {
            Some(a) => match stored_len {
                None => step is Close,
                Some(n) => {
                    let end = capped_end(a.offset, NETWORK_WRITE_BYTES, if a.length <= n { a.length as nat } else { n as nat });
                    if a.offset < end {
                        step == (FlushStep::Asset { from: a.offset, to: end as usize })
                    } else {
                        step is Idle
                    }
                },
            },
            None => if client.close_after_write {
                step is Close
            } else {
                step is Idle
            },
        },
{
    let len = client.outbound.len();
    if client.outbound_offset < len {
        let end = if NETWORK_WRITE_BYTES < len - client.outbound_offset {
            client.outbound_offset + NETWORK_WRITE_BYTES
        } else {
            len
        };
        return FlushStep::Buffered { from: client.outbound_offset, to: end };
    }
    match &client.pending_asset {
        Some(asset) => match stored_len {
            None => FlushStep::Close,
            Some(n) => {
                let cap = if asset.length <= n { asset.length } else { n };
                let end = if NETWORK_WRITE_BYTES < cap - asset.offset {
                    asset.offset + NETWORK_WRITE_BYTES
                } else {
                    cap
                };
                if asset.offset < end {
                    FlushStep::Asset { from: asset.offset, to: end }
                } else {
                    FlushStep::Idle
                }
            },
        },
        None => if client.close_after_write {
            FlushStep::Close
        } else {
            FlushStep::Idle
        },
    }
}

/// Records `written` bytes of a planned chunk of `chunk_len` bytes and reports
/// whether the connection should now close.
/// Bytes actually accounted for a write: at most the chunk size.
pub open spec fn counted(written: u64, chunk_len: usize) -> nat {
    if (written as nat) < (chunk_len as nat) {
        written as nat
    } else {
        chunk_len as nat
    }
}

/// `a + w` saturating at `usize::MAX`.
pub open spec fn sat_add(a: usize, w: nat) -> nat {
    if a + w <= usize::MAX {
        (a + w) as nat
    } else {
        usize::MAX as nat
    }
}

/// Effect of recording a write of the pending asset.
pub open spec fn asset_progress(before: Option<PendingAsset>, after: Option<PendingAsset>, w: nat) -> bool {
    match before {
        Some(a) => if sat_add(a.offset, w) >= a.length {
            after.is_none()
        } else {
            after == Some(PendingAsset { key: a.key, offset: sat_add(a.offset, w) as usize, length: a.length })
        },
        None => after.is_none(),
    }
}

/// Effect of recording a write of queued output.
pub open spec fn buffer_progress(old_out: Seq<u8>, old_off: usize, new_out: Seq<u8>, new_off: usize, w: nat) -> bool {
    if sat_add(old_off, w) >= old_out.len() {
        new_out.len() == 0 && new_off == 0
    } else {
        new_out == old_out && new_off == sat_add(old_off, w)
    }
}

/// Records `written` bytes of a planned chunk of `chunk_len` bytes and reports
/// whether the connection should now close.
pub fn record_written(client: &mut Client, is_asset: bool, written: u64, chunk_len: usize) -> (close: bool)
    ensures
        is_asset ==> asset_progress(old(client).pending_asset, final(client).pending_asset, counted(written, chunk_len))
            && final(client).outbound == old(client).outbound
            && final(client).outbound_offset == old(client).outbound_offset,
        !is_asset ==> final(client).pending_asset == old(client).pending_asset && buffer_progress(
            old(client).outbound@,
            old(client).outbound_offset,
            final(client).outbound@,
            final(client).outbound_offset,
            counted(written, chunk_len),
        ),
        final(client).close_after_write == old(client).close_after_write,
        final(client).mode == old(client).mode,
        final(client).socket == old(client).socket,
        close == (final(client).close_after_write && final(client).outbound@.len() == 0
            && final(client).pending_asset.is_none()),
{
    let w: usize = if written < chunk_len as u64 {
        written as usize
    } else {
        chunk_len
    };
    if is_asset {
        let taken = client.pending_asset.take();
        match taken {
            Some(asset) => {
                let off = asset.offset.saturating_add(w);
                if off >= asset.length {
                    client.pending_asset = None;
                } else {
                    client.pending_asset = Some(PendingAsset { key: asset.key, offset: off, length: asset.length });
                }
            },
            None => {},
        }
    } else {
        let off = client.outbound_offset.saturating_add(w);
        if off >= client.outbound.len() {
            client.outbound = Vec::new();
            client.outbound_offset = 0;
        } else {
            client.outbound_offset = off;
        }
    }
    client.close_after_write && client.outbound.len() == 0 && client.pending_asset.is_none()
}


/// Errors a target provider reports to the host.
#[derive(Debug, PartialEq, Eq, Structural)]
pub enum TargetError {
    /// The component descriptor is malformed or inconsistent.
    InvalidDescriptor,
    /// A host resource the component needs is unavailable.
    Unavailable,
    /// The host refused a registration or resource.
    Rejected,
    /// No component with that handle is loaded.
    UnknownComponent,
}

/// One contract a Web component provides.
#[derive(Debug)]
pub struct ProvidedContractConfig {
    /// Contract identifier.
    pub id: String,
    /// Contract major version.
    pub version: u32,
    /// Secrets the provider needs to read.
    pub required_secret_read: Vec<String>,
}

/// Portable UI renderer layer a Web component provides.
#[derive(Debug)]
pub struct UiLayerConfig {
    /// Portable UI protocol major the renderer speaks.
    pub protocol_major: u32,
    /// Portable UI capabilities the renderer requires of its browser client.
    pub capabilities: Vec<String>,
}

/// Web component descriptor.
#[derive(Debug)]
pub struct WebLayerConfig {
    /// Descriptor schema version.
    pub schema: u32,
    /// Bridge protocol major the bundle speaks.
    pub bridge_protocol_major: u32,
    /// Entry document, relative to the descriptor.
    pub entry: String,
    /// Loopback port to listen on.
    pub listen_port: u16,
    /// Contracts the component provides.
    pub provides: Vec<ProvidedContractConfig>,
    /// Optional Portable UI renderer layer.
    pub ui_layer: Option<UiLayerConfig>,
}

/// Every provided contract has a non-empty identifier without surrounding white
/// space, and no `(id, version)` pair repeats.
pub open spec fn provides_valid(p: Seq<ProvidedContractConfig>) -> bool {
    &&& forall|i: int| 0 <= i < p.len() ==> (#[trigger] p[i]).id@.len() > 0 && trim(p[i].id@) == p[i].id@
    &&& forall|i: int, j: int|
        0 <= i < j < p.len() ==> !((#[trigger] p[i]).id@ == (#[trigger] p[j]).id@ && p[i].version == p[j].version)
}

/// A renderer layer declares a protocol and a non-empty list of distinct,
/// non-empty capabilities.
pub open spec fn ui_layer_valid(layer: UiLayerConfig) -> bool {
    &&& layer.protocol_major != 0
    &&& layer.capabilities@.len() > 0
    &&& forall|i: int| 0 <= i < layer.capabilities@.len() ==> (#[trigger] layer.capabilities@[i])@.len() > 0
    &&& forall|i: int, j: int|
        0 <= i < j < layer.capabilities@.len() ==> (#[trigger] layer.capabilities@[i])@ != (#[trigger] layer.capabilities@[j])@
}

/// A descriptor this runtime can load.
pub open spec fn config_valid(c: WebLayerConfig) -> bool {
    &&& c.schema == 1
    &&& c.bridge_protocol_major == WEB_BRIDGE_PROTOCOL_MAJOR
    &&& c.listen_port != 0
    &&& c.entry@.len() > 0
    &&& provides_valid(c.provides@)
    &&& match c.ui_layer {
        Some(layer) => ui_layer_valid(layer),
        None => true,
    }
}

fn provides_ok(p: &Vec<ProvidedContractConfig>) -> (r: bool)
    ensures
        r == provides_valid(p@),
{
    let n = p.len();
    let mut i: usize = 0;
    while i < n
        invariant
            n == p@.len(),
            i <= n,
            forall|a: int| 0 <= a < i ==> (#[trigger] p@[a]).id@.len() > 0 && trim(p@[a].id@) == p@[a].id@,
            forall|a: int, b: int|
                0 <= a < b < n && a < i ==> !((#[trigger] p@[a]).id@ == (#[trigger] p@[b]).id@ && p@[a].version == p@[b].version),
        decreases n - i,
    {
        let id = chars_of(p[i].id.as_str());
        let t = trim_chars(id.as_slice());
        if id.len() == 0 || !chars_equal(t.as_slice(), id.as_slice()) {
            return false;
        }
        let mut j: usize = i + 1;
        while j < n
            invariant
                n == p@.len(),
                i < n,
                i < j <= n,
                id@ == p@[i as int].id@,
                forall|b: int| i < b < j ==> !(p@[i as int].id@ == (#[trigger] p@[b]).id@ && p@[i as int].version == p@[b].version),
            decreases n - j,
        {
            if p[i].version == p[j].version && str_equal(p[i].id.as_str(), p[j].id.as_str()) {
                return false;
            }
            j = j + 1;
        }
        i = i + 1;
    }
    true
}

fn ui_layer_ok(layer: &UiLayerConfig) -> (r: bool)
    ensures
        r == ui_layer_valid(*layer),
{
    if layer.protocol_major == 0 || layer.capabilities.len() == 0 {
        return false;
    }
    let caps = &layer.capabilities;
    let n = caps.len();
    let mut i: usize = 0;
    while i < n
        invariant
            n == caps@.len(),
            caps == &layer.capabilities,
            i <= n,
            forall|a: int| 0 <= a < i ==> (#[trigger] caps@[a])@.len() > 0,
            forall|a: int, b: int| 0 <= a < b < n && a < i ==> (#[trigger] caps@[a])@ != (#[trigger] caps@[b])@,
        decreases n - i,
    {
        if caps[i].as_str().is_empty() {
            return false;
        }
        let mut j: usize = i + 1;
        while j < n
            invariant
                n == caps@.len(),
                caps == &layer.capabilities,
                i < j <= n,
                forall|b: int| i < b < j ==> caps@[i as int]@ != (#[trigger] caps@[b])@,
            decreases n - j,
        {
            if str_equal(caps[i].as_str(), caps[j].as_str()) {
                return false;
            }
            j = j + 1;
        }
        i = i + 1;
    }
    true
}

/// Validates a Web component descriptor.
pub fn validate_config(config: &WebLayerConfig) -> (r: Result<(), TargetError>)
    ensures
        r is Ok <==> config_valid(*config),
        r is Err ==> r == Err::<(), TargetError>(TargetError::InvalidDescriptor),
{
    if config.schema != 1 || config.bridge_protocol_major != WEB_BRIDGE_PROTOCOL_MAJOR || config.listen_port == 0
        || config.entry.as_str().is_empty() {
        return Err(TargetError::InvalidDescriptor);
    }
    if !provides_ok(&config.provides) {
        return Err(TargetError::InvalidDescriptor);
    }
    match &config.ui_layer {
        Some(layer) => {
            if !ui_layer_ok(layer) {
                return Err(TargetError::InvalidDescriptor);
            }
        },
        None => {},
    }
    Ok(())
}

/// How a renderer's hello is answered.
#[derive(Debug, PartialEq, Eq, Structural)]
pub enum HelloOutcome {
    /// The component has no Portable UI renderer layer.
    RendererUnavailable,
    /// Protocol majors differ or a required capability is missing.
    Incompatible,
    /// The renderer may receive state.
    Accepted,
}

/// Every required capability is among the provided ones.
pub open spec fn caps_cover(required: Seq<String>, provided: Seq<String>) -> bool {
    forall|i: int| 0 <= i < required.len() ==> has_cap(provided, #[trigger] required[i]@)
}

/// `c` is one of the provided capabilities.
pub open spec fn has_cap(provided: Seq<String>, c: Seq<char>) -> bool {
    exists|j: int| 0 <= j < provided.len() && (#[trigger] provided[j])@ == c
}

fn capabilities_match(required: &Vec<String>, provided: &Vec<String>) -> (r: bool)
    ensures
        r == caps_cover(required@, provided@),
{
    let mut i: usize = 0;
    while i < required.len()
        invariant
            i <= required@.len(),
            forall|a: int| 0 <= a < i ==> has_cap(provided@, #[trigger] required@[a]@),
        decreases required@.len() - i,
    {
        let mut found = false;
        let mut j: usize = 0;
        while j < provided.len()
            invariant
                i < required@.len(),
                j <= provided@.len(),
                forall|a: int| 0 <= a < i ==> has_cap(provided@, #[trigger] required@[a]@),
                found ==> has_cap(provided@, required@[i as int]@),
                !found ==> forall|b: int| 0 <= b < j ==> (#[trigger] provided@[b])@ != required@[i as int]@,
            decreases provided@.len() - j,
        {
            if str_equal(provided[j].as_str(), required[i].as_str()) {
                found = true;
            }
            j = j + 1;
        }
        if !found {
            proof {
                assert(!has_cap(provided@, required@[i as int]@));
            }
            return false;
        }
        i = i + 1;
    }
    true
}

/// Decides a renderer hello against the component's renderer layer.
pub fn hello_outcome(
    expected: &Option<UiLayerConfig>,
    protocol_major: u32,
    portable_ui_protocol_major: u32,
    capabilities: &Vec<String>,
) -> (r: HelloOutcome)
    ensures
        match expected {
            None => r == HelloOutcome::RendererUnavailable,
            Some(layer) => if protocol_major == WEB_BRIDGE_PROTOCOL_MAJOR && portable_ui_protocol_major
                == layer.protocol_major && caps_cover(layer.capabilities@, capabilities@) {
                r == HelloOutcome::Accepted
            } else {
                r == HelloOutcome::Incompatible
            },
        },
{
    match expected {
        None => HelloOutcome::RendererUnavailable,
        Some(layer) => {
            let covered = capabilities_match(&layer.capabilities, capabilities);
            if protocol_major != WEB_BRIDGE_PROTOCOL_MAJOR || portable_ui_protocol_major != layer.protocol_major || !covered {
                HelloOutcome::Incompatible
            } else {
                HelloOutcome::Accepted
            }
        },
    }
}

/// The client finished the renderer handshake.
pub open spec fn hello_done(client: &Client) -> bool {
    client.mode == (ClientMode::WebSocket { hello_complete: true })
}

/// Marks an upgraded connection's handshake as complete.
pub fn complete_hello(client: &mut Client)
    ensures
        (old(client).mode is WebSocket) ==> hello_done(final(client)),
        !(old(client).mode is WebSocket) ==> final(client).mode == old(client).mode,
        final(client).outbound == old(client).outbound,
        final(client).socket == old(client).socket,
{
    match client.mode {
        ClientMode::WebSocket { .. } => {
            client.mode = ClientMode::WebSocket { hello_complete: true };
        },
        _ => {},
    }
}

/// Reports whether the client's handshake is complete.
pub fn client_hello_complete(client: &Client) -> (r: bool)
    ensures
        r == hello_done(client),
{
    match client.mode {
        ClientMode::WebSocket { hello_complete } => hello_complete,
        _ => false,
    }
}

/// An action may be dispatched only in the bridge protocol after the handshake.
pub fn action_allowed(client: &Client, protocol_major: u32) -> (r: bool)
    ensures
        r == (protocol_major == WEB_BRIDGE_PROTOCOL_MAJOR && hello_done(client)),
{
    protocol_major == WEB_BRIDGE_PROTOCOL_MAJOR && client_hello_complete(client)
}

/// Records a new Portable UI state digest for a ready client and reports whether
/// the state must be sent to it.
pub fn take_state_update(client: &mut Client, digest: [u8; 20]) -> (send: bool)
    ensures
        send == (hello_done(old(client)) && old(client).last_state_digest != Some(digest)),
        send ==> final(client).last_state_digest == Some(digest),
        !send ==> final(client).last_state_digest == old(client).last_state_digest,
        final(client).mode == old(client).mode,
        final(client).outbound == old(client).outbound,
        final(client).socket == old(client).socket,
{
    if !client_hello_complete(client) {
        return false;
    }
    let same = match client.last_state_digest {
        Some(previous) => {
            let mut k: usize = 0;
            let mut eq = true;
            while k < 20
                invariant
                    k <= 20,
                    eq == (forall|m: int| 0 <= m < k ==> previous@[m] == digest@[m]),
                decreases 20 - k,
            {
                if previous[k] != digest[k] {
                    eq = false;
                }
                k = k + 1;
            }
            proof {
                if eq {
                    assert(previous =~= digest);
                }
            }
            eq
        },
        None => false,
    };
    if same {
        return false;
    }
    client.last_state_digest = Some(digest);
    true
}


/// One request header as parsed.
#[derive(Debug)]
pub struct HeaderField {
    /// Header name as sent.
    pub name: String,
    /// Raw header value bytes.
    pub value: Vec<u8>,
}

/// Outcome of parsing the front of a client buffer as an HTTP request head.
#[derive(Debug)]
pub enum HeadParse {
    /// A whole head of `consumed` bytes.
    Complete { consumed: usize, method: Option<String>, path: Option<String>, headers: Vec<HeaderField> },
    /// More bytes are needed.
    Partial,
    /// The bytes are not an acceptable request head.
    Invalid,
}

/// Plain-value view of a parsed request head.
pub enum HeadView {
    /// A whole head.
    Complete { consumed: nat, method: Option<Seq<char>>, path: Option<Seq<char>>, headers: Seq<(Seq<char>, Seq<u8>)> },
    /// More bytes are needed.
    Partial,
    /// Not an acceptable head.
    Invalid,
}

/// View of an optional string.
pub open spec fn opt_view(o: Option<String>) -> Option<Seq<char>> {
    match o {
        Some(s) => Some(s@),
        None => None,
    }
}

impl View for HeadParse {
    type V = HeadView;

    open spec fn view(&self) -> HeadView {
        match self {
            HeadParse::Complete { consumed, method, path, headers } => HeadView::Complete {
                consumed: *consumed as nat,
                method: opt_view(*method),
                path: opt_view(*path),
                headers: headers@.map_values(|h: HeaderField| (h.name@, h.value@)),
            },
            HeadParse::Partial => HeadView::Partial,
            HeadParse::Invalid => HeadView::Invalid,
        }
    }
}

/// How `httparse` (with room for 48 headers) parses a request head.
pub uninterp spec fn httparse_request(input: Seq<u8>) -> HeadView;

/// `httparse::Request::parse` with room for 48 headers, converted field by field.
/// A complete head never claims more bytes than it was given.
#[verifier::external_body]
fn parse_request_head(input: &[u8]) -> (r: HeadParse)
    ensures
        r@ == httparse_request(input@),
        r matches HeadParse::Complete { consumed, .. } ==> consumed <= input@.len(),
{
    let mut headers = [httparse::EMPTY_HEADER; 48];
    let mut request = httparse::Request::new(&mut headers);
    match request.parse(input) {
        Ok(httparse::Status::Complete(consumed)) => HeadParse::Complete {
            consumed,
            method: request.method.map(String::from),
            path: request.path.map(String::from),
            headers: request.headers.iter().map(|h| HeaderField { name: String::from(h.name), value: h.value.to_vec() }).collect(),
        },
        Ok(httparse::Status::Partial) => HeadParse::Partial,
        Err(_) => HeadParse::Invalid,
    }
}

/// The value bytes of the first header with the given name (ASCII case-insensitive).
pub open spec fn first_header(headers: Seq<(Seq<char>, Seq<u8>)>, name: Seq<char>) -> Option<Seq<u8>>
    decreases headers.len(),
{
    if headers.len() == 0 {
        None
    } else if eq_ignore_case(headers[0].0, name) {
        Some(headers[0].1)
    } else {
        first_header(headers.drop_first(), name)
    }
}

/// The trimmed text of the first header with that name, when it is UTF-8.
pub open spec fn header_text(headers: Seq<(Seq<char>, Seq<u8>)>, name: Seq<char>) -> Option<Seq<char>> {
    match first_header(headers, name) {
        Some(v) => if vstd::utf8::valid_utf8(v) {
            Some(trim(vstd::utf8::decode_utf8(v)))
        } else {
            None
        },
        None => None,
    }
}

/// Looks up a request header the way the upgrade check reads it.
pub fn request_header(headers: &Vec<HeaderField>, name: &str) -> (r: Option<String>)
    ensures
        opt_view(r) == header_text(headers@.map_values(|h: HeaderField| (h.name@, h.value@)), name@),
{
    let ghost hs = headers@.map_values(|h: HeaderField| (h.name@, h.value@));
    let mut k: usize = 0;
    proof {
        assert(hs.skip(0) =~= hs);
    }
    while k < headers.len()
        invariant
            k <= headers@.len(),
            hs == headers@.map_values(|h: HeaderField| (h.name@, h.value@)),
            first_header(hs, name@) == first_header(hs.skip(k as int), name@),
        decreases headers@.len() - k,
    {
        let ghost rest = hs.skip(k as int);
        proof {
            assert(rest.drop_first() =~= hs.skip(k + 1));
            assert(rest[0] == (headers@[k as int].name@, headers@[k as int].value@));
        }
        if eq_ignore_ascii_case(headers[k].name.as_str(), name) {
            return match utf8_decode(headers[k].value.as_slice()) {
                Some(text) => Some(trim_string(text.as_str())),
                None => None,
            };
        }
        k = k + 1;
    }
    proof {
        assert(hs.skip(k as int).len() == 0);
    }
    None
}

/// The key a WebSocket upgrade must echo, hashed with the protocol GUID.
pub open spec fn ws_guid() -> Seq<u8> {
    vstd::utf8::encode_utf8("258EAFA5-E914-47DA-95CA-C5AB0DC85B11"@)
}

/// Text of the `101 Switching Protocols` answer for a client key.
pub open spec fn upgrade_response_text(key: Seq<char>) -> Seq<char> {
    "HTTP/1.1 101 Switching Protocols\r\nUpgrade: websocket\r\nConnection: Upgrade\r\nSec-WebSocket-Accept: "@
        + base64_text(sha1_of(vstd::utf8::encode_utf8(key) + ws_guid())) + "\r\n\r\n"@
}

/// The header values a WebSocket upgrade needs are all present and agree, the
/// key decodes to 16 bytes and the origin is allowed.
pub open spec fn upgrade_valid(headers: Seq<(Seq<char>, Seq<u8>)>) -> bool {
    let key = header_text(headers, "sec-websocket-key"@);
    let host = header_text(headers, "host"@);
    let origin = header_text(headers, "origin"@);
    let version = header_text(headers, "sec-websocket-version"@);
    let upgrade = header_text(headers, "upgrade"@);
    let connection = header_text(headers, "connection"@);
    &&& upgrade matches Some(u) && spec_header_has_token(u, "websocket"@)
    &&& connection matches Some(c) && spec_header_has_token(c, "upgrade"@)
    &&& version == Some("13"@)
    &&& key matches Some(k) && (base64_bytes(vstd::utf8::encode_utf8(k)) matches Some(b) && b.len() == 16)
    &&& host matches Some(h) && spec_origin_allowed(h, origin)
}

/// How an HTTP client request is answered.
#[derive(Debug)]
pub enum HttpRoute {
    /// A plain text error response.
    Respond { status: u16, body: &'static str },
    /// The request head is not complete yet.
    Partial,
    /// Switch to the renderer bridge after consuming the head.
    Upgrade { consumed: usize, response: Vec<u8> },
    /// Serve a bundle asset (`None`: the entry document; empty key: rejected path).
    Asset { key: Option<String> },
}

/// Plain-value view of a route.
pub enum RouteView {
    /// Error response.
    Respond { status: u16, body: Seq<char> },
    /// Incomplete head.
    Partial,
    /// Upgrade answer.
    Upgrade { consumed: nat, response: Seq<u8> },
    /// Asset request.
    Asset { key: Option<Seq<char>> },
}

impl View for HttpRoute {
    type V = RouteView;

    open spec fn view(&self) -> RouteView {
        match self {
            HttpRoute::Respond { status, body } => RouteView::Respond { status: *status, body: body@ },
            HttpRoute::Partial => RouteView::Partial,
            HttpRoute::Upgrade { consumed, response } => RouteView::Upgrade { consumed: *consumed as nat, response: response@ },
            HttpRoute::Asset { key } => RouteView::Asset { key: opt_view(*key) },
        }
    }
}

/// How a parsed request head is answered: only `GET` is served; the bridge
/// path upgrades when the handshake is valid; everything else names an asset.
pub open spec fn route_for(head: HeadView) -> RouteView {
    match head {
        HeadView::Partial => RouteView::Partial,
        HeadView::Invalid => RouteView::Respond { status: 400, body: "bad request"@ },
        HeadView::Complete { consumed, method, path, headers } => if method != Some("GET"@) {
            RouteView::Respond { status: 405, body: "method not allowed"@ }
        } else {
            let p = match path {
                Some(p) => p,
                None => "/"@,
            };
            if before_char(p, '?') == "/__rintawa/ws"@ {
                if upgrade_valid(headers) {
                    RouteView::Upgrade {
                        consumed,
                        response: vstd::utf8::encode_utf8(upgrade_response_text(header_text(headers, "sec-websocket-key"@)->0)),
                    }
                } else {
                    RouteView::Respond { status: 400, body: "invalid websocket upgrade"@ }
                }
            } else {
                RouteView::Asset { key: spec_asset_path(p) }
            }
        },
    }
}

fn upgrade_checks(headers: &Vec<HeaderField>) -> (r: Option<String>)
    ensures
        match r {
            Some(k) => upgrade_valid(headers@.map_values(|h: HeaderField| (h.name@, h.value@)))
                && header_text(headers@.map_values(|h: HeaderField| (h.name@, h.value@)), "sec-websocket-key"@) == Some(k@),
            None => !upgrade_valid(headers@.map_values(|h: HeaderField| (h.name@, h.value@))),
        },
{
    let key = request_header(headers, "sec-websocket-key");
    let host = request_header(headers, "host");
    let origin = request_header(headers, "origin");
    let version = request_header(headers, "sec-websocket-version");
    let upgrade = match request_header(headers, "upgrade") {
        Some(u) => header_has_token(u.as_str(), "websocket"),
        None => false,
    };
    let connection = match request_header(headers, "connection") {
        Some(c) => header_has_token(c.as_str(), "upgrade"),
        None => false,
    };
    let version_ok = match &version {
        Some(v) => str_equal(v.as_str(), "13"),
        None => false,
    };
    let key_ok = match &key {
        Some(k) => match base64_decode(k.as_str().as_bytes()) {
            Some(bytes) => bytes.len() == 16,
            None => false,
        },
        None => false,
    };
    let origin_ok = match &host {
        Some(h) => match &origin {
            Some(o) => websocket_origin_allowed(h.as_str(), Some(o.as_str())),
            None => websocket_origin_allowed(h.as_str(), None),
        },
        None => false,
    };
    if upgrade && connection && version_ok && key_ok && origin_ok {
        key
    } else {
        None
    }
}

/// Builds the `101 Switching Protocols` answer for a client key.
pub fn upgrade_response(key: &str) -> (out: Vec<u8>)
    ensures
        out@ == vstd::utf8::encode_utf8(upgrade_response_text(key@)),
{
    let mut input = vstd::slice::slice_to_vec(key.as_bytes());
    let guid = "258EAFA5-E914-47DA-95CA-C5AB0DC85B11".as_bytes();
    let mut i: usize = 0;
    let ghost head = input@;
    while i < guid.len()
        invariant
            i <= guid@.len(),
            input@ == head + guid@.take(i as int),
        decreases guid@.len() - i,
    {
        input.push(guid[i]);
        proof {
            assert(head + guid@.take(i as int) + seq![guid@[i as int]] =~= head + guid@.take(i + 1));
        }
        i = i + 1;
    }
    proof {
        assert(guid@.take(guid@.len() as int) =~= guid@);
    }
    let digest = sha1_digest(input.as_slice());
    let accept = base64_encode(&digest);
    let mut text = String::new();
    text.append("HTTP/1.1 101 Switching Protocols\r\nUpgrade: websocket\r\nConnection: Upgrade\r\nSec-WebSocket-Accept: ");
    text.append(accept.as_str());
    text.append("\r\n\r\n");
    proof {
        assert(text@ =~= upgrade_response_text(key@));
    }
    utf8_bytes(&text)
}

/// Answers a parsed request head.
pub fn route_parsed_request(head: &HeadParse) -> (r: HttpRoute)
    ensures
        r@ == route_for(head@),
{
    match head {
        HeadParse::Partial => HttpRoute::Partial,
        HeadParse::Invalid => HttpRoute::Respond { status: 400, body: "bad request" },
        HeadParse::Complete { consumed, method, path, headers } => {
            let is_get = match method {
                Some(m) => str_equal(m.as_str(), "GET"),
                None => false,
            };
            if !is_get {
                return HttpRoute::Respond { status: 405, body: "method not allowed" };
            }
            let p: &str = match path {
                Some(p) => p.as_str(),
                None => "/",
            };
            let pc = chars_of(p);
            let route_path = before_char_chars(pc.as_slice(), '?');
            let ws = chars_of(WS_PATH);
            if chars_equal(route_path.as_slice(), ws.as_slice()) {
                match upgrade_checks(headers) {
                    Some(key) => HttpRoute::Upgrade { consumed: *consumed, response: upgrade_response(key.as_str()) },
                    None => HttpRoute::Respond { status: 400, body: "invalid websocket upgrade" },
                }
            } else {
                HttpRoute::Asset { key: normalize_asset_path(p) }
            }
        },
    }
}

/// How a client's buffered request bytes are answered: oversized heads are
/// refused before parsing.
pub open spec fn route_request_bytes(inbound: Seq<u8>) -> RouteView {
    if inbound.len() > MAX_HTTP_HEADER_BYTES {
        RouteView::Respond { status: 431, body: "request header too large"@ }
    } else {
        route_for(httparse_request(inbound))
    }
}

/// Parses and answers the request bytes buffered for a client.
pub fn route_http_request(inbound: &[u8]) -> (r: HttpRoute)
    ensures
        r@ == route_request_bytes(inbound@),
        r matches HttpRoute::Upgrade { consumed, .. } ==> consumed <= inbound@.len(),
{
    if inbound.len() > MAX_HTTP_HEADER_BYTES {
        return HttpRoute::Respond { status: 431, body: "request header too large" };
    }
    let head = parse_request_head(inbound);
    route_parsed_request(&head)
}

/// Switches a client to the renderer bridge: the request head is consumed and
/// the upgrade answer queued.
pub fn begin_websocket(client: &mut Client, consumed: usize, response: &[u8]) -> (accepted: bool)
    requires
        consumed <= old(client).inbound@.len(),
    ensures
        final(client).inbound@ == old(client).inbound@.skip(consumed as int),
        final(client).mode == (ClientMode::WebSocket { hello_complete: false }),
        accepted == (unwritten(old(client).outbound@, old(client).outbound_offset).len() + response@.len() <= MAX_CLIENT_BUFFER_BYTES),
        accepted ==> final(client).outbound@ == unwritten(old(client).outbound@, old(client).outbound_offset) + response@
            && !final(client).close_after_write,
        !accepted ==> final(client).outbound@.len() == 0 && final(client).close_after_write,
{
    let rest = sub_bytes(client.inbound.as_slice(), consumed, client.inbound.len());
    proof {
        assert(old(client).inbound@.subrange(consumed as int, old(client).inbound@.len() as int) =~= old(client).inbound@.skip(consumed as int));
    }
    client.inbound = rest;
    client.mode = ClientMode::WebSocket { hello_complete: false };
    client.close_after_write = false;
    append_bounded_output(client, response)
}

/// The `u64` that `serde_json` reads from a number with text `t`: an unsigned
/// integer is printed as plain decimal digits, and any other number text (a
/// sign, a fraction, an exponent) is not one.
pub open spec fn json_number_u64(t: Seq<char>) -> Option<u64> {
    if t.len() > 0 && is_digit(t[0]) {
        parse_u64(t)
    } else {
        None
    }
}

/// A surface's `snapshot.revision`, where it is a number that reads as a `u64`.
pub open spec fn snapshot_revision(surface: JsonValue) -> Option<u64> {
    match surface {
        JsonValue::Object(e) => match obj_get(e@, "snapshot"@) {
            Some(JsonValue::Object(e2)) => match obj_get(e2@, "revision"@) {
                Some(JsonValue::Number(t)) => json_number_u64(t@),
                _ => None,
            },
            _ => None,
        },
        _ => None,
    }
}

/// `after` is the object entries `e` with the value at position `i` replaced
/// (key kept), every other entry unchanged.
pub open spec fn entry_replaced(e: Seq<(String, JsonValue)>, after: Seq<(String, JsonValue)>, i: int) -> bool {
    &&& 0 <= i < e.len()
    &&& after.len() == e.len()
    &&& after[i].0 == e[i].0
    &&& forall|x: int| 0 <= x < e.len() && x != i ==> #[trigger] after[x] == e[x]
}

/// `after` is `surface` with its `snapshot.revision` turned into the decimal
/// text of `n`, and nothing else changed.
pub open spec fn revision_as_string(surface: JsonValue, after: JsonValue, n: u64) -> bool {
    match surface {
        JsonValue::Object(e) => match after {
            JsonValue::Object(a) => {
                let i = key_index(e@, "snapshot"@);
                &&& entry_replaced(e@, a@, i)
                &&& match e@[i].1 {
                    JsonValue::Object(e2) => match a@[i].1 {
                        JsonValue::Object(a2) => {
                            let j = key_index(e2@, "revision"@);
                            &&& entry_replaced(e2@, a2@, j)
                            &&& a2@[j].1 matches JsonValue::String(t) && t@ == decimal(n as nat)
                        },
                        _ => false,
                    },
                    _ => false,
                }
            },
            _ => false,
        },
        _ => false,
    }
}

/// Position of the first surface whose revision is not a `u64` number (the
/// length where there is none).
pub open spec fn first_unconvertible(items: Seq<JsonValue>) -> int
    decreases items.len(),
{
    if items.len() == 0 {
        0
    } else if snapshot_revision(items[0]) is None {
        0
    } else {
        1 + first_unconvertible(items.drop_first())
    }
}

/// The `u64` of a number's text, as `serde_json::Value::as_u64` reads it.
fn number_u64(t: &str) -> (r: Option<u64>)
    ensures
        r == json_number_u64(t@),
{
    let cs = chars_of(t);
    if cs.len() > 0 && '0' <= cs[0] && cs[0] <= '9' {
        parse_u64_text(t)
    } else {
        None
    }
}

/// The surface's `snapshot.revision` as a `u64`, where it is one.
fn surface_revision(surface: &JsonValue) -> (r: Option<u64>)
    ensures
        r == snapshot_revision(*surface),
{
    match surface {
        JsonValue::Object(e) => match find_key(e, "snapshot") {
            Some(i) => match &e[i].1 {
                JsonValue::Object(e2) => match find_key(e2, "revision") {
                    Some(j) => match &e2[j].1 {
                        JsonValue::Number(t) => number_u64(t.as_str()),
                        _ => None,
                    },
                    None => None,
                },
                _ => None,
            },
            None => None,
        },
        _ => None,
    }
}

/// Replaces the surface's `snapshot.revision` number `n` by its decimal text.
fn with_string_revision(surface: JsonValue, n: u64) -> (after: JsonValue)
    requires
        snapshot_revision(surface) == Some(n),
    ensures
        revision_as_string(surface, after, n),
{
    match surface {
        JsonValue::Object(mut e) => {
            let ghost e0 = e@;
            let i = match find_key(&e, "snapshot") {
                Some(i) => i,
                None => {
                    return JsonValue::Object(e);
                },
            };
            let (k, snap) = e.remove(i);
            match snap {
                JsonValue::Object(mut e2) => {
                    let ghost f0 = e2@;
                    let j = match find_key(&e2, "revision") {
                        Some(j) => j,
                        None => {
                            e.insert(i, (k, JsonValue::Object(e2)));
                            return JsonValue::Object(e);
                        },
                    };
                    let (k2, _old) = e2.remove(j);
                    e2.insert(j, (k2, JsonValue::String(u64_text(n))));
                    proof {
                        assert forall|y: int| 0 <= y < f0.len() && y != j implies #[trigger] e2@[y] == f0[y] by {
                            if y < j {
                                assert(e2@[y] == f0[y]);
                            } else {
                                assert(e2@[y] == f0[y]);
                            }
                        }
                    }
                    let ghost a2 = e2;
                    e.insert(i, (k, JsonValue::Object(e2)));
                    proof {
                        assert forall|x: int| 0 <= x < e0.len() && x != i implies #[trigger] e@[x] == e0[x] by {
                            if x < i {
                                assert(e@[x] == e0[x]);
                            } else {
                                assert(e@[x] == e0[x]);
                            }
                        }
                        assert(entry_replaced(f0, a2@, j as int));
                        assert(entry_replaced(e0, e@, i as int));
                    }
                    JsonValue::Object(e)
                },
                other => {
                    e.insert(i, (k, other));
                    JsonValue::Object(e)
                },
            }
        },
        other => other,
    }
}

/// Turns each surface's `snapshot.revision` number into its decimal text, for
/// the browser, which cannot hold every `u64` as a number. `None` where the
/// value is not an array or a surface has no such revision; the surfaces
/// before that one are converted already and the rest are left as they were.
pub fn convert_surface_revisions_to_strings(surfaces: &mut JsonValue) -> (r: Option<()>)
    ensures
        match *old(surfaces) {
            JsonValue::Array(items) => {
                let f = first_unconvertible(items@);
                &&& (r is Some) == (f == items@.len())
                &&& *final(surfaces) matches JsonValue::Array(out) && out@.len() == items@.len()
                    && (forall|k: int| 0 <= k < f ==> revision_as_string(items@[k], #[trigger] out@[k], snapshot_revision(items@[k])->0))
                    && (forall|k: int| f <= k < items@.len() ==> #[trigger] out@[k] == items@[k])
            },
            _ => r is None && *final(surfaces) == *old(surfaces),
        },
{
    let mut taken = JsonValue::Null;
    core::mem::swap(surfaces, &mut taken);
    match taken {
        JsonValue::Array(mut rest) => {
            let ghost items = rest@;
            let mut out: Vec<JsonValue> = Vec::new();
            let mut ok = true;
            proof {
                assert(items.skip(0) =~= items);
            }
            while rest.len() > 0
                invariant_except_break
                    ok,
                    out@.len() + rest@.len() == items.len(),
                    rest@ == items.skip(out@.len() as int),
                    first_unconvertible(items) == out@.len() + first_unconvertible(rest@),
                    forall|k: int| 0 <= k < out@.len() ==> revision_as_string(items[k], #[trigger] out@[k], snapshot_revision(items[k])->0),
                ensures
                    out@.len() == items.len(),
                    ok == (first_unconvertible(items) == items.len()),
                    forall|k: int| 0 <= k < first_unconvertible(items) ==> revision_as_string(items[k], #[trigger] out@[k], snapshot_revision(items[k])->0),
                    forall|k: int| first_unconvertible(items) <= k < items.len() ==> #[trigger] out@[k] == items[k],
                decreases rest@.len(),
            {
                let ghost i = out@.len() as int;
                let ghost before_rest = rest@;
                let item = rest.remove(0);
                proof {
                    assert(item == items[i]);
                    assert(before_rest[0] == item);
                    assert(rest@ =~= before_rest.drop_first());
                    assert(items.skip(i + 1) =~= before_rest.drop_first());
                }
                match surface_revision(&item) {
                    Some(n) => {
                        let converted = with_string_revision(item, n);
                        out.push(converted);
                    },
                    None => {
                        out.push(item);
                        let mut tail = rest;
                        out.append(&mut tail);
                        proof {
                            assert(first_unconvertible(before_rest) == 0);
                            assert forall|k: int| i <= k < items.len() implies #[trigger] out@[k] == items[k] by {
                                if k > i {
                                    assert(out@[k] == items.skip(i + 1)[k - i - 1]);
                                }
                            }
                        }
                        ok = false;
                        break;
                    },
                }
            }
            *surfaces = JsonValue::Array(out);
            if ok {
                Some(())
            } else {
                None
            }
        },
        other => {
            *surfaces = other;
            None
        },
    }
}

/// A browser action's `surface_revision`, where it is text that reads as a `u64`.
pub open spec fn action_revision(event: JsonValue) -> Option<u64> {
    match event {
        JsonValue::Object(e) => match obj_get(e@, "surface_revision"@) {
            Some(JsonValue::String(t)) => parse_u64(t@),
            _ => None,
        },
        _ => None,
    }
}

/// `after` is `event` with its `surface_revision` turned into the number `n`.
pub open spec fn revision_as_number(event: JsonValue, after: JsonValue, n: u64) -> bool {
    match event {
        JsonValue::Object(e) => match after {
            JsonValue::Object(a) => {
                let i = key_index(e@, "surface_revision"@);
                &&& entry_replaced(e@, a@, i)
                &&& a@[i].1 matches JsonValue::Number(t) && t@ == decimal(n as nat)
            },
            _ => false,
        },
        _ => false,
    }
}

/// Reads a browser action's `surface_revision` text back into a number. `Err`,
/// with the action unchanged, where it is not an object whose
/// `surface_revision` is text that `str::parse::<u64>` reads.
pub fn convert_action_revision_to_number(event: &mut JsonValue) -> (r: Result<(), ()>)
    ensures
        match action_revision(*old(event)) {
            Some(n) => r is Ok && revision_as_number(*old(event), *final(event), n),
            None => r is Err && *final(event) == *old(event),
        },
{
    let mut taken = JsonValue::Null;
    core::mem::swap(event, &mut taken);
    match taken {
        JsonValue::Object(mut e) => {
            let ghost e0 = e@;
            let i = match find_key(&e, "surface_revision") {
                Some(i) => i,
                None => {
                    *event = JsonValue::Object(e);
                    return Err(());
                },
            };
            let parsed = match &e[i].1 {
                JsonValue::String(t) => parse_u64_text(t.as_str()),
                _ => None,
            };
            match parsed {
                None => {
                    *event = JsonValue::Object(e);
                    Err(())
                },
                Some(n) => {
                    let (k, _old) = e.remove(i);
                    e.insert(i, (k, JsonValue::Number(u64_text(n))));
                    proof {
                        assert forall|x: int| 0 <= x < e0.len() && x != i implies #[trigger] e@[x] == e0[x] by {
                            if x < i {
                                assert(e@[x] == e0[x]);
                            } else {
                                assert(e@[x] == e0[x]);
                            }
                        }
                        assert(entry_replaced(e0, e@, i as int));
                    }
                    *event = JsonValue::Object(e);
                    Ok(())
                },
            }
        },
        other => {
            *event = other;
            Err(())
        },
    }
}

} // verus!
