//! The artifact generator.
//!
//! `Pac::generate` maps an ordered host sequence to an immutable artifact:
//! a proxy-configuration script whose host list embeds each host as a quoted,
//! comma-terminated token, plus a content hash computed over exactly those
//! tokens — a SHA-512 digest rendered as URL-safe base64. The hash is a pure
//! function of the host sequence, so identical inputs always yield identical
//! artifacts.

use crate::host_order::strict_sorted;
use base64::Engine as _;
use sha2::Digest as _;
use vstd::prelude::*;
use vstd::string::*;
use vstd::utf8::encode_utf8;

verus! {

/// Mathematical view of an artifact: the script body and its content hash.
pub struct PacView {
    pub file: Seq<char>,
    pub hash: Seq<char>,
}

/// A generated proxy-configuration artifact: an immutable script body plus
/// the URL-safe content hash that addresses it.
#[derive(Debug)]
pub struct Pac {
    pub file: String,
    pub hash: String,
}

impl View for Pac {
    type V = PacView;

    open spec fn view(&self) -> PacView {
        PacView { file: self.file@, hash: self.hash@ }
    }
}

impl DeepView for Pac {
    type V = PacView;

    open spec fn deep_view(&self) -> PacView {
        self.view()
    }
}

/// The SHA-512 digest of a byte sequence, as computed by `sha2`.
pub uninterp spec fn sha512_of(bytes: Seq<u8>) -> Seq<u8>;

/// The URL-safe base64 rendering of a byte sequence, as produced by
/// `base64`'s `URL_SAFE` engine.
pub uninterp spec fn base64_url_of(bytes: Seq<u8>) -> Seq<char>;

/// Relies on `sha2::Sha512::digest`: a 64-byte digest that depends on the
/// input bytes alone.
#[verifier::external_body]
fn sha512(bytes: &Vec<u8>) -> (r: Vec<u8>)
    ensures
        r@ == sha512_of(bytes@),
        r@.len() == 64,
{
    sha2::Sha512::digest(bytes.as_slice()).to_vec()
}

/// Relies on `base64::engine::general_purpose::URL_SAFE`'s `encode`: the
/// text depends on the input bytes alone.
#[verifier::external_body]
fn base64_url(bytes: &Vec<u8>) -> (r: String)
    ensures
        r@ == base64_url_of(bytes@),
{
    base64::engine::general_purpose::URL_SAFE.encode(bytes.as_slice())
}

/// The serialized token for one host: the host text quoted and
/// comma-terminated.
pub open spec fn host_token(h: Seq<char>) -> Seq<char> {
    "\""@ + h + "\","@
}

/// The concatenation of all host tokens, in order. The content hash is
/// computed over exactly these characters (as UTF-8 bytes).
pub open spec fn host_tokens(hosts: Seq<Seq<char>>) -> Seq<char>
    decreases hosts.len(),
{
    if hosts.len() == 0 {
        Seq::empty()
    } else {
        host_token(hosts[0]) + host_tokens(hosts.drop_first())
    }
}

/// Whether some host has any characters. The trailing separator is trimmed
/// from the embedded list exactly when this holds.
pub open spec fn any_host_nonempty(hosts: Seq<Seq<char>>) -> bool {
    exists|i: int| 0 <= i < hosts.len() && hosts[i].len() > 0
}

/// The host-list portion embedded in the script: all tokens, with the
/// trailing separator trimmed when some host is non-empty.
pub open spec fn hosts_list_body(hosts: Seq<Seq<char>>) -> Seq<char> {
    if any_host_nonempty(hosts) {
        host_tokens(hosts).drop_last()
    } else {
        host_tokens(hosts)
    }
}

/// The fixed proxy-directive line appended after the host list.
pub open spec fn proxy_line() -> Seq<char> {
    "var __PROXY__ = \"SOCKS5 127.0.0.1:1080; SOCKS 127.0.0.1:1080; DIRECT;\""@
}

/// The fixed script template appended after the proxy directive.
pub open spec fn js_script() -> Seq<char> {
    "function FindProxyForURL(url, host) {\n    var lo = 0;\n    var hi = __HOSTS__.length;\n    while (lo < hi) {\n        var mid = (lo + hi) >> 1;\n        if (__HOSTS__[mid] < host) {\n            lo = mid + 1;\n        } else {\n            hi = mid;\n        }\n    }\n    if (lo < __HOSTS__.length && __HOSTS__[lo] === host) {\n        return __PROXY__;\n    }\n    return \"DIRECT\";\n}\n"@
}

/// The whole script body generated for a host sequence.
pub open spec fn pac_file_of(hosts: Seq<Seq<char>>) -> Seq<char> {
    "var __HOSTS__ = ["@ + hosts_list_body(hosts) + "];\n"@ + proxy_line() + "\n"@ + js_script()
}

/// The content hash generated for a host sequence: the SHA-512 digest of the
/// UTF-8 bytes of the host tokens, rendered as URL-safe base64.
pub open spec fn pac_hash_of(hosts: Seq<Seq<char>>) -> Seq<char> {
    base64_url_of(sha512_of(encode_utf8(host_tokens(hosts))))
}

/// Generation is deterministic: equal host sequences yield equal bodies and
/// equal hashes, with no other input.
pub proof fn lemma_generate_deterministic(h1: Seq<Seq<char>>, h2: Seq<Seq<char>>)
    requires
        h1 == h2,
    ensures
        pac_file_of(h1) == pac_file_of(h2),
        pac_hash_of(h1) == pac_hash_of(h2),
{
}

/// UTF-8 encoding distributes over concatenation.
proof fn lemma_encode_utf8_concat(a: Seq<char>, b: Seq<char>)
    ensures
        encode_utf8(a + b) == encode_utf8(a) + encode_utf8(b),
    decreases a.len(),
{
    if a.len() == 0 {
        assert(a + b =~= b);
        assert(encode_utf8(a) + encode_utf8(b) =~= encode_utf8(b));
    } else {
        assert((a + b)[0] == a[0]);
        assert((a + b).drop_first() =~= a.drop_first() + b);
        lemma_encode_utf8_concat(a.drop_first(), b);
        assert(encode_utf8(a + b) =~= encode_utf8(a) + encode_utf8(b));
    }
}

/// Appending one host appends its token.
proof fn lemma_host_tokens_push(hosts: Seq<Seq<char>>, h: Seq<char>)
    ensures
        host_tokens(hosts.push(h)) == host_tokens(hosts) + host_token(h),
    decreases hosts.len(),
{
    if hosts.len() == 0 {
        assert(hosts.push(h)[0] == h);
        assert(hosts.push(h).drop_first() =~= hosts);
        assert(host_tokens(hosts.push(h)) == host_token(h) + host_tokens(hosts));
        assert(host_tokens(hosts) == Seq::<char>::empty());
        assert(host_token(h) + Seq::<char>::empty() =~= Seq::<char>::empty() + host_token(h));
    } else {
        assert(hosts.push(h)[0] == hosts[0]);
        assert(hosts.push(h).drop_first() =~= hosts.drop_first().push(h));
        assert(host_tokens(hosts.push(h)) == host_token(hosts[0]) + host_tokens(
            hosts.drop_first().push(h),
        ));
        lemma_host_tokens_push(hosts.drop_first(), h);
        assert(host_token(hosts[0]) + (host_tokens(hosts.drop_first()) + host_token(h)) =~= (
        host_token(hosts[0]) + host_tokens(hosts.drop_first())) + host_token(h));
    }
}

/// The token list of a non-empty host sequence is non-empty and ends in the
/// separator.
proof fn lemma_host_tokens_last(hosts: Seq<Seq<char>>)
    requires
        hosts.len() > 0,
    ensures
        host_tokens(hosts).len() > 0,
        host_tokens(hosts).last() == ',',
    decreases hosts.len(),
{
    reveal_strlit("\"");
    reveal_strlit("\",");
    if hosts.len() == 1 {
        assert(hosts.drop_first().len() == 0);
        assert(host_tokens(hosts.drop_first()) == Seq::<char>::empty());
        assert(host_tokens(hosts) =~= host_token(hosts[0]));
    } else {
        lemma_host_tokens_last(hosts.drop_first());
    }
}

impl Pac {
    /// Wraps an existing body and hash as an artifact.
    pub fn new(file: String, hash: String) -> (r: Self)
        ensures
            r@.file == file@,
            r@.hash == hash@,
    {
        Self { file, hash }
    }

    /// Generates the artifact for `hosts`, which the whitelist store
    /// guarantees to be strictly ascending and duplicate-free. The body is
    /// `pac_file_of(hosts)` and the hash `pac_hash_of(hosts)`: both are
    /// functions of the host sequence alone.
    pub fn generate(hosts: Vec<String>) -> (r: Pac)
        requires
            strict_sorted(hosts.deep_view()),
        ensures
            r@.file == pac_file_of(hosts.deep_view()),
            r@.hash == pac_hash_of(hosts.deep_view()),
    {
        let ghost hv = hosts.deep_view();
        let mut toks = String::new();
        let mut digest_input: Vec<u8> = Vec::new();
        let mut any_nonempty = false;
        let n = hosts.len();
        let mut i: usize = 0;
        while i < n
            invariant
                i <= n,
                n == hosts.len(),
                hv == hosts.deep_view(),
                toks@ == host_tokens(hv.take(i as int)),
                digest_input@ == encode_utf8(toks@),
                any_nonempty == any_host_nonempty(hv.take(i as int)),
            decreases n - i,
        {
            proof {
                assert(hv[i as int] == hosts@[i as int]@);
            }
            let host = &hosts[i];
            if !host.as_str().is_empty() {
                any_nonempty = true;
            }
            let mut token = String::from_str("\"");
            token.append(host.as_str());
            token.append("\",");
            let mut token_bytes = token.as_str().as_bytes_vec();
            proof {
                assert(token@ == host_token(hv[i as int]));
                assert(hv.take(i + 1) =~= hv.take(i as int).push(hv[i as int]));
                lemma_host_tokens_push(hv.take(i as int), hv[i as int]);
                lemma_encode_utf8_concat(toks@, token@);
            }
            toks.append(token.as_str());
            digest_input.append(&mut token_bytes);
            proof {
                if hv[i as int].len() > 0 {
                    assert(hv.take(i + 1)[i as int].len() > 0);
                    assert(any_host_nonempty(hv.take(i + 1)));
                } else {
                    assert(forall|j: int|
                        0 <= j < i + 1 && #[trigger] hv.take(i + 1)[j].len() > 0
                            ==> 0 <= j < i && hv.take(i as int)[j].len() > 0);
                }
            }
            i = i + 1;
        }
        proof {
            assert(hv.take(n as int) =~= hv);
        }
        let digest = sha512(&digest_input);
        let hash = base64_url(&digest);

        let mut file = String::from_str("var __HOSTS__ = [");
        if any_nonempty {
            proof {
                assert(hv.len() > 0);
                lemma_host_tokens_last(hv);
            }
            let toks_len = toks.as_str().unicode_len();
            let trimmed = toks.as_str().substring_char(0, toks_len - 1);
            proof {
                assert(trimmed@ =~= host_tokens(hv).drop_last());
            }
            file.append(trimmed);
        } else {
            file.append(toks.as_str());
        }
        file.append("];\n");
        file.append("var __PROXY__ = \"SOCKS5 127.0.0.1:1080; SOCKS 127.0.0.1:1080; DIRECT;\"");
        file.append("\n");
        file.append("function FindProxyForURL(url, host) {\n    var lo = 0;\n    var hi = __HOSTS__.length;\n    while (lo < hi) {\n        var mid = (lo + hi) >> 1;\n        if (__HOSTS__[mid] < host) {\n            lo = mid + 1;\n        } else {\n            hi = mid;\n        }\n    }\n    if (lo < __HOSTS__.length && __HOSTS__[lo] === host) {\n        return __PROXY__;\n    }\n    return \"DIRECT\";\n}\n");
        Pac { file, hash }
    }
}

} // verus!
