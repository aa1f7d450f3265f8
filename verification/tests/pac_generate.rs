use base64::Engine as _;
use qpac::pac::Pac;
use sha2::Digest as _;

const JS_SCRIPT: &str = "function FindProxyForURL(url, host) {\n    var lo = 0;\n    var hi = __HOSTS__.length;\n    while (lo < hi) {\n        var mid = (lo + hi) >> 1;\n        if (__HOSTS__[mid] < host) {\n            lo = mid + 1;\n        } else {\n            hi = mid;\n        }\n    }\n    if (lo < __HOSTS__.length && __HOSTS__[lo] === host) {\n        return __PROXY__;\n    }\n    return \"DIRECT\";\n}\n";
const PROXY_LINE: &str =
    "var __PROXY__ = \"SOCKS5 127.0.0.1:1080; SOCKS 127.0.0.1:1080; DIRECT;\"";

#[test]
fn generate_is_deterministic() {
    let hosts = vec!["a.com".to_string(), "b.com".to_string()];
    let p1 = Pac::generate(hosts.clone());
    let p2 = Pac::generate(hosts);
    assert_eq!(p1.hash, p2.hash);
    assert_eq!(p1.file, p2.file);
}

#[test]
fn generate_empty_hosts_exact_body() {
    let pac = Pac::generate(Vec::new());
    let expected = format!("var __HOSTS__ = [];\n{}\n{}", PROXY_LINE, JS_SCRIPT);
    assert_eq!(pac.file, expected);
}

#[test]
fn generate_two_hosts_exact_body() {
    let pac = Pac::generate(vec!["a.com".to_string(), "b.com".to_string()]);
    let expected = format!(
        "var __HOSTS__ = [\"a.com\",\"b.com\"];\n{}\n{}",
        PROXY_LINE, JS_SCRIPT
    );
    assert_eq!(pac.file, expected);
}

#[test]
fn generate_hash_matches_sha512_of_tokens() {
    let pac = Pac::generate(vec!["a.com".to_string(), "b.com".to_string()]);
    let digest = sha2::Sha512::digest(b"\"a.com\",\"b.com\",");
    let expected = base64::engine::general_purpose::URL_SAFE.encode(digest);
    assert_eq!(pac.hash, expected);
}

#[test]
fn generate_hash_changes_with_hosts() {
    let p1 = Pac::generate(vec!["a.com".to_string(), "b.com".to_string()]);
    let p2 = Pac::generate(vec!["a.com".to_string(), "c.com".to_string()]);
    assert_ne!(p1.hash, p2.hash);
}

#[test]
fn generate_hash_covers_tokens_not_template() {
    // The hash is computed over the host tokens alone, so it must equal the
    // digest of those tokens even though the body carries the template too.
    let pac = Pac::generate(vec!["x".to_string()]);
    let digest = sha2::Sha512::digest(b"\"x\",");
    let expected = base64::engine::general_purpose::URL_SAFE.encode(digest);
    assert_eq!(pac.hash, expected);
    assert_eq!(pac.hash.len(), 88);
}

#[test]
fn pac_new_keeps_fields() {
    let pac = Pac::new("body".to_string(), "hash".to_string());
    assert_eq!(pac.file, "body");
    assert_eq!(pac.hash, "hash");
}
