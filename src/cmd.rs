//! Values that the application's commands compute from the store and from
//! screenshot data.

use base64::Engine;
use vstd::prelude::*;
use crate::config::{get, ConfigStore, ConfigValue};

verus! {

/// The standard base64 text (RFC 4648 alphabet, with padding) of a byte
/// sequence.
pub uninterp spec fn base64_standard(b: Seq<u8>) -> Seq<char>;

/// Relies on base64's `STANDARD.encode`: the result is the padded standard
/// encoding, four characters for every started group of three bytes. The
/// encoder panics only when that length overflows `usize`.
#[verifier::external_body]
fn encode_base64(b: &Vec<u8>) -> (r: String)
    requires
        b@.len() <= 3 * (usize::MAX / 4),
    ensures
        r@ == base64_standard(b@),
        r@.len() == 4 * ((b@.len() + 2) / 3),
{
    base64::engine::general_purpose::STANDARD.encode(b)
}

/// The base64 text of a screenshot's bytes, as the front end displays it.
/// The standard encoder writes no line breaks, so the text is one line.
pub fn get_base64(image: &Vec<u8>) -> (r: String)
    requires
        image@.len() <= 3 * (usize::MAX / 4),
    ensures
        r@ == base64_standard(image@),
        r@.len() == 4 * ((image@.len() + 2) / 3),
{
    encode_base64(image)
}

/// A decimal digit.
pub open spec fn is_digit(c: char) -> bool {
    '0' <= c && c <= '9'
}

/// The digits of an integer's text: what follows an optional minus sign.
pub open spec fn digits_part(t: Seq<char>) -> Seq<char> {
    if t.len() > 0 && t[0] == '-' {
        t.skip(1)
    } else {
        t
    }
}

/// Every character is a decimal digit.
pub open spec fn all_digits(d: Seq<char>) -> bool {
    forall|i: int| 0 <= i < d.len() ==> is_digit(#[trigger] d[i])
}

/// The JSON text of an integer: an optional minus sign and decimal digits.
pub open spec fn is_integer_text(t: Seq<char>) -> bool {
    digits_part(t).len() > 0 && all_digits(digits_part(t))
}

/// The proxy environment that the store describes.
#[derive(Debug)]
pub struct ProxySettings {
    /// `http://<proxy_host>:<proxy_port>`
    pub proxy: String,
    /// Hosts that bypass the proxy, as stored under `no_proxy`.
    pub no_proxy: String,
}

/// The text of a value that is text.
pub open spec fn as_text(m: Map<Seq<char>, ConfigValue>, k: Seq<char>) -> Option<Seq<char>> {
    if m.contains_key(k) {
        match m[k] {
            ConfigValue::Text(t) => Some(t@),
            _ => None,
        }
    } else {
        None
    }
}

/// The text of a value that is an integer number.
pub open spec fn as_integer(m: Map<Seq<char>, ConfigValue>, k: Seq<char>) -> Option<Seq<char>> {
    if m.contains_key(k) {
        match m[k] {
            ConfigValue::Number(t) => if is_integer_text(t@) {
                Some(t@)
            } else {
                None
            },
            _ => None,
        }
    } else {
        None
    }
}

fn integer_text(t: &str) -> (r: bool)
    ensures
        r == is_integer_text(t@),
{
    let n = t.unicode_len();
    let start: usize = if n > 0 && t.get_char(0) == '-' {
        1
    } else {
        0
    };
    let ghost d = t@.skip(start as int);
    assert(t@.skip(0) =~= t@);
    assert(d == digits_part(t@));
    if start >= n {
        return false;
    }
    let mut i: usize = start;
    while i < n
        invariant
            n == t@.len(),
            start <= i <= n,
            d == t@.skip(start as int),
            d.len() == n - start,
            d == digits_part(t@),
            forall|j: int| 0 <= j < i - start ==> is_digit(#[trigger] d[j]),
        decreases n - i,
    {
        let c = t.get_char(i);
        if !('0' <= c && c <= '9') {
            assert(d[i - start] == c);
            assert(!is_digit(d[i - start]));
            assert(!all_digits(d));
            return false;
        }
        i = i + 1;
    }
    true
}

/// The proxy settings stored under `proxy_host` (text), `proxy_port` (an
/// integer) and `no_proxy` (text); `None` when one is missing or of
/// another shape.
pub fn proxy_settings(store: &ConfigStore) -> (r: Option<ProxySettings>)
    requires
        store.wf(),
    ensures
        r is Some <==> (as_text(store@, "proxy_host"@) is Some && as_integer(store@, "proxy_port"@) is Some
            && as_text(store@, "no_proxy"@) is Some),
        r is Some ==> r->0.proxy@ == "http://"@ + as_text(store@, "proxy_host"@)->0 + ":"@
            + as_integer(store@, "proxy_port"@)->0 && r->0.no_proxy@ == as_text(store@, "no_proxy"@)->0,
{
    let host = match get(store, "proxy_host") {
        Some(ConfigValue::Text(t)) => t,
        _ => {
            return None;
        },
    };
    let port = match get(store, "proxy_port") {
        Some(ConfigValue::Number(t)) => t,
        _ => {
            return None;
        },
    };
    if !integer_text(port.as_str()) {
        return None;
    }
    let no_proxy = match get(store, "no_proxy") {
        Some(ConfigValue::Text(t)) => t,
        _ => {
            return None;
        },
    };
    let mut proxy = String::from_str("http://");
    proxy.append(host.as_str());
    proxy.append(":");
    proxy.append(port.as_str());
    Some(ProxySettings { proxy, no_proxy: no_proxy.clone() })
}

} // verus!
