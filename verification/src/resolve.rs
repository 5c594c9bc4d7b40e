//! Target resolution: normalizing a user-supplied or discovered endpoint
//! string into a canonical base URL. A target may be an explicit
//! `scheme://host[:port]` URL, a `host:port` pair (where the host may itself
//! contain colons, as an IPv6 literal does), or a bare hostname. Pure string
//! transformation; no network activity.

use vstd::prelude::*;

use crate::text::{
    all_digits, append_chars, append_str, chars_string, contains_char, digits_from, find_last,
    last_index_of, lemma_last_index_of, slice_chars, starts_with, str_chars, trim_end,
    trim_end_chars,
};

verus! {

/// Whether `t` already carries an explicit HTTP or HTTPS scheme.
pub open spec fn has_http_scheme(t: Seq<char>) -> bool {
    "http://"@.is_prefix_of(t) || "https://"@.is_prefix_of(t)
}

/// Whether `t` is a `host:port` pair: it contains a colon and everything
/// after the last colon is decimal digits.
pub open spec fn is_host_port(t: Seq<char>) -> bool {
    contains_char(t, ':') && all_digits(t.subrange(last_index_of(t, ':') + 1, t.len() as int))
}

/// The host part of a `host:port` pair: everything before the last colon.
pub open spec fn host_of(t: Seq<char>) -> Seq<char> {
    t.subrange(0, last_index_of(t, ':'))
}

/// The port part of a `host:port` pair: everything after the last colon.
pub open spec fn port_of(t: Seq<char>) -> Seq<char> {
    t.subrange(last_index_of(t, ':') + 1, t.len() as int)
}

/// Whether the host of a `host:port` pair needs IPv6 bracketing: it contains
/// a colon itself and is not already bracket-delimited.
pub open spec fn needs_brackets(host: Seq<char>) -> bool {
    contains_char(host, ':') && !(host.len() > 0 && host[0] == '[')
}

/// The canonical base URL for a target string:
/// - an explicit HTTP(S) URL is kept, with trailing slashes stripped;
/// - a `host:port` pair becomes `http://host:port`, with the host wrapped in
///   square brackets when it is an unbracketed IPv6 literal;
/// - anything else is a bare host: trailing slashes are stripped and the
///   plain HTTP scheme is prepended.
pub open spec fn spec_resolve_url(t: Seq<char>) -> Seq<char> {
    if has_http_scheme(t) {
        trim_end(t, '/')
    } else if is_host_port(t) {
        if needs_brackets(host_of(t)) {
            "http://["@ + host_of(t) + "]:"@ + port_of(t)
        } else {
            "http://"@ + host_of(t) + ":"@ + port_of(t)
        }
    } else {
        "http://"@ + trim_end(t, '/')
    }
}

/// Resolve a target string to its canonical base URL.
pub fn resolve_url(target: &str) -> (r: String)
    ensures
        r@ == spec_resolve_url(target@),
{
    let chars = str_chars(target);
    if starts_with(&chars, "http://") || starts_with(&chars, "https://") {
        let trimmed = trim_end_chars(&chars, '/');
        return chars_string(&trimmed);
    }
    proof {
        lemma_last_index_of(target@, ':');
    }
    let n = chars.len();
    let last_colon = find_last(&chars, ':');
    if let Some(i) = last_colon {
        assert(i < n);
        if digits_from(&chars, i + 1) {
            let host = slice_chars(&chars, 0, i);
            let port = slice_chars(&chars, i + 1, chars.len());
            let bracket = contains_colon(&host) && !(host.len() > 0 && host[0] == '[');
            let mut out: Vec<char> = Vec::new();
            if bracket {
                append_str(&mut out, "http://[");
                append_chars(&mut out, &host);
                append_str(&mut out, "]:");
                append_chars(&mut out, &port);
            } else {
                append_str(&mut out, "http://");
                append_chars(&mut out, &host);
                append_str(&mut out, ":");
                append_chars(&mut out, &port);
            }
            return chars_string(&out);
        }
    }
    let trimmed = trim_end_chars(&chars, '/');
    let mut out: Vec<char> = Vec::new();
    append_str(&mut out, "http://");
    append_chars(&mut out, &trimmed);
    chars_string(&out)
}

/// Whether the character vector contains a colon.
pub fn contains_colon(v: &Vec<char>) -> (b: bool)
    ensures
        b == contains_char(v@, ':'),
{
    let mut i: usize = 0;
    while i < v.len()
        invariant
            i <= v@.len(),
            forall|j: int| 0 <= j < i ==> v@[j] != ':',
        decreases v@.len() - i,
    {
        if v[i] == ':' {
            return true;
        }
        i = i + 1;
    }
    false
}

} // verus!
