//! The shared-secret access check: a bearer token compared in constant time
//! against the configured password, or the older access cookie.
use vstd::prelude::*;
use vstd::string::StringSliceAdditionalSpecFns;

use crate::text::{after_last, has_prefix, starts_with, trim, trimmed};

verus! {

/// Relies on `constant_time_eq::constant_time_eq`: equal lengths and no
/// differing byte, that is, equal slices.
#[verifier::external_body]
fn bytes_match(a: &[u8], b: &[u8]) -> (r: bool)
    ensures
        r == (a@ == b@),
{
    constant_time_eq::constant_time_eq(a, b)
}

pub open spec fn bearer_prefix() -> Seq<char> {
    seq!['B', 'e', 'a', 'r', 'e', 'r', ' ']
}

pub open spec fn access_cookie() -> Seq<char> {
    "schedule_viewer_access=granted"@
}

/// Whether a token matches the configured password, both trimmed; never
/// without a configured password.
pub open spec fn token_accepted(token: Seq<char>, expected: Option<Seq<char>>) -> bool {
    match expected {
        Some(e) => trimmed(token) == trimmed(e),
        None => false,
    }
}

/// Whether a cookie entry, trimmed, grants access.
pub open spec fn grants(entry: Seq<char>) -> bool {
    starts_with(trimmed(entry), access_cookie())
}

/// Whether one of the `;`-terminated entries of `s` grants access.
pub open spec fn closed_entry_grants(s: Seq<char>) -> bool
    decreases s.len(),
{
    if s.len() == 0 {
        false
    } else if s.last() == ';' {
        closed_entry_grants(s.drop_last()) || grants(after_last(s.drop_last(), ';'))
    } else {
        closed_entry_grants(s.drop_last())
    }
}

/// Whether some entry of a `Cookie` header, split on `;`, grants access.
pub open spec fn cookie_grants(s: Seq<char>) -> bool {
    closed_entry_grants(s) || grants(after_last(s, ';'))
}

/// The access decision: a `Bearer ` authorization decides alone; otherwise
/// the cookie header decides; with neither, no access.
pub open spec fn access_granted(
    authorization: Option<Seq<char>>,
    cookie: Option<Seq<char>>,
    expected: Option<Seq<char>>,
) -> bool {
    match authorization {
        Some(h) if starts_with(h, bearer_prefix()) => token_accepted(
            h.subrange(bearer_prefix().len() as int, h.len() as int),
            expected,
        ),
        _ => match cookie {
            Some(c) => cookie_grants(c),
            None => false,
        },
    }
}

/// Compares a presented token with the configured password, both trimmed,
/// in time independent of where they differ.
pub fn verify_access_token(token: &str, expected: Option<&str>) -> (r: bool)
    ensures
        r == token_accepted(token@, match expected {
            Some(e) => Some(e@),
            None => None,
        }),
{
    match expected {
        None => false,
        Some(e) => {
            let a = trim(token);
            let b = trim(e);
            let same = bytes_match(a.as_bytes(), b.as_bytes());
            proof {
                if a.spec_bytes() == b.spec_bytes() {
                    vstd::utf8::encode_utf8_decode_utf8(a@);
                    vstd::utf8::encode_utf8_decode_utf8(b@);
                }
            }
            same
        },
    }
}

/// Whether some `;`-separated entry of a `Cookie` header, trimmed, begins
/// with the access cookie.
pub fn cookie_grants_access(cookie: &str) -> (r: bool)
    ensures
        r == cookie_grants(cookie@),
{
    let n = cookie.unicode_len();
    let mut i: usize = 0;
    let mut start: usize = 0;
    let mut found = false;
    while i < n
        invariant
            i <= n,
            n == cookie@.len(),
            start <= i,
            found == closed_entry_grants(cookie@.take(i as int)),
            after_last(cookie@.take(i as int), ';') =~= cookie@.subrange(start as int, i as int),
        decreases n - i,
    {
        assert(cookie@.take(i + 1).drop_last() =~= cookie@.take(i as int));
        if cookie.get_char(i) == ';' {
            if !found {
                found = entry_grants(cookie.substring_char(start, i));
            }
            start = i + 1;
        }
        i = i + 1;
    }
    assert(cookie@.take(n as int) =~= cookie@);
    if found {
        true
    } else {
        entry_grants(cookie.substring_char(start, n))
    }
}

fn entry_grants(entry: &str) -> (r: bool)
    ensures
        r == grants(entry@),
{
    let t = trim(entry);
    let r = has_prefix(t, "schedule_viewer_access=granted");
    r
}

/// Whether a request may see schedules, from its `Authorization` and `Cookie`
/// headers and the configured password.
pub fn has_access_token(
    authorization: Option<&str>,
    cookie: Option<&str>,
    expected: Option<&str>,
) -> (r: bool)
    ensures
        r == access_granted(
            match authorization {
                Some(h) => Some(h@),
                None => None,
            },
            match cookie {
                Some(c) => Some(c@),
                None => None,
            },
            match expected {
                Some(e) => Some(e@),
                None => None,
            },
        ),
{
    proof {
        reveal_strlit("Bearer ");
        assert("Bearer "@ =~= bearer_prefix());
    }
    if let Some(h) = authorization {
        if has_prefix(h, "Bearer ") {
            let token = h.substring_char(7, h.unicode_len());
            return verify_access_token(token, expected);
        }
    }
    match cookie {
        Some(c) => cookie_grants_access(c),
        None => false,
    }
}

} // verus!
