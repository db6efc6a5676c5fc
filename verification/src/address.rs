//! The text of addresses and prefixes, of IPv4 and IPv6.

use crate::text::{
    chars_of, decimal, find_at, find_from, pieces_of, read_u8, same, split_char, split_once,
    split_once_of, text_of, u8_of, views, write_number,
};
use vstd::prelude::*;
use vstd::string::*;

verus! {

/// A byte in decimal, without a sign and leading zeros.
pub open spec fn octet(t: Seq<char>) -> bool {
    match u8_of(t) {
        Some(n) => t == decimal(n as nat),
        None => false,
    }
}

fn is_octet(t: &str) -> (b: bool)
    ensures
        b == octet(t@),
{
    match read_u8(t) {
        Some(n) => same(t, write_number(n as u64).as_str()),
        None => false,
    }
}

/// An IPv4 address: four octets between dots.
pub open spec fn dotted_quad(t: Seq<char>) -> bool {
    let parts = pieces_of(t, '.');
    parts.len() == 4 && forall|i: int| 0 <= i < 4 ==> octet(#[trigger] parts[i])
}

/// Whether a text is an IPv4 address.
pub fn is_dotted_quad(t: &str) -> (b: bool)
    ensures
        b == dotted_quad(t@),
{
    let parts = split_char(t, '.');
    let ghost pv = views(parts@);
    assert(pv.len() == parts@.len());
    if parts.len() != 4 {
        return false;
    }
    let mut i: usize = 0;
    while i < 4
        invariant
            i <= 4,
            parts@.len() == 4,
            pv == views(parts@),
            pv == pieces_of(t@, '.'),
            forall|j: int| 0 <= j < i ==> octet(#[trigger] pv[j]),
        decreases 4 - i,
    {
        if !is_octet(parts[i].as_str()) {
            assert(!octet(pv[i as int]));
            return false;
        }
        i += 1;
    }
    true
}

/// A hexadecimal digit.
pub open spec fn hex_digit(c: char) -> bool {
    ('0' <= c <= '9') || ('a' <= c <= 'f') || ('A' <= c <= 'F')
}

/// Sixteen bits of an IPv6 address: one to four hexadecimal digits.
pub open spec fn hex_group(t: Seq<char>) -> bool {
    1 <= t.len() <= 4 && forall|i: int| 0 <= i < t.len() ==> hex_digit(#[trigger] t[i])
}

fn is_hex_group(t: &str) -> (b: bool)
    ensures
        b == hex_group(t@),
{
    let v = chars_of(t);
    if v.len() < 1 || v.len() > 4 {
        return false;
    }
    let mut i: usize = 0;
    while i < v.len()
        invariant
            i <= v@.len(),
            v@ == t@,
            forall|j: int| 0 <= j < i ==> hex_digit(#[trigger] v@[j]),
        decreases v@.len() - i,
    {
        let c = v[i];
        if !(('0' <= c && c <= '9') || ('a' <= c && c <= 'f') || ('A' <= c && c <= 'F')) {
            assert(!hex_digit(t@[i as int]));
            return false;
        }
        i += 1;
    }
    true
}

/// How many groups the first `n` pieces stand for, if each is one.
pub open spec fn groups_of(ps: Seq<Seq<char>>, n: int) -> Option<nat>
    decreases n,
{
    if n <= 0 {
        Some(0)
    } else if hex_group(ps[n - 1]) {
        match groups_of(ps, n - 1) {
            Some(k) => Some(k + 1),
            None => None,
        }
    } else {
        None
    }
}

/// How many groups a run between colons stands for; an empty run for none. Where
/// the run ends the address, an IPv4 address may end it, for two groups.
pub open spec fn run_of(t: Seq<char>, ends: bool) -> Option<nat> {
    let ps = pieces_of(t, ':');
    if t.len() == 0 {
        Some(0)
    } else if ends && dotted_quad(ps.last()) {
        match groups_of(ps, ps.len() - 1) {
            Some(k) => Some(k + 2),
            None => None,
        }
    } else {
        groups_of(ps, ps.len() as int)
    }
}

fn count_groups(ps: &Vec<String>, n: usize) -> (r: Option<usize>)
    requires
        n <= ps@.len(),
    ensures
        match groups_of(views(ps@), n as int) {
            Some(k) => r == Some(k as usize) && k == n,
            None => r is None,
        },
{
    let ghost pv = views(ps@);
    let mut i: usize = 0;
    let mut fine = true;
    while i < n
        invariant
            i <= n <= ps@.len(),
            pv == views(ps@),
            groups_of(pv, i as int) == (if fine {
                Some(i as nat)
            } else {
                None
            }),
        decreases n - i,
    {
        assert(pv[i as int] == ps@[i as int]@);
        if !is_hex_group(ps[i].as_str()) {
            fine = false;
        }
        i += 1;
    }
    if fine {
        Some(n)
    } else {
        None
    }
}

fn count_run(t: &str, ends: bool) -> (r: Option<usize>)
    ensures
        match run_of(t@, ends) {
            Some(k) => r is Some && (r->0 == k || (r->0 > 8 && k > 8)),
            None => r is None,
        },
{
    let ps = split_char(t, ':');
    let ghost pv = views(ps@);
    let n: usize = ps.len();
    assert(pv.len() == n);
    if t.is_empty() {
        return Some(0);
    }
    assert(pv.last() == ps@[n - 1]@);
    if ends && is_dotted_quad(ps[n - 1].as_str()) {
        match count_groups(&ps, n - 1) {
            Some(k) => Some(if k < 8 { k + 2 } else { 9 }),
            None => None,
        }
    } else {
        count_groups(&ps, n)
    }
}

/// An IPv6 address: eight groups between colons, where `::` may stand once for
/// one zero group or more.
pub open spec fn colon_groups(t: Seq<char>) -> bool {
    let i = find_from(t, 0, "::"@);
    if i < 0 {
        run_of(t, true) == Some(8nat)
    } else {
        match (run_of(t.subrange(0, i), false), run_of(t.subrange(i + 2, t.len() as int), true)) {
            (Some(a), Some(b)) => a + b <= 7,
            _ => false,
        }
    }
}

/// Whether a text is an IPv6 address.
pub fn is_colon_groups(t: &str) -> (b: bool)
    ensures
        b == colon_groups(t@),
{
    let v = chars_of(t);
    let sep = chars_of("::");
    proof {
        reveal_strlit("::");
    }
    match find_at(&v, 0, &sep) {
        Some(i) => {
            let left = text_of(&v, 0, i);
            let right = text_of(&v, i + 2, v.len());
            match (count_run(left.as_str(), false), count_run(right.as_str(), true)) {
                (Some(a), Some(b)) => a <= 7 && b <= 7 && a + b <= 7,
                _ => false,
            }
        },
        None => match count_run(t, true) {
            Some(k) => k == 8,
            None => false,
        },
    }
}

/// An address.
pub open spec fn address_text(t: Seq<char>) -> bool {
    dotted_quad(t) || colon_groups(t)
}

/// A prefix: an address and a length that fits it.
pub open spec fn prefix_text(t: Seq<char>) -> bool {
    match split_once_of(t, '/') {
        Some((a, n)) => match u8_of(n) {
            Some(len) => (dotted_quad(a) && len <= 32) || (colon_groups(a) && len <= 128),
            None => false,
        },
        None => false,
    }
}

/// Whether a text is an address.
pub fn is_address(t: &str) -> (b: bool)
    ensures
        b == address_text(t@),
{
    is_dotted_quad(t) || is_colon_groups(t)
}

/// Whether a text is a prefix.
pub fn is_prefix(t: &str) -> (b: bool)
    ensures
        b == prefix_text(t@),
{
    match split_once(t, '/') {
        Some((a, n)) => match read_u8(n.as_str()) {
            Some(len) => (len <= 32 && is_dotted_quad(a.as_str())) || (len <= 128
                && is_colon_groups(a.as_str())),
            None => false,
        },
        None => false,
    }
}

} // verus!
