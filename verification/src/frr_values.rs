//! Which values of an FRR policy the daemon takes: AS numbers, communities,
//! sequence numbers and length bounds.

use crate::policy::{community_of, parse_community};
use crate::text::{is_word, read_u32, read_u8, u32_of, u8_of, views, word_is};
use vstd::prelude::*;
use vstd::string::*;

verus! {

/// Every word is an AS number.
pub open spec fn as_numbers(ws: Seq<Seq<char>>) -> bool {
    forall|i: int| 0 <= i < ws.len() ==> u32_of(#[trigger] ws[i]) is Some
}

/// Whether every word is an AS number.
pub fn are_as_numbers(ws: &Vec<String>) -> (b: bool)
    ensures
        b == as_numbers(views(ws@)),
{
    let ghost wv = views(ws@);
    let mut i: usize = 0;
    while i < ws.len()
        invariant
            i <= ws@.len(),
            wv == views(ws@),
            forall|j: int| 0 <= j < i ==> u32_of(#[trigger] wv[j]) is Some,
        decreases ws@.len() - i,
    {
        if read_u32(ws[i].as_str()).is_none() {
            assert(u32_of(wv[i as int]) is None);
            return false;
        }
        i += 1;
    }
    true
}

/// Every word is a community.
pub open spec fn communities(ws: Seq<Seq<char>>) -> bool {
    forall|i: int| 0 <= i < ws.len() ==> community_of(#[trigger] ws[i]) is Ok
}

/// Whether every word is a community.
pub fn are_communities(ws: &Vec<String>) -> (b: bool)
    ensures
        b == communities(views(ws@)),
{
    let ghost wv = views(ws@);
    let mut i: usize = 0;
    while i < ws.len()
        invariant
            i <= ws@.len(),
            wv == views(ws@),
            forall|j: int| 0 <= j < i ==> community_of(#[trigger] wv[j]) is Ok,
        decreases ws@.len() - i,
    {
        if parse_community(ws[i].as_str()).is_err() {
            assert(community_of(wv[i as int]) is Err);
            return false;
        }
        i += 1;
    }
    true
}

/// From `i` on there are only length bounds, each with its number.
pub open spec fn only_bounds(ts: Seq<Seq<char>>, i: int) -> bool
    decreases ts.len() - i,
{
    if i >= ts.len() {
        true
    } else {
        &&& ts[i] == "ge"@ || ts[i] == "le"@
        &&& i + 1 < ts.len()
        &&& u8_of(ts[i + 1]) is Some
        &&& only_bounds(ts, i + 2)
    }
}

fn has_only_bounds(ts: &Vec<String>, from: usize) -> (b: bool)
    ensures
        b == only_bounds(views(ts@), from as int),
{
    let ghost tv = views(ts@);
    assert(forall|i: int| 0 <= i < ts@.len() ==> tv[i] == (#[trigger] ts@[i])@);
    let mut i: usize = from;
    while i < ts.len()
        invariant
            tv == views(ts@),
            forall|i: int| 0 <= i < ts@.len() ==> tv[i] == (#[trigger] ts@[i])@,
            only_bounds(tv, from as int) == only_bounds(tv, i as int),
        decreases ts@.len() - i,
    {
        let bound = is_word(ts, i, "ge") || is_word(ts, i, "le");
        if !bound || ts.len() - i < 2 || read_u8(ts[i + 1].as_str()).is_none() {
            return false;
        }
        if ts.len() - i == 2 {
            assert(only_bounds(tv, i + 2));
            return true;
        }
        i += 2;
    }
    true
}

/// The sequence number of a prefix-list line, where there is one, and all that
/// stands behind the prefix are understood.
pub open spec fn list_understood(ts: Seq<Seq<char>>) -> bool {
    if word_is(ts, 3, "seq"@) {
        4 < ts.len() && u32_of(ts[4]) is Some && only_bounds(ts, 7)
    } else {
        only_bounds(ts, 5)
    }
}

/// Whether a prefix-list line is understood up to its prefix.
pub fn is_list_understood(ts: &Vec<String>) -> (b: bool)
    ensures
        b == list_understood(views(ts@)),
{
    let ghost tv = views(ts@);
    assert(forall|i: int| 0 <= i < ts@.len() ==> tv[i] == (#[trigger] ts@[i])@);
    if is_word(ts, 3, "seq") {
        4 < ts.len() && read_u32(ts[4].as_str()).is_some() && has_only_bounds(ts, 7)
    } else {
        has_only_bounds(ts, 5)
    }
}

/// The head of a route-map entry is understood: an action and a number, and
/// nothing else.
pub open spec fn entry_understood(ts: Seq<Seq<char>>) -> bool {
    ts.len() == 4 && (ts[2] == "permit"@ || ts[2] == "deny"@) && u32_of(ts[3]) is Some
}

/// Whether the head of a route-map entry is understood.
pub fn is_entry_understood(ts: &Vec<String>) -> (b: bool)
    ensures
        b == entry_understood(views(ts@)),
{
    let ghost tv = views(ts@);
    assert(forall|i: int| 0 <= i < ts@.len() ==> tv[i] == (#[trigger] ts@[i])@);
    ts.len() == 4 && (is_word(ts, 2, "permit") || is_word(ts, 2, "deny")) && read_u32(
        ts[3].as_str(),
    ).is_some()
}

} // verus!
