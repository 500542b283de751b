//! Comparing nicknames without regard to case, under the mapping that the
//! configuration selects.

use crate::config::CaseMap;
use crate::text::chars_of;
use vstd::prelude::*;
use vstd::string::*;

verus! {

/// The code point that `c` is compared by under one of the ASCII-based
/// mappings: upper-case letters fold to lower case; under `rfc1459` the
/// characters `[ \ ] ^` fold to `{ | } ~` as well, under `rfc1459-strict`
/// only `[ \ ]`.
pub open spec fn fold_code(map: CaseMap, c: char) -> u32 {
    let n = c as u32;
    let last: u32 = match map {
        CaseMap::Rfc1459 => 0x5e,
        CaseMap::Rfc1459Strict => 0x5d,
        _ => 0x5a,
    };
    if 0x41 <= n <= last {
        (n + 32) as u32
    } else {
        n
    }
}

/// The lower-case form of a string as `str::to_lowercase` gives it.
pub uninterp spec fn lowercase_of(s: Seq<char>) -> Seq<char>;

/// Calls `str::to_lowercase`. The result follows the Unicode tables built
/// into the standard library; the contract only gives it its name.
#[verifier::external_body]
fn lowercase(s: &str) -> (r: String)
    ensures
        r@ == lowercase_of(s@),
{
    s.to_lowercase()
}

/// What a nickname is compared by. Two nicknames collide where their keys
/// are equal. Under `rfc7613` the key is the lower-case form as Unicode
/// defines it; under the other mappings each character is folded by itself.
pub open spec fn nick_key(map: CaseMap, nick: Seq<char>) -> Seq<u32> {
    match map {
        CaseMap::Rfc7613 => lowercase_of(nick).map_values(|c: char| c as u32),
        _ => nick.map_values(|c: char| fold_code(map, c)),
    }
}

fn fold(map: CaseMap, c: char) -> (r: u32)
    ensures
        r == fold_code(map, c),
{
    let n: u32 = c as u32;
    let last: u32 = match map {
        CaseMap::Rfc1459 => 0x5e,
        CaseMap::Rfc1459Strict => 0x5d,
        _ => 0x5a,
    };
    if 0x41 <= n && n <= last {
        n + 32
    } else {
        n
    }
}

/// Computes the key of a nickname.
pub fn key_of(map: CaseMap, nick: &str) -> (key: Vec<u32>)
    ensures
        key@ == nick_key(map, nick@),
{
    let folded = match map {
        CaseMap::Rfc7613 => chars_of(lowercase(nick).as_str()),
        _ => chars_of(nick),
    };
    let mut key: Vec<u32> = Vec::new();
    let mut i: usize = 0;
    while i < folded.len()
        invariant
            i <= folded.len(),
            key.len() == i,
            forall|k: int|
                0 <= k < i ==> key@[k] == if map == CaseMap::Rfc7613 {
                    folded@[k] as u32
                } else {
                    fold_code(map, folded@[k])
                },
        decreases folded.len() - i,
    {
        let c = folded[i];
        key.push(
            match map {
                CaseMap::Rfc7613 => c as u32,
                _ => fold(map, c),
            },
        );
        i = i + 1;
    }
    proof {
        assert(key@ =~= nick_key(map, nick@));
    }
    key
}

/// Whether two keys are the same.
pub fn same_key(a: &Vec<u32>, b: &Vec<u32>) -> (r: bool)
    ensures
        r == (a@ == b@),
{
    if a.len() != b.len() {
        return false;
    }
    let mut i: usize = 0;
    while i < a.len()
        invariant
            i <= a.len(),
            a.len() == b.len(),
            forall|k: int| 0 <= k < i ==> a@[k] == b@[k],
        decreases a.len() - i,
    {
        if a[i] != b[i] {
            return false;
        }
        i = i + 1;
    }
    assert(a@ =~= b@);
    true
}

} // verus!
