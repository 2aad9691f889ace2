//! Small request utilities: reading one cookie out of a `Cookie` header.
use vstd::prelude::*;

use crate::codec::bytes_eq;
use crate::json::{copy_range, is_ws};

verus! {

/// The first index at or after `i` holding `;` (or the end).
pub open spec fn sp_semi(s: Seq<u8>, i: int) -> int
    decreases s.len() - i,
{
    if i < 0 || i >= s.len() {
        i
    } else if s[i] == 0x3B {
        i
    } else {
        sp_semi(s, i + 1)
    }
}

pub proof fn lemma_sp_semi_bounds(s: Seq<u8>, i: int)
    ensures
        sp_semi(s, i) >= i,
        i <= s.len() ==> sp_semi(s, i) <= s.len(),
    decreases s.len() - i,
{
    if 0 <= i && i < s.len() && s[i] != 0x3B {
        lemma_sp_semi_bounds(s, i + 1);
    }
}

/// The first index in `[i, j)` holding no whitespace (or `j`).
pub open spec fn sp_front(s: Seq<u8>, i: int, j: int) -> int
    decreases j - i,
{
    if i < 0 || i >= j || i >= s.len() {
        i
    } else if is_ws(s[i]) {
        sp_front(s, i + 1, j)
    } else {
        i
    }
}

pub proof fn lemma_sp_front_bounds(s: Seq<u8>, i: int, j: int)
    ensures
        sp_front(s, i, j) >= i,
        i <= j ==> sp_front(s, i, j) <= j,
    decreases j - i,
{
    if 0 <= i && i < j && i < s.len() && is_ws(s[i]) {
        lemma_sp_front_bounds(s, i + 1, j);
    }
}

/// The end of `[i, j)` with trailing whitespace dropped (at least `i`).
pub open spec fn sp_back(s: Seq<u8>, i: int, j: int) -> int
    decreases j - i,
{
    if j <= i || j < 1 || j > s.len() {
        j
    } else if is_ws(s[j - 1]) {
        sp_back(s, i, j - 1)
    } else {
        j
    }
}

pub proof fn lemma_sp_back_bounds(s: Seq<u8>, i: int, j: int)
    ensures
        sp_back(s, i, j) <= j,
        i <= j ==> sp_back(s, i, j) >= i,
    decreases j - i,
{
    if j > i && j >= 1 && j <= s.len() && is_ws(s[j - 1]) {
        lemma_sp_back_bounds(s, i, j - 1);
    }
}

/// The first index in `[i, j)` holding `=` (or `j`).
pub open spec fn sp_eq_at(s: Seq<u8>, i: int, j: int) -> int
    decreases j - i,
{
    if i < 0 || i >= j || i >= s.len() {
        i
    } else if s[i] == 0x3D {
        i
    } else {
        sp_eq_at(s, i + 1, j)
    }
}

pub proof fn lemma_sp_eq_at_bounds(s: Seq<u8>, i: int, j: int)
    ensures
        sp_eq_at(s, i, j) >= i,
        i <= j ==> sp_eq_at(s, i, j) <= j,
    decreases j - i,
{
    if 0 <= i && i < j && i < s.len() && s[i] != 0x3D {
        lemma_sp_eq_at_bounds(s, i + 1, j);
    }
}

/// The value of the cookie named `key`, scanning segments from `i` on: the
/// header is split at `;`, each segment trimmed of whitespace, and split at
/// its first `=`; the first segment whose name is exactly `key` yields the
/// rest of the segment.
pub open spec fn cookie_from(s: Seq<u8>, i: int, key: Seq<u8>) -> Option<Seq<u8>>
    decreases s.len() - i,
{
    if i < 0 || i > s.len() {
        None
    } else {
        let j = sp_semi(s, i);
        let f = sp_front(s, i, j);
        let b = sp_back(s, f, j);
        let p = sp_eq_at(s, f, b);
        proof {
            lemma_sp_semi_bounds(s, i);
        }
        if p < b && s.subrange(f, p) == key {
            Some(s.subrange(p + 1, b))
        } else if j < s.len() {
            cookie_from(s, j + 1, key)
        } else {
            None
        }
    }
}

/// Scans `[i, j)` for the first `;`-free region boundary helpers, executably.
fn semi_at(s: &[u8], i: usize) -> (r: usize)
    requires
        i <= s@.len(),
    ensures
        r == sp_semi(s@, i as int),
        i <= r <= s@.len(),
{
    let mut cur = i;
    while cur < s.len() && s[cur] != 0x3B
        invariant
            i <= cur <= s@.len(),
            sp_semi(s@, i as int) == sp_semi(s@, cur as int),
        decreases s@.len() - cur,
    {
        cur = cur + 1;
    }
    cur
}

#[verifier::loop_isolation(false)]
fn front_at(s: &[u8], i: usize, j: usize) -> (r: usize)
    requires
        i <= j <= s@.len(),
    ensures
        r == sp_front(s@, i as int, j as int),
        i <= r <= j,
{
    let mut cur = i;
    while cur < j && (s[cur] == 0x20 || s[cur] == 0x09 || s[cur] == 0x0A || s[cur] == 0x0D)
        invariant
            i <= cur <= j,
            sp_front(s@, i as int, j as int) == sp_front(s@, cur as int, j as int),
        decreases j - cur,
    {
        cur = cur + 1;
    }
    cur
}

#[verifier::loop_isolation(false)]
fn back_at(s: &[u8], i: usize, j: usize) -> (r: usize)
    requires
        i <= j <= s@.len(),
    ensures
        r == sp_back(s@, i as int, j as int),
        i <= r <= j,
{
    let mut cur = j;
    while cur > i && (s[cur - 1] == 0x20 || s[cur - 1] == 0x09 || s[cur - 1] == 0x0A || s[cur - 1]
        == 0x0D)
        invariant
            i <= cur <= j,
            sp_back(s@, i as int, j as int) == sp_back(s@, i as int, cur as int),
        decreases cur,
    {
        cur = cur - 1;
    }
    cur
}

#[verifier::loop_isolation(false)]
fn eq_at(s: &[u8], i: usize, j: usize) -> (r: usize)
    requires
        i <= j <= s@.len(),
    ensures
        r == sp_eq_at(s@, i as int, j as int),
        i <= r <= j,
{
    let mut cur = i;
    while cur < j && s[cur] != 0x3D
        invariant
            i <= cur <= j,
            sp_eq_at(s@, i as int, j as int) == sp_eq_at(s@, cur as int, j as int),
        decreases j - cur,
    {
        cur = cur + 1;
    }
    cur
}

/// Reads the value of the cookie named `key` out of a `Cookie` header.
#[verifier::loop_isolation(false)]
pub fn get_cookie(header: &[u8], key: &[u8]) -> (r: Option<Vec<u8>>)
    ensures
        match r {
            Some(v) => cookie_from(header@, 0, key@) == Some(v@),
            None => cookie_from(header@, 0, key@) is None,
        },
{
    let mut i: usize = 0;
    loop
        invariant
            i <= header@.len(),
            cookie_from(header@, 0, key@) == cookie_from(header@, i as int, key@),
        decreases header@.len() - i,
    {
        let j = semi_at(header, i);
        let f = front_at(header, i, j);
        let b = back_at(header, f, j);
        let p = eq_at(header, f, b);
        if p < b {
            let name = copy_range(header, f, p);
            if bytes_eq(name.as_slice(), key) {
                let value = copy_range(header, p + 1, b);
                return Some(value);
            }
        }
        if j < header.len() {
            i = j + 1;
        } else {
            return None;
        }
    }
}

} // verus!
