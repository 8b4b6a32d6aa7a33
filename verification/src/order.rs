//! The order of texts: character by character, by code point.

use core::cmp::Ordering;

use vstd::prelude::*;

use crate::text::chars_of;

verus! {

/// A comparison as a number: negative, zero or positive for less, equal or greater.
pub open spec fn sign_of(o: Ordering) -> int {
    match o {
        Ordering::Less => -1,
        Ordering::Equal => 0,
        Ordering::Greater => 1,
    }
}

/// How two numbers compare.
pub open spec fn int_sign(a: int, b: int) -> int {
    if a < b {
        -1
    } else if a > b {
        1
    } else {
        0
    }
}

/// How two numbers of 64 bits compare.
pub open spec fn u64_sign(a: u64, b: u64) -> int {
    int_sign(a as int, b as int)
}

/// How two texts compare: the first differing character decides, and a text comes after
/// each of its proper prefixes.
pub open spec fn text_sign(a: Seq<char>, b: Seq<char>) -> int
    decreases a.len(),
{
    if a.len() == 0 || b.len() == 0 {
        int_sign(a.len() as int, b.len() as int)
    } else if a[0] != b[0] {
        int_sign(a[0] as int, b[0] as int)
    } else {
        text_sign(a.drop_first(), b.drop_first())
    }
}

/// Comparing the other way round turns the result round, and only equal texts compare as
/// equal.
pub proof fn text_sign_antisymmetric(a: Seq<char>, b: Seq<char>)
    ensures
        text_sign(a, b) == -text_sign(b, a),
        text_sign(a, b) == 0 <==> a == b,
    decreases a.len(),
{
    if a.len() == 0 || b.len() == 0 {
        if a.len() == b.len() {
            assert(a =~= b);
        }
    } else if a[0] == b[0] {
        text_sign_antisymmetric(a.drop_first(), b.drop_first());
        if a.drop_first() == b.drop_first() {
            assert(a =~= seq![a[0]] + a.drop_first());
            assert(b =~= seq![b[0]] + b.drop_first());
        }
    }
}

/// "Not after" is transitive.
pub proof fn text_sign_transitive(a: Seq<char>, b: Seq<char>, c: Seq<char>)
    requires
        text_sign(a, b) <= 0,
        text_sign(b, c) <= 0,
    ensures
        text_sign(a, c) <= 0,
        text_sign(a, b) < 0 || text_sign(b, c) < 0 ==> text_sign(a, c) < 0,
    decreases a.len(),
{
    if a.len() > 0 && b.len() > 0 && c.len() > 0 && a[0] == b[0] && b[0] == c[0] {
        text_sign_transitive(a.drop_first(), b.drop_first(), c.drop_first());
    }
}

/// A 16-bit number in 64 bits.
pub fn wide16(n: u16) -> (w: u64)
    ensures
        w == n,
{
    n as u64
}

/// A 32-bit number in 64 bits.
pub fn wide32(n: u32) -> (w: u64)
    ensures
        w == n,
{
    n as u64
}

/// Compares two numbers.
pub fn order_u64(a: u64, b: u64) -> (o: Ordering)
    ensures
        sign_of(o) == u64_sign(a, b),
{
    if a < b {
        Ordering::Less
    } else if b < a {
        Ordering::Greater
    } else {
        Ordering::Equal
    }
}

/// Compares two texts as [`text_sign`] does.
pub fn order_str(a: &str, b: &str) -> (o: Ordering)
    ensures
        sign_of(o) == text_sign(a@, b@),
{
    let av = chars_of(a);
    let bv = chars_of(b);
    let mut i: usize = 0;
    assert(a@.skip(0) =~= a@);
    assert(b@.skip(0) =~= b@);
    while i < av.len() && i < bv.len()
        invariant
            av@ == a@,
            bv@ == b@,
            i <= av@.len(),
            i <= bv@.len(),
            text_sign(av@, bv@) == text_sign(rest(av@, i), rest(bv@, i)),
        decreases av@.len() - i,
    {
        proof {
            lemma_rest_step(av@, i);
            lemma_rest_step(bv@, i);
        }
        if av[i] < bv[i] {
            return Ordering::Less;
        }
        if bv[i] < av[i] {
            return Ordering::Greater;
        }
        i += 1;
    }
    if i < bv.len() {
        Ordering::Less
    } else if i < av.len() {
        Ordering::Greater
    } else {
        Ordering::Equal
    }
}

/// Tells whether `a` comes before `b`.
pub fn comes_before(a: &str, b: &str) -> (before: bool)
    ensures
        before == (text_sign(a@, b@) < 0),
{
    match order_str(a, b) {
        Ordering::Less => true,
        _ => false,
    }
}

spec fn rest(s: Seq<char>, i: usize) -> Seq<char> {
    s.skip(i as int)
}

proof fn lemma_rest_step(s: Seq<char>, i: usize)
    requires
        i < s.len(),
        i < usize::MAX,
    ensures
        rest(s, i)[0] == s[i as int],
        rest(s, i).drop_first() == rest(s, (i + 1) as usize),
{
    assert(rest(s, i).drop_first() =~= rest(s, (i + 1) as usize));
}

} // verus!
