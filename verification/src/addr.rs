//! IP addresses as text: dotted decimal for IPv4; for IPv6, groups of hexadecimal digits with the
//! longest run of zero groups left out.

use vstd::prelude::*;
use vstd::string::*;

use crate::filter::is_v6_text;
use crate::text::{
    decimal, digits, digits_are_digits, joined, joined_push, push_decimal, push_digits,
};

verus! {

/// An IPv4 address of four bytes as text.
pub open spec fn v4_text(b: Seq<u8>) -> Seq<char> {
    decimal(b[0] as nat) + "."@ + decimal(b[1] as nat) + "."@ + decimal(b[2] as nat) + "."@
        + decimal(b[3] as nat)
}

/// Appends an IPv4 address.
fn push_v4(out: &mut String, b0: u8, b1: u8, b2: u8, b3: u8)
    ensures
        final(out)@ == old(out)@ + v4_text(seq![b0, b1, b2, b3]),
{
    push_decimal(out, b0 as u64);
    out.append(".");
    push_decimal(out, b1 as u64);
    out.append(".");
    push_decimal(out, b2 as u64);
    out.append(".");
    push_decimal(out, b3 as u64);
    assert(out@ =~= old(out)@ + v4_text(seq![b0, b1, b2, b3]));
}

/// An IPv4 address as text.
pub fn format_v4(b: &[u8; 4]) -> (s: String)
    ensures
        s@ == v4_text(b@),
{
    let mut s = String::new();
    push_v4(&mut s, b[0], b[1], b[2], b[3]);
    assert(seq![b[0], b[1], b[2], b[3]] =~= b@);
    assert(s@ =~= v4_text(b@));
    s
}

/// The eight groups of an IPv6 address of sixteen bytes.
pub open spec fn groups(b: Seq<u8>) -> Seq<u16> {
    Seq::new(8, |i: int| (b[2 * i] * 256 + b[2 * i + 1]) as u16)
}

/// The groups in hexadecimal, with colons between them.
pub open spec fn groups_text(g: Seq<u16>) -> Seq<char> {
    joined(g.map_values(|n: u16| digits(n as nat, 16)), ":"@)
}

/// The `len` groups from `start` on are zero.
pub open spec fn zero_run(g: Seq<u16>, start: int, len: int) -> bool {
    &&& 0 <= start
    &&& 0 <= len
    &&& start + len <= g.len()
    &&& forall|k: int| start <= k < start + len ==> #[trigger] g[k] == 0
}

/// The run of zero groups to leave out: of at least two groups, the longest there is, and the
/// first of that length.
pub open spec fn is_gap(g: Seq<u16>, start: int, len: int) -> bool {
    &&& len >= 2
    &&& zero_run(g, start, len)
    &&& forall|s: int, l: int|
        #[trigger] zero_run(g, s, l) && l > 0 ==> l < len || (l == len && start <= s)
}

/// An IPv4 address in IPv6 form: ten zero bytes, two of all ones, and its four bytes.
pub open spec fn is_mapped(b: Seq<u8>) -> bool {
    &&& forall|k: int| 0 <= k < 10 ==> #[trigger] b[k] == 0
    &&& b[10] == 255
    &&& b[11] == 255
}

/// The address around the run of zero groups that starts at `start`.
pub open spec fn gapped_text(g: Seq<u16>, start: int, len: int) -> Seq<char> {
    groups_text(g.take(start)) + "::"@ + groups_text(g.skip(start + len))
}

/// An IPv6 address of sixteen bytes as text.
pub open spec fn v6_text(b: Seq<u8>) -> Seq<char> {
    if is_mapped(b) {
        "::ffff:"@ + v4_text(b.subrange(12, 16))
    } else if exists|s: int, l: int| is_gap(groups(b), s, l) {
        let (s, l) = choose|s: int, l: int| is_gap(groups(b), s, l);
        gapped_text(groups(b), s, l)
    } else {
        groups_text(groups(b))
    }
}

/// There is at most one run to leave out.
proof fn lemma_gap_unique(g: Seq<u16>, s1: int, l1: int, s2: int, l2: int)
    requires
        is_gap(g, s1, l1),
        is_gap(g, s2, l2),
    ensures
        s1 == s2,
        l1 == l2,
{
    assert(zero_run(g, s1, l1));
    assert(zero_run(g, s2, l2));
}

/// Appends groups from `from` to `to`.
fn push_groups(out: &mut String, g: &Vec<u16>, from: usize, to: usize)
    requires
        from <= to <= g@.len(),
    ensures
        final(out)@ == old(out)@ + groups_text(g@.subrange(from as int, to as int)),
{
    let ghost hexed = |n: u16| digits(n as nat, 16);
    assert(g@.subrange(from as int, from as int).map_values(hexed) =~= Seq::empty());
    for i in from..to
        invariant
            from <= to <= g@.len(),
            hexed == (|n: u16| digits(n as nat, 16)),
            out@ == old(out)@ + groups_text(g@.subrange(from as int, i as int)),
    {
        let ghost done = g@.subrange(from as int, i as int);
        let ghost more = g@.subrange(from as int, i + 1);
        proof {
            assert(more =~= done.push(g@[i as int]));
            assert(more.map_values(hexed) =~= done.map_values(hexed).push(hexed(g@[i as int])));
            joined_push(done.map_values(hexed), ":"@, hexed(g@[i as int]));
        }
        if i > from {
            out.append(":");
        }
        push_digits(out, g[i] as u64, 16);
        assert(out@ =~= old(out)@ + groups_text(more));
    }
}

/// Finds the first longest run of zero groups, as its start and length.
fn longest_zero_run(g: &Vec<u16>) -> (r: (usize, usize))
    ensures
        zero_run(g@, r.0 as int, r.1 as int),
        forall|s: int, l: int|
            #[trigger] zero_run(g@, s, l) && l > 0 ==> l < r.1 || (l == r.1 && r.0 <= s),
{
    let mut best: (usize, usize) = (0, 0);
    let mut start: usize = 0;
    let n: usize = g.len();
    for i in 0..n
        invariant
            n == g@.len(),
            start <= i,
            zero_run(g@, start as int, i - start),
            start > 0 ==> g@[start - 1] != 0,
            zero_run(g@, best.0 as int, best.1 as int),
            best.0 + best.1 <= i,
            forall|s: int, l: int|
                #[trigger] zero_run(g@, s, l) && l > 0 && s + l <= i ==> l < best.1 || (l == best.1
                    && best.0 <= s),
    {
        let ghost was = best;
        if g[i] == 0 {
            if i + 1 - start > best.1 {
                best = (start, i + 1 - start);
            }
            proof {
                assert(zero_run(g@, start as int, i + 1 - start));
                assert forall|s: int, l: int|
                    #[trigger] zero_run(g@, s, l) && l > 0 && s + l <= i + 1 implies l < best.1 || (
                l == best.1 && best.0 <= s) by {
                    if s + l == i + 1 {
                        if s < start {
                            assert(g@[start - 1] == 0);
                        }
                        assert(l <= i + 1 - start);
                        if l == best.1 && best == was {
                            if l > 1 {
                                assert(zero_run(g@, s, l - 1));
                            }
                            assert(best.0 + best.1 <= i);
                            assert(best.0 <= s);
                        }
                    } else if zero_run(g@, s, l) {
                        assert(s + l <= i);
                    }
                }
            }
        } else {
            proof {
                assert forall|s: int, l: int|
                    #[trigger] zero_run(g@, s, l) && l > 0 && s + l <= i + 1 implies l < best.1 || (
                l == best.1 && best.0 <= s) by {
                    if s + l == i + 1 {
                        assert(g@[i as int] == 0);
                    }
                }
            }
            start = i + 1;
        }
    }
    best
}

/// An IPv6 address as text.
pub fn format_v6(b: &[u8; 16]) -> (s: String)
    ensures
        s@ == v6_text(b@),
{
    let mut zeros: usize = 0;
    while zeros < 10 && b[zeros] == 0
        invariant
            zeros <= 10,
            forall|k: int| 0 <= k < zeros ==> #[trigger] b@[k] == 0,
        decreases 10 - zeros,
    {
        zeros += 1;
    }
    let mut s = String::new();
    if zeros == 10 && b[10] == 255 && b[11] == 255 {
        s.append("::ffff:");
        push_v4(&mut s, b[12], b[13], b[14], b[15]);
        assert(seq![b[12], b[13], b[14], b[15]] =~= b@.subrange(12, 16));
        assert(s@ =~= v6_text(b@));
        return s;
    }
    let mut g: Vec<u16> = Vec::new();
    for i in 0..8usize
        invariant
            g@.len() == i,
            forall|k: int| 0 <= k < i ==> #[trigger] g@[k] == groups(b@)[k],
    {
        g.push(b[2 * i] as u16 * 256 + b[2 * i + 1] as u16);
    }
    assert(g@ =~= groups(b@));
    let gap: (usize, usize) = longest_zero_run(&g);
    if gap.1 >= 2 {
        push_groups(&mut s, &g, 0, gap.0);
        s.append("::");
        push_groups(&mut s, &g, gap.0 + gap.1, g.len());
        proof {
            assert(is_gap(groups(b@), gap.0 as int, gap.1 as int));
            let (cs, cl) = choose|cs: int, cl: int| is_gap(groups(b@), cs, cl);
            lemma_gap_unique(groups(b@), gap.0 as int, gap.1 as int, cs, cl);
            assert(g@.subrange(0, gap.0 as int) =~= g@.take(gap.0 as int));
            assert(g@.subrange(gap.0 + gap.1, g@.len() as int) =~= g@.skip(gap.0 + gap.1));
            assert(s@ =~= gapped_text(g@, gap.0 as int, gap.1 as int));
        }
    } else {
        push_groups(&mut s, &g, 0, g.len());
        proof {
            assert(g@.subrange(0, g@.len() as int) =~= g@);
            assert forall|cs: int, cl: int| !is_gap(groups(b@), cs, cl) by {
                if is_gap(groups(b@), cs, cl) {
                    assert(zero_run(g@, cs, cl));
                }
            }
            assert(s@ =~= v6_text(b@));
        }
    }
    s
}

proof fn lemma_digits_hold_no_colon(n: nat, base: nat)
    requires
        2 <= base <= 16,
    ensures
        !digits(n, base).contains(':'),
{
    digits_are_digits(n, base);
}

/// The text of an IPv4 address holds no colon.
pub proof fn v4_text_has_no_colon(b: Seq<u8>)
    ensures
        !is_v6_text(v4_text(b)),
{
    reveal_strlit(".");
    lemma_digits_hold_no_colon(b[0] as nat, 10);
    lemma_digits_hold_no_colon(b[1] as nat, 10);
    lemma_digits_hold_no_colon(b[2] as nat, 10);
    lemma_digits_hold_no_colon(b[3] as nat, 10);
    let d0 = decimal(b[0] as nat);
    let d1 = decimal(b[1] as nat);
    let d2 = decimal(b[2] as nat);
    let d3 = decimal(b[3] as nat);
    lemma_no_colon_concat(d0, "."@);
    lemma_no_colon_concat(d0 + "."@, d1);
    lemma_no_colon_concat(d0 + "."@ + d1, "."@);
    lemma_no_colon_concat(d0 + "."@ + d1 + "."@, d2);
    lemma_no_colon_concat(d0 + "."@ + d1 + "."@ + d2, "."@);
    lemma_no_colon_concat(d0 + "."@ + d1 + "."@ + d2 + "."@, d3);
}

proof fn lemma_no_colon_concat(a: Seq<char>, b: Seq<char>)
    requires
        !a.contains(':'),
        !b.contains(':'),
    ensures
        !(a + b).contains(':'),
{
    assert forall|k: int| 0 <= k < (a + b).len() implies (a + b)[k] != ':' by {
        if k < a.len() {
            assert(a.contains(a[k]));
        } else {
            assert(b.contains(b[k - a.len()]));
        }
    }
}

/// The text of an IPv6 address holds a colon.
pub proof fn v6_text_has_a_colon(b: Seq<u8>)
    ensures
        is_v6_text(v6_text(b)),
{
    reveal_strlit(":");
    reveal_strlit("::");
    reveal_strlit("::ffff:");
    let g = groups(b);
    let t = v6_text(b);
    if is_mapped(b) {
        assert(t[0] == ':');
    } else if exists|s: int, l: int| is_gap(g, s, l) {
        let (s, l) = choose|s: int, l: int| is_gap(g, s, l);
        assert(t[groups_text(g.take(s)).len() as int] == ':');
    } else {
        let parts = g.map_values(|n: u16| digits(n as nat, 16));
        assert(t == joined(parts.drop_last(), ":"@) + ":"@ + parts.last());
        assert(t[joined(parts.drop_last(), ":"@).len() as int] == ':');
    }
}

} // verus!
