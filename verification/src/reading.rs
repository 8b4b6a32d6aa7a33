//! Texts read back: what was written into them can be had out of them again.

use vstd::prelude::*;
use vstd::utf8::encode_utf8;

use crate::addr::{groups, groups_text, is_gap, v4_text, v6_text, zero_run};
use crate::capture::capture_key;
use crate::clock::{hms_text, two_digits};
use crate::event::{
    event_addr, event_name, event_summary, event_type, feed_event, name_bytes, DnsEventView,
};
use crate::text::{decimal, digits, digits_are_digits, joined_push, lossy_text};

verus! {

/// What a digit is worth, in bases up to sixteen.
pub open spec fn worth(c: char) -> int {
    if 48 <= c as int <= 57 {
        c as int - 48
    } else {
        c as int - 97 + 10
    }
}

/// The number that digits stand for.
pub open spec fn number_of(text: Seq<char>, base: int) -> int
    decreases text.len(),
{
    if text.len() == 0 {
        0
    } else {
        number_of(text.drop_last(), base) * base + worth(text.last())
    }
}

/// All characters are digits, or letters from `a` to `f`.
pub open spec fn are_digits(text: Seq<char>) -> bool {
    forall|i: int|
        0 <= i < text.len() ==> 48 <= #[trigger] text[i] as int <= 57 || 97 <= text[i] as int <= 102
}

/// A number is written in digits of its base, which give it back; none of them is an idle zero.
pub proof fn numbers_read_back(n: nat, base: nat)
    requires
        2 <= base <= 16,
    ensures
        number_of(digits(n, base), base as int) == n,
        are_digits(digits(n, base)),
        digits(n, base).len() > 0,
        digits(n, base).len() > 1 ==> digits(n, base)[0] as int != 48,
        forall|i: int|
            0 <= i < digits(n, base).len() ==> 0 <= worth(#[trigger] digits(n, base)[i]) < base,
        base == 10 ==> forall|i: int|
            0 <= i < digits(n, base).len() ==> 48 <= #[trigger] digits(n, base)[i] as int <= 57,
    decreases n,
{
    let d = digits(n, base);
    reveal_with_fuel(number_of, 2);
    if n >= base {
        vstd::arithmetic::div_mod::lemma_div_decreases(n as int, base as int);
        vstd::arithmetic::div_mod::lemma_fundamental_div_mod(n as int, base as int);
        let (q, r) = (n / base, n % base);
        assert(0 <= r < base);
        numbers_read_back(q, base);
        let e = digits(q, base);
        assert(d.drop_last() =~= e);
        assert(number_of(d, base as int) == q * base + r) by {
            assert(number_of(d, base as int) == number_of(e, base as int) * base as int + worth(
                d.last(),
            ));
        }
        assert(q * base == base * q) by (nonlinear_arith);
        assert forall|i: int| 0 <= i < d.len() implies 48 <= #[trigger] d[i] as int <= 57 || 97
            <= d[i] as int <= 102 by {
            if i < e.len() {
                assert(d[i] == e[i]);
            }
        }
        assert forall|i: int| 0 <= i < d.len() implies 0 <= worth(#[trigger] d[i]) < base by {
            if i < e.len() {
                assert(d[i] == e[i]);
            }
        }
        if e.len() == 1 {
            assert(d[0] == e[0]);
            assert(q >= 1) by (nonlinear_arith)
                requires
                    n >= base,
                    n == base * q + r,
                    0 <= r < base,
                    base >= 2,
            ;
            if e[0] as int == 48 {
                assert(number_of(e, base as int) == 0) by {
                    assert(e.drop_last() =~= Seq::<char>::empty());
                }
            }
        } else {
            assert(d[0] == e[0]);
        }
        if base == 10 {
            assert forall|i: int| 0 <= i < d.len() implies 48 <= #[trigger] d[i] as int <= 57 by {
                if i < e.len() {
                    assert(d[i] == e[i]);
                }
            }
        }
    } else {
        assert(d.drop_last() =~= Seq::<char>::empty());
    }
}

/// `text` is `n` written plainly: in digits, without idle zeros.
pub open spec fn plainly(text: Seq<char>, n: int, base: int) -> bool {
    &&& text.len() > 0
    &&& are_digits(text)
    &&& forall|i: int| 0 <= i < text.len() ==> 0 <= worth(#[trigger] text[i]) < base
    &&& text.len() > 1 ==> text[0] as int != 48
    &&& number_of(text, base) == n
}

proof fn lemma_first_digit_counts(text: Seq<char>, base: int)
    requires
        text.len() > 0,
        base >= 2,
        text[0] as int != 48,
        are_digits(text),
        forall|i: int| 0 <= i < text.len() ==> 0 <= worth(#[trigger] text[i]) < base,
    ensures
        number_of(text, base) >= 1,
    decreases text.len(),
{
    reveal_with_fuel(number_of, 2);
    let less = text.drop_last();
    assert(worth(text[0]) > 0);
    if less.len() > 0 {
        assert forall|i: int| 0 <= i < less.len() implies 0 <= worth(#[trigger] less[i]) < base by {
            assert(less[i] == text[i]);
        }
        lemma_first_digit_counts(less, base);
        let m = number_of(less, base);
        assert(m * base >= 1) by (nonlinear_arith)
            requires
                m >= 1,
                base >= 2,
        ;
    }
    assert(worth(text.last()) >= 0);
}

/// There is one way only to write a number plainly.
pub proof fn plain_writing_is_unique(text: Seq<char>, n: nat, base: nat)
    requires
        2 <= base <= 16,
        plainly(text, n as int, base as int),
    ensures
        text == digits(n, base),
    decreases text.len(),
{
    reveal_with_fuel(number_of, 2);
    let less = text.drop_last();
    let last = text.last();
    let w = worth(last);
    assert(0 <= w < base);
    assert(crate::text::digit_char(w) == last);
    if less.len() == 0 {
        assert(text =~= seq![last]);
        assert(text =~= digits(n, base));
    } else {
        assert forall|i: int| 0 <= i < less.len() implies 0 <= worth(#[trigger] less[i]) < base by {
            assert(less[i] == text[i]);
        }
        assert(less[0] == text[0]);
        lemma_first_digit_counts(less, base as int);
        let m = number_of(less, base as int);
        assert(n == m * base + w);
        assert(n / base == m && n % base == w) by {
            vstd::arithmetic::div_mod::lemma_fundamental_div_mod_converse(
                n as int,
                base as int,
                m,
                w,
            );
        }
        assert(n >= base) by (nonlinear_arith)
            requires
                n == m * base + w,
                m >= 1,
                w >= 0,
        ;
        plain_writing_is_unique(less, m as nat, base);
        assert(text =~= less.push(last));
    }
}

/// A text split at every `sep`.
pub open spec fn split_at(text: Seq<char>, sep: char) -> Seq<Seq<char>>
    decreases text.len(),
{
    if text.len() == 0 {
        seq![Seq::empty()]
    } else {
        let before = split_at(text.drop_last(), sep);
        if text.last() == sep {
            before.push(Seq::empty())
        } else {
            before.drop_last().push(before.last().push(text.last()))
        }
    }
}

/// The numbers between every two `sep`.
pub open spec fn numbers_in(text: Seq<char>, sep: char, base: int) -> Seq<int> {
    split_at(text, sep).map_values(|part: Seq<char>| number_of(part, base))
}

proof fn lemma_split_append(text: Seq<char>, more: Seq<char>, sep: char)
    requires
        !more.contains(sep),
    ensures
        split_at(text, sep).len() > 0,
        split_at(text + more, sep) == split_at(text, sep).drop_last().push(
            split_at(text, sep).last() + more,
        ),
    decreases text.len() + more.len(),
{
    let parts = split_at(text, sep);
    if text.len() > 0 {
        lemma_split_append(text.drop_last(), Seq::empty(), sep);
    }
    if more.len() == 0 {
        assert(text + more =~= text);
        assert(parts.last() + more =~= parts.last());
        assert(parts =~= parts.drop_last().push(parts.last()));
    } else {
        let less = more.drop_last();
        assert(more.contains(more.last()));
        assert forall|i: int| 0 <= i < less.len() implies less[i] != sep by {
            assert(more.contains(more[i]));
        }
        lemma_split_append(text, less, sep);
        assert((text + more).drop_last() =~= text + less);
        assert((parts.last() + less).push(more.last()) =~= parts.last() + more);
        let so_far = parts.drop_last().push(parts.last() + less);
        assert(so_far.drop_last() =~= parts.drop_last());
    }
}

/// One part more behind a separator.
proof fn lemma_split_push(text: Seq<char>, part: Seq<char>, sep: char)
    requires
        !part.contains(sep),
    ensures
        split_at(text + seq![sep] + part, sep) == split_at(text, sep).push(part),
{
    let longer = text.push(sep);
    assert(longer.drop_last() =~= text);
    lemma_split_append(longer, part, sep);
    assert(text + seq![sep] + part =~= longer + part);
    assert(Seq::<char>::empty() + part =~= part);
    assert(split_at(longer, sep).drop_last() =~= split_at(text, sep));
}

proof fn lemma_split_one(part: Seq<char>, sep: char)
    requires
        !part.contains(sep),
    ensures
        split_at(part, sep) == seq![part],
{
    lemma_split_append(Seq::empty(), part, sep);
    assert(Seq::<char>::empty() + part =~= part);
    assert(split_at(part, sep) =~= seq![part]);
}

proof fn lemma_digits_without(n: nat, base: nat, sep: char)
    requires
        2 <= base <= 16,
        !(48 <= sep as int <= 57 || 97 <= sep as int <= 102),
    ensures
        !digits(n, base).contains(sep),
{
    numbers_read_back(n, base);
    let d = digits(n, base);
    assert forall|i: int| 0 <= i < d.len() implies d[i] != sep by {
        assert(48 <= d[i] as int <= 57 || 97 <= d[i] as int <= 102);
    }
}

/// Between the dots of an IPv4 address stand its four bytes.
pub proof fn ipv4_reads_back(b: Seq<u8>)
    ensures
        numbers_in(v4_text(b), '.', 10) == seq![b[0] as int, b[1] as int, b[2] as int, b[3] as int],
        split_at(v4_text(b), '.').len() == 4,
        forall|i: int|
            0 <= i < 4 ==> plainly(#[trigger] split_at(v4_text(b), '.')[i], b[i] as int, 10),
{
    reveal_strlit(".");
    let d = |i: int| decimal(b[i] as nat);
    assert("."@ =~= seq!['.']);
    lemma_digits_without(b[0] as nat, 10, '.');
    lemma_digits_without(b[1] as nat, 10, '.');
    lemma_digits_without(b[2] as nat, 10, '.');
    lemma_digits_without(b[3] as nat, 10, '.');
    numbers_read_back(b[0] as nat, 10);
    numbers_read_back(b[1] as nat, 10);
    numbers_read_back(b[2] as nat, 10);
    numbers_read_back(b[3] as nat, 10);
    let two = d(0) + "."@ + d(1);
    let three = two + "."@ + d(2);
    lemma_split_one(d(0), '.');
    lemma_split_push(d(0), d(1), '.');
    lemma_split_push(two, d(2), '.');
    lemma_split_push(three, d(3), '.');
    assert(split_at(v4_text(b), '.') =~= seq![d(0), d(1), d(2), d(3)]);
    assert(numbers_in(v4_text(b), '.', 10) =~= seq![
        b[0] as int,
        b[1] as int,
        b[2] as int,
        b[3] as int,
    ]);
}

proof fn lemma_two_digits(n: nat)
    ensures
        number_of(two_digits(n), 10) == n,
        !two_digits(n).contains(':'),
        two_digits(n).len() >= 2,
        n < 100 ==> two_digits(n).len() == 2,
{
    reveal_strlit("0");
    numbers_read_back(n, 10);
    lemma_digits_without(n, 10, ':');
    let t = two_digits(n);
    reveal_with_fuel(number_of, 3);
    if n < 10 {
        assert(t.drop_last() =~= "0"@);
        assert("0"@.drop_last() =~= Seq::<char>::empty());
    } else {
        assert(decimal(n).len() >= 2) by {
            digits_are_digits(n / 10, 10);
        }
        if n < 100 {
            assert(digits(n / 10, 10).len() == 1);
        }
    }
}

/// Between the colons of a time of day stand hour, minute and second, each in two digits where that
/// is enough.
pub proof fn times_read_back(hour: u32, minute: u32, second: u32)
    ensures
        numbers_in(hms_text(hour, minute, second), ':', 10) == seq![
            hour as int,
            minute as int,
            second as int,
        ],
        hour < 100 && minute < 100 && second < 100 ==> hms_text(hour, minute, second).len() == 8,
{
    reveal_strlit(":");
    assert(":"@ =~= seq![':']);
    let (h, m, s) = (two_digits(hour as nat), two_digits(minute as nat), two_digits(second as nat));
    lemma_two_digits(hour as nat);
    lemma_two_digits(minute as nat);
    lemma_two_digits(second as nat);
    lemma_split_one(h, ':');
    lemma_split_push(h, m, ':');
    lemma_split_push(h + ":"@ + m, s, ':');
    assert(split_at(hms_text(hour, minute, second), ':') =~= seq![h, m, s]);
    assert(numbers_in(hms_text(hour, minute, second), ':', 10) =~= seq![
        hour as int,
        minute as int,
        second as int,
    ]);
}

/// A capture's key names its transaction and its processor.
pub proof fn capture_keys_read_back(txid: u16, cpu: u16)
    ensures
        numbers_in(capture_key(txid, cpu), '_', 10) == seq![txid as int, cpu as int],
        split_at(capture_key(txid, cpu), '_').len() == 2,
        plainly(split_at(capture_key(txid, cpu), '_')[0], txid as int, 10),
        plainly(split_at(capture_key(txid, cpu), '_')[1], cpu as int, 10),
{
    reveal_strlit("_");
    assert("_"@ =~= seq!['_']);
    let (t, c) = (decimal(txid as nat), decimal(cpu as nat));
    numbers_read_back(txid as nat, 10);
    numbers_read_back(cpu as nat, 10);
    lemma_digits_without(txid as nat, 10, '_');
    lemma_digits_without(cpu as nat, 10, '_');
    lemma_split_one(t, '_');
    lemma_split_push(t, c, '_');
    assert(split_at(capture_key(txid, cpu), '_') =~= seq![t, c]);
    assert(numbers_in(capture_key(txid, cpu), '_', 10) =~= seq![txid as int, cpu as int]);
}

/// The name of an event is the text that its name field encodes, in full up to 255 bytes.
pub proof fn names_read_back(ev: DnsEventView, name: Seq<char>)
    requires
        ev.name.len() >= ev.name_len,
        ev.name_len <= 255,
        encode_utf8(name) == ev.name.subrange(0, ev.name_len as int),
    ensures
        event_name(ev) == name,
{
    assert(name_bytes(ev.name, ev.name_len) =~= encode_utf8(name));
    vstd::utf8::encode_utf8_valid_utf8(name);
    vstd::utf8::encode_utf8_decode_utf8(name);
}

/// A name field that gives itself more than 255 bytes is read as one of 255.
pub proof fn long_names_are_cut(ev: DnsEventView)
    requires
        ev.name_len > 255,
    ensures
        event_name(ev) == event_name(DnsEventView { name_len: 255, ..ev }),
{
}

/// A name field of ASCII bytes is read byte for byte.
pub proof fn ascii_names_read_back(ev: DnsEventView)
    requires
        ev.name.len() >= ev.name_len,
        ev.name_len <= 255,
        forall|i: int| 0 <= i < ev.name_len ==> #[trigger] ev.name[i] < 128,
    ensures
        event_name(ev).len() == ev.name_len,
        forall|i: int|
            0 <= i < ev.name_len ==> #[trigger] event_name(ev)[i] as int == ev.name[i] as int,
{
    let n = ev.name_len as int;
    let name = Seq::new(n as nat, |i: int| ev.name[i] as char);
    assert forall|i: int| 0 <= i < n implies name[i] as int == ev.name[i] as int by {
        assert(ev.name[i] < 128);
    }
    assert(vstd::utf8::is_ascii_chars(name)) by {
        assert forall|i: int| 0 <= i < name.len() implies '\0' <= #[trigger] name[i] <= '\u{7f}' by {
            assert(ev.name[i] < 128);
        }
    }
    vstd::utf8::is_ascii_chars_encode_utf8(name);
    let bytes = encode_utf8(name);
    assert(bytes =~= ev.name.subrange(0, n)) by {
        assert forall|i: int| 0 <= i < n implies bytes[i] == ev.name[i] by {
            assert(name[i] as u8 == bytes[i]);
        }
    }
    names_read_back(ev, name);
}

/// The logged line is made of its parts and nothing else: `[txid=`, the transaction, ` answer=`, the
/// number of the answer, `] `, the name in full, the record type and the address.
pub proof fn log_lines_hold_all(ev: DnsEventView, tx: Seq<char>, ans: Seq<char>)
    requires
        plainly(tx, ev.txid as int, 10),
        plainly(ans, ev.answer_idx as int, 10),
    ensures
        ({
            let line = event_summary(ev);
            let (name, kind) = (event_name(ev), event_type(ev));
            let (t, n) = (tx.len() as int, ans.len() as int);
            let at = 16 + t + n;
            let end = at + name.len();
            &&& line.len() == end + 2 + kind.len() + event_addr(ev).len()
            &&& line.subrange(0, 6) == "[txid="@
            &&& line.subrange(6, 6 + t) == tx
            &&& line.subrange(6 + t, 14 + t) == " answer="@
            &&& line.subrange(14 + t, 14 + t + n) == ans
            &&& line.subrange(at - 2, at) == "] "@
            &&& line.subrange(at, end) == name
            &&& line[end] == ' '
            &&& line.subrange(end + 1, end + 1 + kind.len()) == kind
            &&& line[end + 1 + kind.len()] == ' '
            &&& line.skip(end + 2 + kind.len()) == event_addr(ev)
        }),
{
    reveal_strlit("[txid=");
    reveal_strlit(" answer=");
    reveal_strlit("] ");
    reveal_strlit(" ");
    plain_writing_is_unique(tx, ev.txid as nat, 10);
    plain_writing_is_unique(ans, ev.answer_idx as nat, 10);
    let line = event_summary(ev);
    let (name, kind) = (event_name(ev), event_type(ev));
    let (t, n) = (tx.len() as int, ans.len() as int);
    let at = 16 + t + n;
    let end = at + name.len();
    assert(line.subrange(0, 6) =~= "[txid="@);
    assert(line.subrange(6, 6 + t) =~= tx);
    assert(line.subrange(6 + t, 14 + t) =~= " answer="@);
    assert(line.subrange(14 + t, 14 + t + n) =~= ans);
    assert(line.subrange(at - 2, at) =~= "] "@);
    assert(line.subrange(at, end) =~= name);
    assert(line.subrange(end + 1, end + 1 + kind.len()) =~= kind);
    assert(line.skip(end + 2 + kind.len()) =~= event_addr(ev));
}

/// Answers of the same transaction, number, family and address are logged alike only if they are
/// of the same name.
pub proof fn log_lines_tell_names_apart(a: DnsEventView, b: DnsEventView)
    requires
        event_summary(a) == event_summary(b),
        a.txid == b.txid,
        a.answer_idx == b.answer_idx,
        a.is_ipv6 == b.is_ipv6,
        a.ip4 == b.ip4,
        a.ip6 == b.ip6,
    ensures
        event_name(a) == event_name(b),
{
    let (tx, ans) = (decimal(a.txid as nat), decimal(a.answer_idx as nat));
    numbers_read_back(a.txid as nat, 10);
    numbers_read_back(a.answer_idx as nat, 10);
    log_lines_hold_all(a, tx, ans);
    log_lines_hold_all(b, tx, ans);
}

/// An event is of type `AAAA` and shows its IPv6 address, or of type `A` and shows its IPv4 address.
pub proof fn types_follow_the_family(ev: DnsEventView)
    ensures
        ev.is_ipv6 == 0 ==> event_type(ev) == seq!['A'] && event_addr(ev) == v4_text(ev.ip4),
        ev.is_ipv6 != 0 ==> event_type(ev) == seq!['A', 'A', 'A', 'A'] && event_addr(ev) == v6_text(
            ev.ip6,
        ),
{
    reveal_strlit("A");
    reveal_strlit("AAAA");
    assert("A"@ =~= seq!['A']);
    assert("AAAA"@ =~= seq!['A', 'A', 'A', 'A']);
}

/// The bytes of an ASCII name field stand in the logged line in full, one character each, between
/// `] ` and the record type.
pub proof fn log_lines_hold_ascii_names(ev: DnsEventView)
    requires
        ev.name.len() >= ev.name_len,
        ev.name_len <= 255,
        forall|i: int| 0 <= i < ev.name_len ==> #[trigger] ev.name[i] < 128,
    ensures
        ({
            let line = event_summary(ev);
            let at = 16 + decimal(ev.txid as nat).len() + decimal(ev.answer_idx as nat).len();
            &&& line.len() == at + ev.name_len + 2 + event_type(ev).len() + event_addr(ev).len()
            &&& line[at - 2] == ']'
            &&& line[at - 1] == ' '
            &&& forall|i: int|
                0 <= i < ev.name_len ==> line[at + i] as int == #[trigger] ev.name[i] as int
            &&& line[at + ev.name_len] == ' '
        }),
{
    reveal_strlit("] ");
    let (tx, ans) = (decimal(ev.txid as nat), decimal(ev.answer_idx as nat));
    numbers_read_back(ev.txid as nat, 10);
    numbers_read_back(ev.answer_idx as nat, 10);
    log_lines_hold_all(ev, tx, ans);
    ascii_names_read_back(ev);
    let line = event_summary(ev);
    let at = 16 + tx.len() as int + ans.len() as int;
    let name = event_name(ev);
    assert(line.subrange(at - 2, at)[0] == ']' && line.subrange(at - 2, at)[1] == ' ');
    assert forall|i: int| 0 <= i < ev.name_len implies line[at + i] as int
        == #[trigger] ev.name[i] as int by {
        assert(line.subrange(at, at + name.len())[i] == name[i]);
    }
}

// IPv6 addresses.

/// Two colons stand at `i`.
pub open spec fn doubled_at(text: Seq<char>, i: int) -> bool {
    &&& 0 <= i
    &&& i + 1 < text.len()
    &&& text[i] == ':'
    &&& text[i + 1] == ':'
}

/// The group of an IPv6 address that its bytes `2 * k` and `2 * k + 1` make.
pub open spec fn pair(b: Seq<u8>, k: int) -> int {
    256 * b[2 * k] + b[2 * k + 1]
}

/// The groups that a text without two colons in a row holds.
pub open spec fn groups_in(text: Seq<char>) -> Seq<int> {
    if text.len() == 0 {
        Seq::empty()
    } else {
        numbers_in(text, ':', 16)
    }
}

proof fn lemma_groups_text(g: Seq<u16>)
    ensures
        groups_in(groups_text(g)) == g.map_values(|n: u16| n as int),
        forall|i: int| !doubled_at(groups_text(g), i),
        g.len() == 0 <==> groups_text(g).len() == 0,
        g.len() > 0 ==> groups_text(g)[0] != ':' && groups_text(g).last() != ':' && split_at(
            groups_text(g),
            ':',
        ).len() == g.len(),
        forall|i: int|
            0 <= i < g.len() ==> plainly(
                #[trigger] split_at(groups_text(g), ':')[i],
                g[i] as int,
                16,
            ),
    decreases g.len(),
{
    let hexed = |n: u16| digits(n as nat, 16);
    let text = groups_text(g);
    if g.len() == 0 {
        assert(g.map_values(hexed) =~= Seq::empty());
        assert(groups_in(text) =~= g.map_values(|n: u16| n as int));
    } else {
        reveal_strlit(":");
        assert(":"@ =~= seq![':']);
        let before = g.drop_last();
        let last = g.last();
        let d = digits(last as nat, 16);
        lemma_groups_text(before);
        numbers_read_back(last as nat, 16);
        lemma_digits_without(last as nat, 16, ':');
        assert(g.map_values(hexed) =~= before.map_values(hexed).push(d));
        joined_push(before.map_values(hexed), ":"@, d);
        let start = groups_text(before);
        let parts = split_at(text, ':');
        assert(d[0] != ':' && d.last() != ':') by {
            assert(d.contains(d[0]) && d.contains(d.last()));
        }
        if before.len() == 0 {
            lemma_split_one(d, ':');
            assert forall|i: int| !doubled_at(text, i) by {
                if doubled_at(text, i) {
                    assert(d.contains(d[i]));
                }
            }
        } else {
            lemma_split_push(start, d, ':');
            assert forall|i: int| !doubled_at(text, i) by {
                if doubled_at(text, i) {
                    if i + 1 < start.len() {
                        assert(doubled_at(start, i));
                    } else if i >= start.len() + 1 {
                        assert(d.contains(d[i - start.len() - 1]));
                    } else if i + 1 == start.len() {
                        assert(start.last() == ':');
                    } else {
                        assert(d[0] == ':');
                    }
                }
            }
        }
        assert(parts.len() == g.len() && parts.last() == d);
        assert forall|i: int| 0 <= i < g.len() implies plainly(#[trigger] parts[i], g[i] as int, 16) by {
            if i < before.len() {
                assert(parts[i] == split_at(start, ':')[i]);
            }
        }
        assert(groups_in(text) =~= g.map_values(|n: u16| n as int));
    }
}

proof fn lemma_some_gap(g: Seq<u16>, s: int, l: int)
    requires
        zero_run(g, s, l),
        l >= 2,
    ensures
        exists|s1: int, l1: int| is_gap(g, s1, l1),
    decreases g.len() - l, s,
{
    if !is_gap(g, s, l) {
        let (s1, l1) = choose|s1: int, l1: int| #[trigger]
            zero_run(g, s1, l1) && l1 > 0 && !(l1 < l || (l1 == l && s <= s1));
        lemma_some_gap(g, s1, l1);
    }
}

/// An IPv6 address without two colons in a row shows its eight groups, in small hexadecimal digits
/// without idle zeros, and no two zero groups stand side by side in it.
///
/// With two colons in a row, which stand in it once, the groups before and behind them are the
/// first and the last of the address; those left out, two or more, are all zero, and no run of zero
/// groups is longer, nor any of that length earlier.
pub proof fn ipv6_reads_back(b: Seq<u8>)
    requires
        b.len() == 16,
        !(forall|k: int| 0 <= k < 10 ==> #[trigger] b[k] == 0) || b[10] != 255 || b[11] != 255,
    ensures
        (forall|i: int| !doubled_at(v6_text(b), i)) ==> {
            &&& groups_in(v6_text(b)) == Seq::new(8, |k: int| pair(b, k))
            &&& forall|k: int|
                0 <= k < 8 ==> plainly(
                    #[trigger] split_at(v6_text(b), ':')[k],
                    pair(b, k),
                    16,
                )
            &&& forall|k: int| 0 <= k < 7 ==> !(#[trigger] pair(b, k) == 0 && pair(b, k + 1) == 0)
        },
        forall|i: int| #[trigger]
            doubled_at(v6_text(b), i) ==> {
                let left = groups_in(v6_text(b).take(i));
                let right = groups_in(v6_text(b).skip(i + 2));
                let out = 8 - left.len() - right.len();
                &&& out >= 2
                &&& forall|k: int| 0 <= k < left.len() ==> left[k] == #[trigger] pair(b, k)
                &&& forall|k: int|
                    left.len() <= k < left.len() + out ==> #[trigger] pair(b, k) == 0
                &&& forall|k: int|
                    left.len() + out <= k < 8 ==> right[k - left.len() - out] == #[trigger] pair(
                        b,
                        k,
                    )
                &&& forall|s: int, l: int| #[trigger]
                    zeros(b, s, l) && l > 0 ==> l < out || (l == out && left.len() <= s)
            },
        forall|i: int, j: int| #[trigger]
            doubled_at(v6_text(b), i) && #[trigger] doubled_at(v6_text(b), j) ==> i == j,
{
    let g = groups(b);
    let text = v6_text(b);
    assert forall|k: int| 0 <= k < 8 implies g[k] as int == #[trigger] pair(b, k) by {}
    assert forall|s: int, l: int| #[trigger] zeros(b, s, l) implies zero_run(g, s, l) by {
        assert forall|k: int| s <= k < s + l implies #[trigger] g[k] == 0 by {
            assert(pair(b, k) == 0);
        }
    }
    if exists|s: int, l: int| is_gap(g, s, l) {
        let (s, l) = choose|s: int, l: int| is_gap(g, s, l);
        reveal_strlit("::");
        let (left, right) = (groups_text(g.take(s)), groups_text(g.skip(s + l)));
        lemma_groups_text(g.take(s));
        lemma_groups_text(g.skip(s + l));
        assert(text == left + "::"@ + right);
        let at = left.len() as int;
        assert(doubled_at(text, at));
        assert forall|i: int| #[trigger] doubled_at(text, i) implies i == at by {
            if i + 1 < at {
                assert(doubled_at(left, i));
            } else if i + 1 == at {
                assert(left.last() == ':');
            } else if i == at + 1 {
                assert(right[0] == ':');
            } else if i > at + 1 {
                assert(doubled_at(right, i - at - 2));
            }
        }
        assert(text.take(at) =~= left);
        assert(text.skip(at + 2) =~= right);
        let (ls, rs) = (groups_in(left), groups_in(right));
        assert(ls.len() == s && rs.len() == 8 - s - l);
        assert forall|k: int| 0 <= k < s implies ls[k] == #[trigger] pair(b, k) by {
            assert(g.take(s)[k] == g[k]);
        }
        assert forall|k: int| s <= k < s + l implies #[trigger] pair(b, k) == 0 by {
            assert(g[k] == 0);
        }
        assert forall|k: int| s + l <= k < 8 implies rs[k - s - l] == #[trigger] pair(b, k) by {
            assert(g.skip(s + l)[k - s - l] == g[k]);
        }
        assert forall|s1: int, l1: int| #[trigger] zeros(b, s1, l1) && l1 > 0 implies l1 < l || (l1
            == l && s <= s1) by {
            assert(zero_run(g, s1, l1));
        }
    } else {
        lemma_groups_text(g);
        assert(groups_in(text) =~= Seq::new(8, |k: int| pair(b, k)));
        assert forall|k: int| 0 <= k < 8 implies plainly(
            #[trigger] split_at(text, ':')[k],
            pair(b, k),
            16,
        ) by {
            assert(plainly(split_at(groups_text(g), ':')[k], g[k] as int, 16));
        }
        assert forall|k: int| 0 <= k < 7 implies !(#[trigger] pair(b, k) == 0 && pair(b, k + 1)
            == 0) by {
            if pair(b, k) == 0 && pair(b, k + 1) == 0 {
                assert(g[k] == 0 && g[k + 1] == 0);
                assert(zero_run(g, k, 2));
                lemma_some_gap(g, k, 2);
            }
        }
    }
}

/// An IPv4 address in IPv6 form, ten bytes of zero and two of 255 before it, is shown in dotted
/// decimal behind `::ffff:`.
pub proof fn mapped_addresses_show_ipv4(b: Seq<u8>)
    requires
        b.len() == 16,
        forall|k: int| 0 <= k < 10 ==> #[trigger] b[k] == 0,
        b[10] == 255,
        b[11] == 255,
    ensures
        v6_text(b) == seq![':', ':', 'f', 'f', 'f', 'f', ':'] + v4_text(
            seq![b[12], b[13], b[14], b[15]],
        ),
{
    reveal_strlit("::ffff:");
    assert("::ffff:"@ =~= seq![':', ':', 'f', 'f', 'f', 'f', ':']);
    assert(b.subrange(12, 16) =~= seq![b[12], b[13], b[14], b[15]]);
}

/// The groups from `s` on, `l` of them, are zero.
pub open spec fn zeros(b: Seq<u8>, s: int, l: int) -> bool {
    &&& 0 <= s
    &&& 0 <= l
    &&& s + l <= 8
    &&& forall|k: int| s <= k < s + l ==> #[trigger] pair(b, k) == 0
}

/// Bytes that are no valid UTF-8 are read as `String::from_utf8_lossy` reads them.
pub proof fn other_names_are_repaired(ev: DnsEventView)
    requires
        ev.name.len() >= 255,
        ev.name_len <= 255,
        !vstd::utf8::valid_utf8(ev.name.subrange(0, ev.name_len as int)),
    ensures
        event_name(ev) == lossy_text(ev.name.subrange(0, ev.name_len as int)),
{
    assert(name_bytes(ev.name, ev.name_len) =~= ev.name.subrange(0, ev.name_len as int));
}

/// An event enters the feed with its name, its type, its address, its time to live and its numbers,
/// and with the time that it is given.
pub proof fn events_enter_the_feed_whole(ev: DnsEventView, time: Seq<char>)
    ensures
        feed_event(ev, time).time == time,
        feed_event(ev, time).name == event_name(ev),
        feed_event(ev, time).record_type == event_type(ev),
        feed_event(ev, time).addr == event_addr(ev),
        feed_event(ev, time).ttl == ev.ttl,
        feed_event(ev, time).txid == ev.txid,
        feed_event(ev, time).answer_idx == ev.answer_idx,
{
}

} // verus!
