//! Payloads written out in hexadecimal.

use vstd::prelude::*;
use vstd::slice::slice_subrange;
use vstd::string::*;

use crate::text::{digit_char, joined, joined_push, push_digits};

verus! {

/// The bytes of a payload that stand on one line.
pub const BYTES_PER_LINE: usize = 12;

/// A byte in hexadecimal: `0x` and two digits.
pub open spec fn byte_text(b: u8) -> Seq<char> {
    seq!['0', 'x', digit_char(b as int / 16), digit_char(b as int % 16)]
}

/// One line: twelve blanks, then the bytes with commas between them.
pub open spec fn line_text(bytes: Seq<u8>) -> Seq<char> {
    "            "@ + joined(bytes.map_values(|b: u8| byte_text(b)), ", "@)
}

/// The number of lines of a payload of `n` bytes.
pub open spec fn line_count(n: nat) -> nat {
    (n + BYTES_PER_LINE - 1) as nat / BYTES_PER_LINE as nat
}

/// The bytes on line `i`: twelve, or what is left.
pub open spec fn line_bytes(payload: Seq<u8>, i: int) -> Seq<u8> {
    let start = i * BYTES_PER_LINE;
    let end = start + BYTES_PER_LINE;
    payload.subrange(
        start,
        if end <= payload.len() {
            end
        } else {
            payload.len() as int
        },
    )
}

/// The lines of a payload.
pub open spec fn payload_lines(payload: Seq<u8>) -> Seq<Seq<char>> {
    Seq::new(line_count(payload.len()), |i: int| line_text(line_bytes(payload, i)))
}

/// A payload written out.
pub open spec fn payload_text(payload: Seq<u8>) -> Seq<char> {
    joined(payload_lines(payload), ",\n"@)
}

fn push_byte(out: &mut String, b: u8)
    ensures
        final(out)@ == old(out)@ + byte_text(b),
{
    proof {
        reveal_strlit("0x");
        reveal_with_fuel(crate::text::digits, 2);
    }
    out.append("0x");
    push_digits(out, (b / 16) as u64, 16);
    push_digits(out, (b % 16) as u64, 16);
    assert(out@ =~= old(out)@ + byte_text(b));
}

fn push_line(out: &mut String, bytes: &[u8])
    ensures
        final(out)@ == old(out)@ + line_text(bytes@),
{
    out.append("            ");
    let ghost start = out@;
    let ghost texts = bytes@.map_values(|b: u8| byte_text(b));
    let mut i: usize = 0;
    while i < bytes.len()
        invariant
            i <= bytes@.len(),
            texts == bytes@.map_values(|b: u8| byte_text(b)),
            out@ == start + joined(texts.take(i as int), ", "@),
        decreases bytes@.len() - i,
    {
        proof {
            assert(texts.take(i + 1) =~= texts.take(i as int).push(byte_text(bytes@[i as int])));
            joined_push(texts.take(i as int), ", "@, byte_text(bytes@[i as int]));
        }
        if i > 0 {
            out.append(", ");
        }
        push_byte(out, bytes[i]);
        i += 1;
        assert(out@ =~= start + joined(texts.take(i as int), ", "@));
    }
    assert(texts.take(i as int) =~= texts);
    assert(out@ =~= old(out)@ + line_text(bytes@));
}

/// Writes a payload out: twelve bytes in hexadecimal on each line.
pub fn format_payload(payload: &[u8]) -> (s: String)
    ensures
        s@ == payload_text(payload@),
{
    let mut out = String::new();
    let ghost lines = payload_lines(payload@);
    let ghost mut done: int = 0;
    let n: usize = payload.len();
    let mut at: usize = 0;
    while at < n
        invariant
            n == payload@.len(),
            lines == payload_lines(payload@),
            0 <= done <= lines.len(),
            at == done * BYTES_PER_LINE || (at == n && done == lines.len()),
            at <= n,
            out@ == joined(lines.take(done), ",\n"@),
        decreases n - at,
    {
        let end: usize = if n - at > BYTES_PER_LINE {
            at + BYTES_PER_LINE
        } else {
            n
        };
        if at > 0 {
            out.append(",\n");
        }
        let line = slice_subrange(payload, at, end);
        push_line(&mut out, line);
        proof {
            assert(line@ =~= line_bytes(payload@, done));
            assert(lines.take(done + 1) =~= lines.take(done).push(line_text(line@)));
            joined_push(lines.take(done), ",\n"@, line_text(line@));
            done = done + 1;
        }
        at = end;
        assert(out@ =~= joined(lines.take(done), ",\n"@));
    }
    assert(lines.take(done) =~= lines);
    out
}

// What holds of a payload's text.

/// What stands before byte `n` of a payload: the start of a line, or a comma and a blank.
pub open spec fn gap(n: nat) -> Seq<char> {
    if n == 0 {
        "            "@
    } else if n % BYTES_PER_LINE as nat == 0 {
        ",\n"@ + "            "@
    } else {
        ", "@
    }
}

proof fn lemma_line_push(bytes: Seq<u8>, b: u8)
    ensures
        line_text(bytes.push(b)) == if bytes.len() == 0 {
            "            "@ + byte_text(b)
        } else {
            line_text(bytes) + ", "@ + byte_text(b)
        },
{
    let texts = bytes.map_values(|b: u8| byte_text(b));
    assert(bytes.push(b).map_values(|b: u8| byte_text(b)) =~= texts.push(byte_text(b)));
    joined_push(texts, ", "@, byte_text(b));
    assert(line_text(bytes.push(b)) =~= if bytes.len() == 0 {
        "            "@ + byte_text(b)
    } else {
        line_text(bytes) + ", "@ + byte_text(b)
    });
}

/// One byte more goes to the end of the text, on a line of its own after every twelfth.
pub proof fn payload_text_push(payload: Seq<u8>, b: u8)
    ensures
        payload_text(payload.push(b)) == payload_text(payload) + gap(payload.len()) + byte_text(b),
{
    let n = payload.len();
    let longer = payload.push(b);
    let lines = payload_lines(payload);
    let k = line_count(n) as int;
    assert forall|i: int| 0 <= i && 12 * i + 12 <= n implies #[trigger] line_bytes(longer, i)
        == line_bytes(payload, i) by {
        assert(line_bytes(longer, i) =~= line_bytes(payload, i));
    }
    if n % 12 == 0 {
        assert(line_count(n + 1) == k + 1 && 12 * k == n);
        assert(line_bytes(longer, k) =~= Seq::<u8>::empty().push(b));
        lemma_line_push(Seq::empty(), b);
        let line = "            "@ + byte_text(b);
        assert(payload_lines(longer) =~= lines.push(line));
        joined_push(lines, ",\n"@, line);
    } else {
        assert(line_count(n + 1) == k && 12 * (k - 1) < n < 12 * k);
        let bytes = line_bytes(payload, k - 1);
        let line = line_text(bytes) + ", "@ + byte_text(b);
        assert(line_bytes(longer, k - 1) =~= bytes.push(b));
        lemma_line_push(bytes, b);
        let before = lines.drop_last();
        assert(lines =~= before.push(line_text(bytes)));
        assert(payload_lines(longer) =~= before.push(line));
        joined_push(before, ",\n"@, line_text(bytes));
        joined_push(before, ",\n"@, line);
    }
    assert(payload_text(longer) =~= payload_text(payload) + gap(n) + byte_text(b));
}

/// The text of a payload, taken as a whole.
#[verifier::opaque]
spec fn whole_text(payload: Seq<u8>) -> Seq<char> {
    payload_text(payload)
}

proof fn lemma_whole_text_push(payload: Seq<u8>, b: u8)
    ensures
        whole_text(payload.push(b)) == whole_text(payload) + gap(payload.len()) + byte_text(b),
        payload.len() == 0 ==> whole_text(payload) == Seq::<char>::empty(),
{
    reveal(whole_text);
    payload_text_push(payload, b);
}

proof fn lemma_whole_lines(a: Seq<u8>, b: Seq<u8>)
    requires
        a.len() > 0,
        b.len() > 0,
        a.len() % BYTES_PER_LINE as nat == 0,
    ensures
        whole_text(a + b) == whole_text(a) + ",\n"@ + whole_text(b),
    decreases b.len(),
{
    let before = b.drop_last();
    let m = before.len();
    let core = byte_text(b.last());
    assert(a + b =~= (a + before).push(b.last()));
    assert(b =~= before.push(b.last()));
    lemma_whole_text_push(a + before, b.last());
    lemma_whole_text_push(before, b.last());
    assert((a + before).len() == a.len() + m);
    let (first, second) = (whole_text(a), whole_text(before));
    if m == 0 {
        assert(a + before =~= a);
        assert(gap(a.len() + m) == ",\n"@ + gap(m));
        assert(first + (",\n"@ + gap(m)) + core =~= first + ",\n"@ + (second + gap(m) + core));
    } else {
        lemma_whole_lines(a, before);
        assert((a.len() + m) % 12 == m % 12);
        assert(gap(a.len() + m) == gap(m));
        assert(first + ",\n"@ + second + gap(m) + core =~= first + ",\n"@ + (second + gap(m)
            + core));
    }
}

/// The text of two payloads put together, where the first fills its lines: the texts of both, with
/// the end of a line between them.
pub proof fn payload_text_of_whole_lines(a: Seq<u8>, b: Seq<u8>)
    requires
        a.len() > 0,
        b.len() > 0,
        a.len() % BYTES_PER_LINE as nat == 0,
    ensures
        payload_text(a + b) == payload_text(a) + ",\n"@ + payload_text(b),
{
    lemma_whole_lines(a, b);
    reveal(whole_text);
}

/// A text split at its commas.
pub open spec fn split_at_commas(text: Seq<char>) -> Seq<Seq<char>>
    decreases text.len(),
{
    if text.len() == 0 {
        seq![Seq::empty()]
    } else {
        let before = split_at_commas(text.drop_last());
        if text.last() == ',' {
            before.push(Seq::empty())
        } else {
            before.drop_last().push(before.last().push(text.last()))
        }
    }
}

/// A blank, a tab or the end of a line.
pub open spec fn is_blank(c: char) -> bool {
    c == ' ' || c == '\t' || c == '\n' || c == '\r'
}

/// A text without the blanks around it.
pub open spec fn trimmed(text: Seq<char>) -> Seq<char>
    decreases text.len(),
{
    if text.len() == 0 {
        text
    } else if is_blank(text[0]) {
        trimmed(text.drop_first())
    } else if is_blank(text.last()) {
        trimmed(text.drop_last())
    } else {
        text
    }
}

/// The value of a digit of bases up to sixteen.
pub open spec fn digit_value(c: char) -> int {
    if c <= '9' {
        c as int - 48
    } else {
        c as int - 87
    }
}

/// The byte that `0x` and two digits stand for.
pub open spec fn byte_value(token: Seq<char>) -> u8 {
    (16 * digit_value(token[2]) + digit_value(token[3])) as u8
}

/// The tokens of a text: what stands between the commas, without the blanks around it. A text of
/// nothing but blanks has none.
pub open spec fn tokens(text: Seq<char>) -> Seq<Seq<char>> {
    if trimmed(text).len() == 0 {
        Seq::empty()
    } else {
        split_at_commas(text).map_values(|token: Seq<char>| trimmed(token))
    }
}

proof fn lemma_split_append(text: Seq<char>, more: Seq<char>)
    requires
        !more.contains(','),
    ensures
        split_at_commas(text).len() > 0,
        split_at_commas(text + more) == split_at_commas(text).drop_last().push(
            split_at_commas(text).last() + more,
        ),
    decreases text.len() + more.len(),
{
    let parts = split_at_commas(text);
    if text.len() > 0 {
        lemma_split_append(text.drop_last(), Seq::empty());
    }
    if more.len() == 0 {
        assert(text + more =~= text);
        assert(parts.last() + more =~= parts.last());
        assert(parts =~= parts.drop_last().push(parts.last()));
    } else {
        let less = more.drop_last();
        assert(more.contains(more.last()));
        assert forall|i: int| 0 <= i < less.len() implies less[i] != ',' by {
            assert(more.contains(more[i]));
        }
        lemma_split_append(text, less);
        assert((text + more).drop_last() =~= text + less);
        assert((parts.last() + less).push(more.last()) =~= parts.last() + more);
        let joined_less = parts.drop_last().push(parts.last() + less);
        assert(joined_less.drop_last() =~= parts.drop_last());
    }
}

proof fn lemma_trimmed(blanks: Seq<char>, core: Seq<char>)
    requires
        forall|i: int| 0 <= i < blanks.len() ==> is_blank(#[trigger] blanks[i]),
        core.len() > 0,
        !is_blank(core[0]),
        !is_blank(core.last()),
    ensures
        trimmed(blanks + core) == core,
    decreases blanks.len(),
{
    if blanks.len() == 0 {
        assert(blanks + core =~= core);
    } else {
        assert((blanks + core).drop_first() =~= blanks.drop_first() + core);
        lemma_trimmed(blanks.drop_first(), core);
    }
}

/// A text that holds more than blanks has a token.
proof fn lemma_not_blank(text: Seq<char>, i: int)
    requires
        0 <= i < text.len(),
        !is_blank(text[i]),
    ensures
        trimmed(text).len() > 0,
    decreases text.len(),
{
    if is_blank(text[0]) {
        lemma_not_blank(text.drop_first(), i - 1);
    } else if is_blank(text.last()) {
        lemma_not_blank(text.drop_last(), i);
    }
}

proof fn lemma_byte_text(b: u8)
    ensures
        !byte_text(b).contains(','),
        !is_blank(byte_text(b)[0]),
        !is_blank(byte_text(b)[3]),
        byte_value(byte_text(b)) == b,
{
}

/// The tokens of a payload's text are its bytes in order, each as `0x` and two digits; so the
/// payload can be read back from them.
pub proof fn payload_reads_back(payload: Seq<u8>)
    ensures
        tokens(payload_text(payload)) == payload.map_values(|b: u8| byte_text(b)),
        tokens(payload_text(payload)).map_values(|token: Seq<char>| byte_value(token)) == payload,
    decreases payload.len(),
{
    let text = payload_text(payload);
    if payload.len() == 0 {
        assert(text =~= Seq::<char>::empty());
    } else {
        let before = payload.drop_last();
        let b = payload.last();
        let core = byte_text(b);
        assert(payload =~= before.push(b));
        payload_text_push(before, b);
        payload_reads_back(before);
        lemma_byte_text(b);
        reveal_strlit("            ");
        reveal_strlit(", ");
        reveal_strlit(",\n");
        let start = payload_text(before);
        let gap_here = gap(before.len());
        let blanks = if before.len() == 0 {
            gap_here
        } else {
            gap_here.drop_first()
        };
        let piece = blanks + core;
        assert forall|i: int| 0 <= i < piece.len() implies piece[i] != ',' by {
            if i >= blanks.len() {
                assert(core.contains(piece[i]));
            }
        }
        lemma_trimmed(blanks, core);
        lemma_not_blank(text, text.len() - 1);
        let parts = split_at_commas(text);
        if before.len() == 0 {
            assert(start =~= Seq::<char>::empty());
            assert(text =~= start + piece);
            lemma_split_append(start, piece);
            assert(parts =~= seq![piece]);
        } else {
            assert(text =~= start.push(',') + piece);
            assert(start.push(',').drop_last() =~= start);
            lemma_split_append(start.push(','), piece);
            assert(Seq::<char>::empty() + piece =~= piece);
            assert(parts =~= split_at_commas(start).push(piece));
            assert(tokens(start).len() > 0);
        }
        assert(tokens(text) =~= tokens(start).push(core));
        assert(payload.map_values(|b: u8| byte_text(b)) =~= before.map_values(
            |b: u8| byte_text(b),
        ).push(core));
    }
    let read = tokens(text).map_values(|token: Seq<char>| byte_value(token));
    assert forall|i: int| 0 <= i < payload.len() implies read[i] == payload[i] by {
        lemma_byte_text(payload[i]);
    }
    assert(read =~= payload);
}

/// A payload can be told from its text: different payloads are written differently.
pub proof fn payload_text_tells_apart(a: Seq<u8>, b: Seq<u8>)
    ensures
        payload_text(a) == payload_text(b) <==> a == b,
{
    payload_reads_back(a);
    payload_reads_back(b);
}

} // verus!
