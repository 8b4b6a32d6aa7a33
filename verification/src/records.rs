//! The layouts of the records that the kernel side shares with the program.

use vstd::prelude::*;

use crate::layout::{
    align_up, c_layout, field_offset, fields_end, is_layout, struct_align, struct_size, CLayout, Field,
};

verus! {

/// The longest name that a record holds.
pub const DNS_MAX_NAME_LEN: usize = 255;

/// The size of the parser's name buffer.
pub const DNS_NAME_BUF: usize = 512;

/// The number of labels, and of suffixes, that the parser keeps.
pub const DNS_MAX_ENTRIES: usize = 256;

/// The number of pointers that the parser follows in a chain.
pub const DNS_MAX_DEPTH: usize = 16;

/// A number of `size` bytes.
pub open spec fn scalar(size: usize) -> Field {
    Field { size, align: size }
}

/// `n` items of `size` bytes each in a row.
pub open spec fn array(n: usize, size: usize, align: usize) -> Field {
    Field { size: (n * size) as usize, align }
}

fn number(size: usize) -> (f: Field)
    ensures
        f == scalar(size),
{
    Field { size, align: size }
}

fn items(n: usize, size: usize, align: usize) -> (f: Field)
    requires
        n * size <= usize::MAX,
    ensures
        f == array(n, size, align),
{
    Field { size: n * size, align }
}

/// An answer event: record type, name length, transaction, answer number, address family, three
/// unused bytes, IPv4 address, IPv6 address, time to live, name.
pub open spec fn event_fields() -> Seq<Field> {
    seq![
        scalar(2),
        scalar(2),
        scalar(2),
        scalar(2),
        scalar(1),
        array(3, 1, 1),
        scalar(4),
        array(16, 1, 1),
        scalar(4),
        array(256, 1, 1),
    ]
}

/// A key of the reverse cache: address family, three unused bytes, address.
pub open spec fn reverse_key_fields() -> Seq<Field> {
    seq![scalar(1), array(3, 1, 1), array(16, 1, 1)]
}

/// A value of the reverse cache: time of insertion, time to live, name length, two unused bytes,
/// name.
pub open spec fn reverse_value_fields() -> Seq<Field> {
    seq![scalar(8), scalar(4), scalar(2), scalar(2), array(256, 1, 1)]
}

/// A label that the parser is walking over: its offset and where it starts in the name buffer.
pub open spec fn pending_label_fields() -> Seq<Field> {
    seq![scalar(2), scalar(2)]
}

/// A suffix that the parser has seen: its offset, and where it starts and how long it is in the
/// name buffer.
pub open spec fn cache_entry_fields() -> Seq<Field> {
    seq![scalar(2), scalar(2), scalar(1)]
}

/// A frame of the parser's stack.
pub open spec fn frame_fields() -> Seq<Field> {
    seq![scalar(2), scalar(2), scalar(1)]
}

/// The state of the parser: numbers, then the name buffer, the pending labels, the suffixes and
/// the stack.
pub open spec fn parser_state_fields() -> Seq<Field> {
    seq![
        scalar(2),
        scalar(2),
        scalar(2),
        scalar(4),
        scalar(4),
        scalar(4),
        scalar(8),
        scalar(4),
        scalar(4),
        scalar(4),
        scalar(4),
        scalar(4),
        scalar(1),
        scalar(1),
        scalar(2),
        scalar(2),
        scalar(2),
        scalar(2),
        array(DNS_NAME_BUF, 1, 1),
        array(DNS_MAX_ENTRIES, 4, 2),
        array(DNS_MAX_ENTRIES, 6, 2),
        array(DNS_MAX_DEPTH, 6, 2),
    ]
}

/// The bytes of the field `i` of a record.
pub open spec fn field_bytes(data: Seq<u8>, fields: Seq<Field>, i: int) -> Seq<u8> {
    data.subrange(
        field_offset(fields, i) as int,
        field_offset(fields, i) + fields[i].size,
    )
}

/// One field more: where it starts and ends, and the alignment so far, by those of the fields
/// before it.
proof fn lemma_one_more(
    fields: Seq<Field>,
    i: int,
    size: nat,
    own: nat,
    end: nat,
    align: nat,
    start: nat,
)
    requires
        0 <= i < fields.len(),
        fields[i].size == size,
        fields[i].align == own,
        fields_end(fields, i as nat) == end,
        struct_align(fields, i as nat) == align,
        start == align_up(end, own),
    ensures
        field_offset(fields, i) == start,
        fields_end(fields, (i + 1) as nat) == start + size,
        struct_align(fields, (i + 1) as nat) == if own > align {
            own
        } else {
            align
        },
{
}

/// The sizes and offsets of the events and of the reverse cache.
pub proof fn record_layouts()
    ensures
        struct_size(event_fields()) == 292,
        field_offset(event_fields(), 0) == 0,
        field_offset(event_fields(), 1) == 2,
        field_offset(event_fields(), 2) == 4,
        field_offset(event_fields(), 3) == 6,
        field_offset(event_fields(), 4) == 8,
        field_offset(event_fields(), 6) == 12,
        field_offset(event_fields(), 7) == 16,
        field_offset(event_fields(), 8) == 32,
        field_offset(event_fields(), 9) == 36,
        struct_size(reverse_key_fields()) == 20,
        field_offset(reverse_key_fields(), 0) == 0,
        field_offset(reverse_key_fields(), 2) == 4,
        struct_size(reverse_value_fields()) == 272,
        field_offset(reverse_value_fields(), 0) == 0,
        field_offset(reverse_value_fields(), 1) == 8,
        field_offset(reverse_value_fields(), 2) == 12,
        field_offset(reverse_value_fields(), 4) == 16,
{
    let f = event_fields();
    lemma_one_more(f, 0, 2, 2, 0, 1, 0);
    lemma_one_more(f, 1, 2, 2, 2, 2, 2);
    lemma_one_more(f, 2, 2, 2, 4, 2, 4);
    lemma_one_more(f, 3, 2, 2, 6, 2, 6);
    lemma_one_more(f, 4, 1, 1, 8, 2, 8);
    lemma_one_more(f, 5, 3, 1, 9, 2, 9);
    lemma_one_more(f, 6, 4, 4, 12, 2, 12);
    lemma_one_more(f, 7, 16, 1, 16, 4, 16);
    lemma_one_more(f, 8, 4, 4, 32, 4, 32);
    lemma_one_more(f, 9, 256, 1, 36, 4, 36);
    let f = reverse_key_fields();
    lemma_one_more(f, 0, 1, 1, 0, 1, 0);
    lemma_one_more(f, 1, 3, 1, 1, 1, 1);
    lemma_one_more(f, 2, 16, 1, 4, 1, 4);
    let f = reverse_value_fields();
    lemma_one_more(f, 0, 8, 8, 0, 1, 0);
    lemma_one_more(f, 1, 4, 4, 8, 8, 8);
    lemma_one_more(f, 2, 2, 2, 12, 8, 12);
    lemma_one_more(f, 3, 2, 2, 14, 8, 14);
    lemma_one_more(f, 4, 256, 1, 16, 8, 16);
}

/// The sizes and alignments of the parser's state and of what it is made of.
pub proof fn parser_layouts()
    ensures
        struct_size(pending_label_fields()) == 4,
        struct_align(pending_label_fields(), 2) == 2,
        struct_size(cache_entry_fields()) == 6,
        struct_align(cache_entry_fields(), 3) == 2,
        struct_size(frame_fields()) == 6,
        struct_align(frame_fields(), 3) == 2,
        struct_size(parser_state_fields()) == 60 + DNS_NAME_BUF + DNS_MAX_ENTRIES * 4
            + DNS_MAX_ENTRIES * 6 + DNS_MAX_DEPTH * 6 + 4,
        struct_align(parser_state_fields(), 22) == 8,
{
    let f = pending_label_fields();
    lemma_one_more(f, 0, 2, 2, 0, 1, 0);
    lemma_one_more(f, 1, 2, 2, 2, 2, 2);
    let f = cache_entry_fields();
    lemma_one_more(f, 0, 2, 2, 0, 1, 0);
    lemma_one_more(f, 1, 2, 2, 2, 2, 2);
    lemma_one_more(f, 2, 1, 1, 4, 2, 4);
    let f = frame_fields();
    lemma_one_more(f, 0, 2, 2, 0, 1, 0);
    lemma_one_more(f, 1, 2, 2, 2, 2, 2);
    lemma_one_more(f, 2, 1, 1, 4, 2, 4);
    let f = parser_state_fields();
    lemma_one_more(f, 0, 2, 2, 0, 1, 0);
    lemma_one_more(f, 1, 2, 2, 2, 2, 2);
    lemma_one_more(f, 2, 2, 2, 4, 2, 4);
    lemma_one_more(f, 3, 4, 4, 6, 2, 8);
    lemma_one_more(f, 4, 4, 4, 12, 4, 12);
    lemma_one_more(f, 5, 4, 4, 16, 4, 16);
    lemma_one_more(f, 6, 8, 8, 20, 4, 24);
    lemma_one_more(f, 7, 4, 4, 32, 8, 32);
    lemma_one_more(f, 8, 4, 4, 36, 8, 36);
    lemma_one_more(f, 9, 4, 4, 40, 8, 40);
    lemma_one_more(f, 10, 4, 4, 44, 8, 44);
    lemma_one_more(f, 11, 4, 4, 48, 8, 48);
    lemma_one_more(f, 12, 1, 1, 52, 8, 52);
    lemma_one_more(f, 13, 1, 1, 53, 8, 53);
    lemma_one_more(f, 14, 2, 2, 54, 8, 54);
    lemma_one_more(f, 15, 2, 2, 56, 8, 56);
    lemma_one_more(f, 16, 2, 2, 58, 8, 58);
    lemma_one_more(f, 17, 2, 2, 60, 8, 60);
    lemma_one_more(f, 18, 512, 1, 62, 8, 62);
    lemma_one_more(f, 19, 1024, 2, 574, 8, 574);
    lemma_one_more(f, 20, 1536, 2, 1598, 8, 1598);
    lemma_one_more(f, 21, 96, 2, 3134, 8, 3134);
}

fn laid_out(fields: Vec<Field>) -> (l: CLayout)
    requires
        forall|i: int| 0 <= i < fields@.len() ==> (#[trigger] fields@[i]).align > 0,
        struct_size(fields@) <= usize::MAX,
    ensures
        is_layout(l, fields@),
{
    c_layout(fields.as_slice()).unwrap()
}

/// The layout of a pending label.
pub fn pending_label_layout() -> (l: CLayout)
    ensures
        is_layout(l, pending_label_fields()),
{
    let fields = vec![number(2), number(2)];
    proof {
        assert(fields@ =~= pending_label_fields());
        parser_layouts();
    }
    laid_out(fields)
}

/// The layout of a suffix of the parser's cache.
pub fn cache_entry_layout() -> (l: CLayout)
    ensures
        is_layout(l, cache_entry_fields()),
{
    let fields = vec![number(2), number(2), number(1)];
    proof {
        assert(fields@ =~= cache_entry_fields());
        parser_layouts();
    }
    laid_out(fields)
}

/// The layout of a frame of the parser's stack.
pub fn frame_layout() -> (l: CLayout)
    ensures
        is_layout(l, frame_fields()),
{
    let fields = vec![number(2), number(2), number(1)];
    proof {
        assert(fields@ =~= frame_fields());
        parser_layouts();
    }
    laid_out(fields)
}

/// The layout of the parser's state.
pub fn parser_state_layout() -> (l: CLayout)
    ensures
        is_layout(l, parser_state_fields()),
{
    let label = pending_label_layout();
    let suffix = cache_entry_layout();
    let frame = frame_layout();
    proof {
        parser_layouts();
    }
    let fields = vec![
        number(2),
        number(2),
        number(2),
        number(4),
        number(4),
        number(4),
        number(8),
        number(4),
        number(4),
        number(4),
        number(4),
        number(4),
        number(1),
        number(1),
        number(2),
        number(2),
        number(2),
        number(2),
        items(DNS_NAME_BUF, 1, 1),
        items(DNS_MAX_ENTRIES, label.size, label.align),
        items(DNS_MAX_ENTRIES, suffix.size, suffix.align),
        items(DNS_MAX_DEPTH, frame.size, frame.align),
    ];
    assert(fields@ =~= parser_state_fields());
    laid_out(fields)
}

} // verus!
