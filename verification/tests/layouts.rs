use ebpf_dns_cache::layout::{c_layout, Field};
use ebpf_dns_cache::records::{
    cache_entry_layout, frame_layout, parser_state_layout, pending_label_layout, DNS_MAX_DEPTH,
    DNS_MAX_ENTRIES, DNS_NAME_BUF,
};

#[test]
fn state_layout_matches_kernel_struct() {
    let pending = pending_label_layout();
    let entry = cache_entry_layout();
    let frame = frame_layout();
    let state = parser_state_layout();
    assert_eq!(pending.size, 4);
    assert_eq!(entry.size, 6, "u16,u16,u8 + 1 byte tail pad");
    assert_eq!(entry.align, 2);
    assert_eq!(frame.align, 2);
    assert_eq!(state.align, 8, "u64 cursor sets alignment");
    assert_eq!(
        state.size,
        60 + DNS_NAME_BUF
            + DNS_MAX_ENTRIES * pending.size
            + DNS_MAX_ENTRIES * entry.size
            + DNS_MAX_DEPTH * frame.size
            + 4
    );
}

#[test]
fn fields_are_aligned_and_the_tail_is_padded() {
    let fields = [
        Field { size: 1, align: 1 },
        Field { size: 8, align: 8 },
        Field { size: 2, align: 2 },
        Field { size: 3, align: 1 },
    ];
    let l = c_layout(&fields).unwrap();
    assert_eq!(l.offsets, vec![0, 8, 16, 18]);
    assert_eq!(l.align, 8);
    assert_eq!(l.size, 24);
    let empty = c_layout(&[]).unwrap();
    assert_eq!((empty.size, empty.align), (0, 1));
}

#[test]
fn a_struct_beyond_the_address_space_has_no_layout() {
    let fields = [
        Field { size: usize::MAX, align: 1 },
        Field { size: 1, align: 1 },
    ];
    assert!(c_layout(&fields).is_none());
}
