use theodb_am::layout::{
    addr_key, page_max_offset, elem_size, elem_size_v4, elems_per_page, elems_per_page_v4, maxalign, nbr_size, nbr_slots, raw_size,
    raws_per_page,
};

#[test]
fn maxalign_rounds_up_to_eight() {
    assert_eq!(maxalign(0), 0);
    assert_eq!(maxalign(1), 8);
    assert_eq!(maxalign(8), 8);
    assert_eq!(maxalign(28), 32);
    assert_eq!(maxalign(33), 40);
}

#[test]
fn element_sizes_and_page_capacity() {
    assert_eq!(elem_size(2, 0), 28);
    assert_eq!(elem_size(128, 16), 20 + 512 + 16);
    // 8168 usable bytes / (4-byte line pointer + 32 aligned bytes)
    assert_eq!(elems_per_page(2, 0), 226);
    assert_eq!(elems_per_page(128, 0), 15);
    // an element larger than a page still gets a page of its own
    assert_eq!(elems_per_page(4000, 0), 1);
}

#[test]
fn v4_and_raw_sizes() {
    assert_eq!(elem_size_v4(16), 42);
    assert_eq!(elems_per_page_v4(16), 157);
    assert_eq!(raw_size(128), 516);
    assert_eq!(raws_per_page(128), 15);
}

#[test]
fn neighbor_tuple_sizes() {
    assert_eq!(nbr_slots(0, 16, 32), 32);
    assert_eq!(nbr_slots(2, 16, 32), 64);
    assert_eq!(nbr_size(2, 16, 32), 4 + 64 * 6);
}

#[test]
fn addr_keys_are_block_then_offset() {
    assert_eq!(addr_key((0, 1)), 1);
    assert_eq!(addr_key((1, 0)), 65536);
    assert_eq!(addr_key((3, 7)), 3 * 65536 + 7);
    assert_ne!(addr_key((1, 2)), addr_key((2, 1)));
}

#[test]
fn line_pointer_count_from_pd_lower() {
    assert_eq!(page_max_offset(0), 0);
    assert_eq!(page_max_offset(24), 0);
    assert_eq!(page_max_offset(28), 1);
    assert_eq!(page_max_offset(24 + 4 * 226), 226);
}
