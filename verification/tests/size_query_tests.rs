use orbital_surface::mapping::buffer_byte_size;
use orbital_surface::mapping::page_aligned_size;
use orbital_surface::mapping::PAGE_SIZE;
use orbital_surface::size_query::parse_window_size;

#[test]
fn reads_width_and_height_fields() {
    let (w, h) = parse_window_size(b"orbital:/10/20/300/400/title");
    assert_eq!((w, h), (300, 400));
}

#[test]
fn title_and_position_fields_do_not_matter() {
    let (w, h) = parse_window_size(b"orbital:/0/0/640/480/some/odd/title");
    assert_eq!((w, h), (640, 480));
}

#[test]
fn unparseable_descriptor_reads_as_zero_size() {
    assert_eq!(parse_window_size(b"garbage"), (0, 0));
    assert_eq!(parse_window_size(b""), (0, 0));
}

#[test]
fn missing_height_field_reads_as_zero() {
    assert_eq!(parse_window_size(b"orbital:/1/2/77"), (77, 0));
}

#[test]
fn unparseable_fields_count_as_zero_one_by_one() {
    assert_eq!(parse_window_size(b"a/b/c/12x/34"), (0, 34));
    assert_eq!(parse_window_size(b"a/b/c/12/3x4"), (12, 0));
    assert_eq!(parse_window_size(b"a/b/c//34"), (0, 34));
}

#[test]
fn plus_sign_is_accepted_once() {
    assert_eq!(parse_window_size(b"a/b/c/+12/+34"), (12, 34));
    assert_eq!(parse_window_size(b"a/b/c/++12/34"), (0, 34));
    assert_eq!(parse_window_size(b"a/b/c/+/34"), (0, 34));
}

#[test]
fn negative_fields_are_unparseable() {
    assert_eq!(parse_window_size(b"a/b/c/-12/34"), (0, 34));
}

#[test]
fn overflowing_field_counts_as_zero() {
    assert_eq!(parse_window_size(b"a/b/c/99999999999999999999999/34"), (0, 34));
    assert_eq!(parse_window_size(b"a/b/c/18446744073709551615/1"), (usize::MAX, 1));
    assert_eq!(parse_window_size(b"a/b/c/18446744073709551616/1"), (0, 1));
}

#[test]
fn zero_byte_request_occupies_one_page() {
    assert_eq!(page_aligned_size(0), PAGE_SIZE);
}

#[test]
fn sizes_round_up_to_whole_pages() {
    assert_eq!(page_aligned_size(1), PAGE_SIZE);
    assert_eq!(page_aligned_size(PAGE_SIZE), PAGE_SIZE);
    assert_eq!(page_aligned_size(PAGE_SIZE + 1), 2 * PAGE_SIZE);
    assert_eq!(page_aligned_size(3 * PAGE_SIZE - 1), 3 * PAGE_SIZE);
}

#[test]
fn byte_size_is_four_per_pixel() {
    assert_eq!(buffer_byte_size(0, 0), Some(0));
    assert_eq!(buffer_byte_size(640, 480), Some(640 * 480 * 4));
    assert_eq!(buffer_byte_size(usize::MAX, 2), None);
    assert_eq!(buffer_byte_size(usize::MAX / 4 + 1, 1), None);
}
