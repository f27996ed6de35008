use orbital_surface::OrbitalImpl;
use orbital_surface::WindowHandle;

fn surface() -> OrbitalImpl {
    OrbitalImpl::new(WindowHandle { fd: 3 }).unwrap()
}

#[test]
fn new_surface_is_empty() {
    let s = surface();
    let buf = s.buffer_mut().unwrap();
    assert_eq!(buf.pixels().len(), 0);
}

#[test]
fn view_length_is_width_times_height() {
    let mut s = surface();
    s.resize(3, 5).unwrap();
    let buf = s.buffer_mut().unwrap();
    assert_eq!(buf.pixels().len(), 15);
}

#[test]
fn view_length_tracks_second_resize() {
    let mut s = surface();
    s.resize(4, 4).unwrap();
    let mut buf = s.buffer_mut().unwrap();
    buf.pixels_mut()[15] = 7;
    let mut s = buf.present(0, 0, &mut Vec::new());
    s.resize(2, 3).unwrap();
    let buf = s.buffer_mut().unwrap();
    assert_eq!(buf.pixels().len(), 6);
}

#[test]
fn zero_size_is_permitted() {
    let mut s = surface();
    s.resize(0, 7).unwrap();
    let buf = s.buffer_mut().unwrap();
    assert_eq!(buf.pixels().len(), 0);
}

#[test]
fn grown_pixels_are_zero_and_old_pixels_kept() {
    let mut s = surface();
    s.resize(2, 2).unwrap();
    let mut buf = s.buffer_mut().unwrap();
    for i in 0..4 {
        buf.pixels_mut()[i] = (i as u32) + 1;
    }
    let mut s = buf.present(0, 0, &mut Vec::new());
    s.resize(3, 2).unwrap();
    let buf = s.buffer_mut().unwrap();
    assert_eq!(buf.pixels().to_vec(), vec![1, 2, 3, 4, 0, 0]);
}

#[test]
fn present_with_matching_sizes_copies_everything() {
    let mut s = surface();
    s.resize(3, 2).unwrap();
    let mut buf = s.buffer_mut().unwrap();
    for i in 0..6 {
        buf.pixels_mut()[i] = 10 + i as u32;
    }
    let mut window = vec![9u32; 8];
    buf.present(3, 2, &mut window);
    assert_eq!(window, vec![10, 11, 12, 13, 14, 15, 9, 9]);
}

#[test]
fn present_crops_to_smaller_window() {
    // Client buffer 4x2 filled with u32::MAX; window reports 2x2: window
    // rows 0 and 1, columns 0 and 1 take the value, everything else is
    // untouched.
    let mut s = surface();
    s.resize(4, 2).unwrap();
    let mut buf = s.buffer_mut().unwrap();
    for i in 0..8 {
        buf.pixels_mut()[i] = 0xFFFF_FFFF;
    }
    let mut window = vec![7u32; 12];
    buf.present(2, 2, &mut window);
    assert_eq!(
        window,
        vec![0xFFFF_FFFF, 0xFFFF_FFFF, 0xFFFF_FFFF, 0xFFFF_FFFF, 7, 7, 7, 7, 7, 7, 7, 7]
    );
}

#[test]
fn present_crop_takes_top_left_of_client() {
    // Client 3x3 numbered row-major; window 2x2 receives the top-left
    // 2x2 rectangle, row by row.
    let mut s = surface();
    s.resize(3, 3).unwrap();
    let mut buf = s.buffer_mut().unwrap();
    for i in 0..9 {
        buf.pixels_mut()[i] = i as u32;
    }
    let mut window = vec![99u32; 4];
    buf.present(2, 2, &mut window);
    assert_eq!(window, vec![0, 1, 3, 4]);
}

#[test]
fn present_expands_into_larger_window() {
    // Client 2x1; window 4x3: only the top-left 2x1 region of the window
    // is overwritten.
    let mut s = surface();
    s.resize(2, 1).unwrap();
    let mut buf = s.buffer_mut().unwrap();
    buf.pixels_mut()[0] = 5;
    buf.pixels_mut()[1] = 6;
    let mut window = vec![1u32; 12];
    buf.present(4, 3, &mut window);
    assert_eq!(window, vec![5, 6, 1, 1, 1, 1, 1, 1, 1, 1, 1, 1]);
}

#[test]
fn presenting_twice_gives_same_window_contents() {
    let mut s = surface();
    s.resize(3, 2).unwrap();
    let mut buf = s.buffer_mut().unwrap();
    for i in 0..6 {
        buf.pixels_mut()[i] = 40 + i as u32;
    }
    let mut window_a = vec![2u32; 10];
    let s = buf.present(2, 3, &mut window_a);
    let first = window_a.clone();
    let buf = s.buffer_mut().unwrap();
    buf.present(2, 3, &mut window_a);
    assert_eq!(window_a, first);
}

#[test]
fn degenerate_window_size_copies_nothing() {
    let mut s = surface();
    s.resize(2, 2).unwrap();
    let mut buf = s.buffer_mut().unwrap();
    for i in 0..4 {
        buf.pixels_mut()[i] = 3;
    }
    let mut window = vec![8u32; 6];
    buf.present(0, 0, &mut window);
    assert_eq!(window, vec![8, 8, 8, 8, 8, 8]);
}

#[test]
fn pixels_mut_writes_are_visible_through_pixels() {
    let mut s = surface();
    s.resize(2, 2).unwrap();
    let mut buf = s.buffer_mut().unwrap();
    buf.pixels_mut()[2] = 0xAABB_CCDD;
    assert_eq!(buf.pixels()[2], 0xAABB_CCDD);
    assert_eq!(buf.pixels()[0], 0);
}
