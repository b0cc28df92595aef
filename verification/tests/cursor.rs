use swl::backend::cursor::{
    frame, load_cursor_env, load_icon, nearest_images, Cursor, CursorChoice, CursorError,
    CursorImageStatus, CursorStateInner, IconFile, Image,
};

fn image(size: u32, width: u32, delay: u32) -> Image {
    Image {
        size,
        width,
        height: width,
        xhot: 3,
        yhot: 5,
        delay,
        pixels_rgba: vec![size as u8, delay as u8],
        pixels_argb: vec![],
    }
}

fn cursor(images: Vec<Image>, size: u32) -> Cursor {
    Cursor::from_images(Some(images), None, vec![], size)
}

fn word(v: u32) -> Vec<u8> {
    v.to_le_bytes().to_vec()
}

/// A cursor file with one image of one pixel.
fn file() -> Vec<u8> {
    let mut data = b"Xcur".to_vec();
    for v in [16, 0x10000, 1, 0xfffd0002, 24, 28, 36, 0xfffd0002, 24, 1, 1, 1, 0, 1, 7] {
        data.extend(word(v));
    }
    data.extend([0x12, 0x34, 0x56, 0x78]);
    data
}

#[test]
fn a_cursor_file_is_read() {
    let images = load_icon(&IconFile::Read(file())).ok().unwrap();
    assert_eq!(images.len(), 1);
    let i = &images[0];
    assert_eq!((i.size, i.width, i.height, i.xhot, i.yhot, i.delay), (24, 1, 1, 0, 1, 7));
    assert_eq!(i.pixels_rgba, vec![0x12, 0x34, 0x56, 0x78]);
    assert_eq!(i.pixels_argb, vec![0x78, 0x12, 0x34, 0x56]);
}

#[test]
fn a_missing_icon_is_told_from_a_broken_one() {
    assert_eq!(load_icon(&IconFile::Missing).err(), Some(CursorError::NoDefaultCursor));
    assert_eq!(load_icon(&IconFile::Unreadable).err(), Some(CursorError::File));
    assert_eq!(load_icon(&IconFile::Read(vec![1, 2, 3])).err(), Some(CursorError::Parse));
}

#[test]
fn a_pointer_falls_back_on_the_default_one_and_then_on_the_built_in_one() {
    let own = Cursor::load(&IconFile::Read(file()), &IconFile::Missing, vec![], 24);
    assert_eq!(own.get_image(1, 0).delay, 7);
    let other = Cursor::load(&IconFile::Unreadable, &IconFile::Read(file()), vec![], 24);
    assert_eq!(other.get_image(1, 0).delay, 7);
    let built_in = Cursor::load(&IconFile::Missing, &IconFile::Missing, vec![9, 8], 24);
    let i = built_in.get_image(2, 12345);
    assert_eq!((i.size, i.width, i.height, i.xhot, i.yhot, i.delay), (32, 64, 64, 1, 1, 1));
    assert_eq!(i.pixels_rgba, vec![9, 8]);
    assert!(i.pixels_argb.is_empty());
}

#[test]
fn the_nearest_size_is_chosen() {
    let c = cursor(vec![image(16, 16, 1), image(32, 32, 1), image(48, 48, 1)], 24);
    // as near to 16 as to 32: the first one counts
    assert_eq!(c.get_image(1, 0).size, 16);
    assert_eq!(c.get_image(2, 0).size, 48);
}

#[test]
fn an_animation_goes_round() {
    let c = cursor(vec![image(24, 24, 100), image(24, 24, 50), image(48, 48, 1)], 24);
    let delay_at = |millis: u32| c.get_image(1, millis).delay;
    assert_eq!(delay_at(0), 100);
    assert_eq!(delay_at(100), 100);
    assert_eq!(delay_at(101), 50);
    assert_eq!(delay_at(149), 50);
    assert_eq!(delay_at(150), 100);
    assert_eq!(delay_at(251), 50);
}

#[test]
fn a_frame_is_one_of_the_nearest_images() {
    let images = vec![image(48, 48, 1), image(24, 24, 30), image(16, 16, 9), image(24, 24, 20)];
    assert_eq!(nearest_images(22, &images), vec![1, 3]);
    assert_eq!(nearest_images(400, &images), vec![0]);
    for millis in 0..50 {
        let shown = frame(millis, 22, &images);
        assert_eq!(shown.width, 24);
        assert_eq!(shown.delay, if millis <= 30 { 30 } else { 20 });
        assert!(shown.same_as(&frame(millis + 50, 22, &images)));
    }
}

#[test]
fn what_cannot_be_drawn_is_known() {
    assert!(!cursor(vec![], 24).can_draw(1));
    assert!(!cursor(vec![image(24, 24, 1)], u32::MAX).can_draw(2));
    assert!(!cursor(vec![image(24, 24, u32::MAX), image(24, 24, 1)], 24).can_draw(1));
    assert!(cursor(vec![image(24, 24, 0)], 24).can_draw(1));
    assert_eq!(cursor(vec![image(24, 24, 0)], 24).get_image(1, 77).size, 24);
}

#[test]
fn the_theme_comes_from_the_environment() {
    assert_eq!(load_cursor_env(None, None), (String::from("default"), 24));
    assert_eq!(load_cursor_env(Some("Adwaita"), Some("48")), (String::from("Adwaita"), 48));
    assert_eq!(load_cursor_env(None, Some("big")).1, 24);
    assert_eq!(load_cursor_env(None, Some("-1")).1, 24);
}

#[test]
fn a_named_shape_goes_before_what_the_client_draws() {
    let mut state = CursorStateInner::new(3, 24);
    assert_eq!(state.cursor_to_draw(CursorImageStatus::Surface), CursorChoice::Named(3));
    state.cursor_image(CursorImageStatus::Named(4));
    state.cursor_image(CursorImageStatus::Hidden);
    assert_eq!(state.cursor_to_draw(CursorImageStatus::Hidden), CursorChoice::Named(4));
    assert_eq!(state.size(), 24);
}

#[test]
fn an_image_is_uploaded_once() {
    let mut state = CursorStateInner::new(3, 24);
    assert_eq!(state.find_cursor(3), None);
    let place = state.get_named_cursor(3, cursor(vec![image(48, 48, 10), image(48, 48, 20)], 24));
    assert_eq!(state.find_cursor(3), Some(place));
    let again = state.get_named_cursor(3, cursor(vec![], 24));
    assert_eq!(again, place);
    let first = state.draw_cursor(place, 2, 0).unwrap();
    assert!(first.upload);
    assert_eq!((first.image, first.scale, first.hotspot_x, first.hotspot_y), (0, 2, 1, 2));
    let second = state.draw_cursor(place, 2, 15).unwrap();
    assert!(second.upload);
    assert_eq!(second.image, 1);
    let third = state.draw_cursor(place, 2, 30).unwrap();
    assert!(!third.upload);
    assert_eq!(third.image, 0);
    assert_eq!(state.image(1).map(|i| i.delay), Some(20));
    assert!(state.image(2).is_none());
    assert_eq!(state.draw_cursor(7, 1, 0), None);
}

#[test]
fn images_are_compared_in_full() {
    let a = image(24, 24, 1);
    let mut b = a.duplicate();
    assert!(a.same_as(&b));
    b.pixels_rgba[1] = 99;
    assert!(!a.same_as(&b));
    assert!(!a.same_as(&image(24, 24, 2)));
}
