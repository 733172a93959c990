use ternreader::app::home::{basename_from_path, HomeAction, HomeState, RecentPreview, StartMenuAction, StartMenuSection};
use ternreader::app::positions::{compare_str, BookPositions};
use ternreader::app::start_menu::{rect_for, start_menu_layout, MenuDraw, ScreenFlush};
use ternreader::app::system::SystemState;
use ternreader::app::thumbnail::{adjust_thumbnail_luma, stream_thumbnail_from_bytes};
use ternreader::display::RefreshMode;
use ternreader::framebuffer::{DisplayBuffers, Rotation, BUFFER_SIZE};
use ternreader::image_viewer::{EntryKind, ImageData, ImageEntry};
use ternreader::input::{ButtonState, Buttons};
use ternreader::render::{draw_icon_gray2, GrayPlanes};
use ternreader::ui::Rect;

#[test]
fn pixels_read_back_what_was_written() {
    let mut b = DisplayBuffers::new();
    assert!(b.read_pixel(10, 20));
    b.set_pixel(10, 20, false);
    assert!(!b.read_pixel(10, 20));
    assert!(b.read_pixel(11, 20));
    assert!(b.read_pixel(10, 21));
    b.set_pixel(10, 20, true);
    assert!(b.read_pixel(10, 20));
    b.set_pixel(-1, 5, false);
    assert!(b.read_pixel(-1, 5));
    assert!(b.get_active_buffer().iter().all(|&x| x == 0xFF));
}

#[test]
fn rotation_swaps_the_logical_size() {
    let mut b = DisplayBuffers::new();
    assert_eq!(b.size(), (800, 480));
    b.set_rotation(Rotation::Rotate90);
    assert_eq!(b.size(), (480, 800));
    b.set_pixel(0, 0, false);
    assert!(!b.read_pixel(0, 0));
    // Logical (0, 0) under a quarter turn is the panel's bottom-left pixel.
    let buf = b.get_active_buffer();
    let idx = 479 * 800;
    assert_eq!(buf[idx / 8] & (0x80 >> (idx % 8)), 0);
}

#[test]
fn swapping_and_copying_buffers() {
    let mut b = DisplayBuffers::new();
    b.clear_screen(0x00);
    assert!(b.get_active_buffer().iter().all(|&x| x == 0));
    assert!(b.get_inactive_buffer().iter().all(|&x| x == 0xFF));
    b.swap_buffers();
    assert!(b.get_active_buffer().iter().all(|&x| x == 0xFF));
    b.copy_inactive_to_active();
    assert!(b.get_active_buffer().iter().all(|&x| x == 0));
    assert_eq!(b.get_active_buffer().len(), BUFFER_SIZE);
}

#[test]
fn button_edges() {
    let back = 1u8 << Buttons::Back.bit();
    let up = 1u8 << Buttons::Up.bit();
    let s = ButtonState::from_masks(back, back | up);
    assert!(s.is_held(Buttons::Back));
    assert!(!s.is_pressed(Buttons::Back));
    assert!(s.is_pressed(Buttons::Up));
    assert!(!s.is_released(Buttons::Up));
    let mut t = s;
    t.update(up);
    assert!(t.is_released(Buttons::Back));
    assert!(t.is_held(Buttons::Up));
    assert!(!t.is_pressed(Buttons::Up));
}

#[test]
fn book_positions_keep_the_last_page() {
    let mut p = BookPositions::new();
    assert_eq!(p.insert("b.trbk".to_string(), 3), None);
    assert_eq!(p.insert("a.trbk".to_string(), 1), None);
    assert_eq!(p.insert("b.trbk".to_string(), 7), Some(3));
    assert_eq!(p.len(), 2);
    assert_eq!(p.get("b.trbk"), Some(7));
    assert_eq!(p.get("c.trbk"), None);
    assert!(compare_str("a", "b") < 0);
    assert_eq!(compare_str("b", "b"), 0);
    assert!(compare_str("ba", "b") > 0);
}

#[test]
fn recents_move_to_front_without_duplicates() {
    let mut sys = SystemState::new(None, BookPositions::new(), vec!["a".to_string(), "b".to_string()]);
    sys.mark_recent("b".to_string());
    assert_eq!(sys.recent_entries, vec!["b".to_string(), "a".to_string()]);
    assert!(sys.recent_dirty);
    for i in 0..12 {
        sys.mark_recent(format!("n{}", i));
    }
    assert_eq!(sys.recent_entries.len(), 10);
    assert_eq!(sys.recent_entries[0], "n11");
}

#[test]
fn basename_is_the_last_part() {
    assert_eq!(basename_from_path("books/a.trbk"), "a.trbk");
    assert_eq!(basename_from_path("a.trbk"), "a.trbk");
    assert_eq!(basename_from_path("dir/"), "");
}

#[test]
fn start_menu_up_from_first_recent_wraps_to_tiles() {
    let mut h = HomeState::new();
    let recents = vec!["a.tri".to_string()];
    let up = 1u8 << Buttons::Up.bit();
    let action = h.handle_start_menu_input(&recents, &ButtonState::from_masks(0, up));
    assert!(matches!(action, HomeAction::Nothing));
    assert_eq!(h.start_menu_section, StartMenuSection::Actions);
    assert_eq!(h.start_menu_index, 2);
    assert!(h.start_menu_nav_pending);
}

#[test]
fn start_menu_left_right_switch_to_tiles() {
    let mut h = HomeState::new();
    let recents = vec!["a.tri".to_string()];
    let right = 1u8 << Buttons::Right.bit();
    let action = h.handle_start_menu_input(&recents, &ButtonState::from_masks(0, right));
    assert!(matches!(action, HomeAction::Nothing));
    assert_eq!(h.start_menu_section, StartMenuSection::Actions);
    assert_eq!(h.start_menu_index, 0);
    let left = 1u8 << Buttons::Left.bit();
    let mut g = HomeState::new();
    g.handle_start_menu_input(&recents, &ButtonState::from_masks(0, left));
    assert_eq!(g.start_menu_section, StartMenuSection::Actions);
    assert!(g.start_menu_nav_pending);
}

#[test]
fn start_menu_layout_and_highlights() {
    let b = DisplayBuffers::new();
    let l = start_menu_layout(&b);
    assert_eq!((l.width, l.height, l.mid_y, l.action_top, l.action_width), (800, 480, 393, 410, 248));
    assert_eq!(rect_for(&l, StartMenuSection::Recents, 0), Some(Rect::new(12, 44, 776, 95)));
    assert_eq!(rect_for(&l, StartMenuSection::Recents, 2), Some(Rect::new(12, 242, 776, 95)));
    assert_eq!(rect_for(&l, StartMenuSection::Recents, 3), None);
    assert_eq!(rect_for(&l, StartMenuSection::Actions, 1), Some(Rect::new(272, 406, 256, 118)));
    assert_eq!(rect_for(&l, StartMenuSection::Actions, 3), None);
    let mut tall = DisplayBuffers::new();
    tall.set_rotation(Rotation::Rotate270);
    let lt = start_menu_layout(&tall);
    assert_eq!((lt.mid_y, lt.action_width), (656, 141));
    assert!(rect_for(&lt, StartMenuSection::Recents, 5).is_some());
}

#[test]
fn empty_start_menu_draws_note_line_and_tiles() {
    let b = DisplayBuffers::new();
    let l = start_menu_layout(&b);
    let h = HomeState::new();
    let (ops, count) = h.start_menu_ops(&l, true, Some(57), 32);
    assert_eq!(count, 0);
    assert_eq!(ops.len(), 13);
    assert!(matches!(&ops[0], MenuDraw::Text { x: 16, y: 24, text, on: false } if text == "Recents"));
    assert!(matches!(&ops[1], MenuDraw::Text { x: 16, y: 72, text, .. } if text == "No recent items."));
    assert!(matches!(ops[2], MenuDraw::FillRect { rect: Rect { x: 16, y: 393, w: 768, h: 1 }, on: false }));
    assert!(matches!(ops[3], MenuDraw::StrokeRect { rect: Rect { x: 16, y: 410, w: 248, h: 110 }, on: false }));
    assert!(matches!(ops[4], MenuDraw::Icon { action: StartMenuAction::FileBrowser, x: 124, y: 415, size: 32 }));
    assert!(matches!(&ops[5], MenuDraw::Text { x: 115, y: 508, text, .. } if text == "Files"));
    assert!(matches!(&ops[12], MenuDraw::Text { x: 645, y: 508, text, .. } if text == "57%"));
}

#[test]
fn start_menu_highlights_the_selected_recent() {
    let b = DisplayBuffers::new();
    let l = start_menu_layout(&b);
    let mut h = HomeState::new();
    h.start_menu_cache = vec![
        RecentPreview { path: "a.tri".to_string(), title: "A".to_string(), image: None },
        RecentPreview {
            path: "b.tri".to_string(),
            title: "B".to_string(),
            image: Some(ImageData::Mono1 { width: 1, height: 1, bits: vec![0] }),
        },
    ];
    let (ops, count) = h.start_menu_ops(&l, false, None, 32);
    assert_eq!(count, 2);
    assert!(matches!(ops[1], MenuDraw::FillRect { rect: Rect { x: 12, y: 44, w: 776, h: 95 }, on: false }));
    assert!(matches!(ops[2], MenuDraw::StrokeRect { rect: Rect { x: 16, y: 58, w: 74, h: 74 }, on: true }));
    assert!(matches!(&ops[3], MenuDraw::Text { x: 102, y: 74, text, on: true } if text == "A"));
    assert!(matches!(ops[5], MenuDraw::Thumbnail { index: 1, x: 18, y: 159, size: 70 }));
    assert!(matches!(&ops[ops.len() - 1], MenuDraw::Text { text, .. } if text == "--%"));
}

#[test]
fn start_menu_refresh_choices() {
    let b = DisplayBuffers::new();
    let l = start_menu_layout(&b);
    let mut h = HomeState::new();
    assert!(matches!(h.start_menu_base_flush(&l, true, false), ScreenFlush::Grayscale));
    assert!(!h.start_menu_need_base_refresh);
    match h.start_menu_flush(&l, false, true) {
        ScreenFlush::Queue { rects, fallback } => {
            assert_eq!(rects, vec![(Rect::new(0, 0, 800, 480), RefreshMode::Full)]);
            assert_eq!(fallback, RefreshMode::Full);
        },
        _ => panic!("expected a queue"),
    }
    h.start_menu_nav_pending = true;
    h.start_menu_prev_section = StartMenuSection::Recents;
    h.start_menu_prev_index = 0;
    h.start_menu_section = StartMenuSection::Actions;
    h.start_menu_index = 0;
    match h.start_menu_flush(&l, true, false) {
        ScreenFlush::Queue { rects, fallback } => {
            assert_eq!(
                rects,
                vec![
                    (Rect::new(12, 44, 776, 95), RefreshMode::Fast),
                    (Rect::new(12, 406, 256, 118), RefreshMode::Fast),
                ]
            );
            assert_eq!(fallback, RefreshMode::Fast);
        },
        _ => panic!("expected a queue"),
    }
    assert!(!h.start_menu_nav_pending);
}

#[test]
fn file_browser_labels_mark_folders() {
    let mut h = HomeState::new();
    h.entries = vec![
        ImageEntry { name: "books".to_string(), kind: EntryKind::Dir },
        ImageEntry { name: "a.tri".to_string(), kind: EntryKind::File },
    ];
    assert_eq!(h.menu_labels(), vec!["books/".to_string(), "a.tri".to_string()]);
}

#[test]
fn icons_draw_black_white_and_marks() {
    let mut b = DisplayBuffers::new();
    b.clear_screen(0x00);
    let mut planes = GrayPlanes::new();
    // 2x2 icon: dark at (0,0), light at (1,0), nothing below.
    draw_icon_gray2(&mut b, &mut planes, 5, 7, 2, 2, &[0x80], &[0x40]);
    assert!(!b.read_pixel(5, 7));
    assert!(b.read_pixel(6, 7));
    assert!(!b.read_pixel(5, 8));
    assert!(planes.used);
    let dark_idx = 7 * 800 + 5;
    let light_idx = 7 * 800 + 6;
    assert_ne!(planes.msb[dark_idx / 8] & (0x80 >> (dark_idx % 8)), 0);
    assert_eq!(planes.lsb[dark_idx / 8] & (0x80 >> (dark_idx % 8)), 0);
    assert_ne!(planes.lsb[light_idx / 8] & (0x80 >> (light_idx % 8)), 0);
    let mut untouched = GrayPlanes::new();
    draw_icon_gray2(&mut b, &mut untouched, 0, 0, 2, 2, &[0x80, 0], &[0x40]);
    assert!(!untouched.used);
}

#[test]
fn thumbnail_contrast_stretch() {
    assert_eq!(adjust_thumbnail_luma(0), 0);
    assert_eq!(adjust_thumbnail_luma(255), 255);
    assert_eq!(adjust_thumbnail_luma(128), 128);
    assert_eq!(adjust_thumbnail_luma(138), 141);
    assert_eq!(adjust_thumbnail_luma(100), 92);
}

#[test]
fn streamed_thumbnail_averages_planes() {
    let mut file = b"TRIM".to_vec();
    file.extend([2, 2, 2, 0, 2, 0, 0, 0, 0, 0, 0, 0]);
    // Base plane: top row white, bottom row black; no grayscale marks.
    file.extend([0xC0, 0x00, 0x00]);
    match stream_thumbnail_from_bytes(&file, 2, 2, 1, 2) {
        Some(ImageData::Mono1 { width: 1, height: 2, bits }) => assert_eq!(bits, vec![0xBF]),
        _ => panic!("expected a thumbnail"),
    }
    assert!(stream_thumbnail_from_bytes(&file, 2, 3, 1, 1).is_none());
    assert!(stream_thumbnail_from_bytes(&file[..18], 2, 2, 1, 1).is_none());
    assert!(stream_thumbnail_from_bytes(&file, 0, 2, 1, 1).is_none());
}

#[test]
fn merge_bw_into_gray2_keeps_bytes_past_the_frame() {
    let mut buffers = DisplayBuffers::new();
    buffers.get_active_buffer_mut()[0] = 0x0F;
    let mut lsb = vec![0u8; BUFFER_SIZE + 2];
    let mut msb = vec![0x01u8; BUFFER_SIZE + 2];
    lsb[BUFFER_SIZE] = 0x55;
    msb[BUFFER_SIZE + 1] = 0x66;
    ternreader::app::home::merge_bw_into_gray2(&buffers, &mut lsb, &mut msb);
    assert_eq!(lsb[0], 0xF0);
    assert_eq!(msb[0], 0xF1);
    assert_eq!(lsb[BUFFER_SIZE], 0x55);
    assert_eq!(msb[BUFFER_SIZE + 1], 0x66);
}
