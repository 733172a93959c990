use ternreader::input::{ButtonState, Buttons};
use ternreader::application::{Application, DrawAssets, PanelStep};
use ternreader::app::book_reader::BookReaderState;
use ternreader::app::book_view::{toc_entry_label, BookFlush};
use ternreader::app::home::HomeState;
use ternreader::app::image_viewer::ImageViewerState;
use ternreader::app::positions::BookPositions;
use ternreader::app::sleep::{check_wallpaper, SleepWallpaperIcons};
use ternreader::app::start_menu::MenuDraw;
use ternreader::app::system::SystemState;
use ternreader::display::RefreshMode;
use ternreader::framebuffer::DisplayBuffers;
use ternreader::image_viewer::{
    BookSource, EntryKind, Gray2StreamSource, ImageData, ImageEntry, ImageError, ImageSource,
    PersistenceSource, PowerSource,
};
use ternreader::render::GrayPlanes;
use ternreader::storage_cleanup::{cleanup_deleted_path, dir_children, normalize_deleted_path, path_matches};
use ternreader::trbk::{TrbkBookInfo, TrbkImageInfo, TrbkMetadata, TrbkOp, TrbkPage, TrbkTocEntry};
use ternreader::ui::Rect;

struct MockSource {
    book_pages: usize,
    cover: Option<ImageData>,
    opened: Vec<(Vec<String>, String)>,
    loaded: Vec<(Vec<String>, String)>,
    pages_asked: Vec<usize>,
    closed: usize,
    slept: usize,
}

impl MockSource {
    fn new(book_pages: usize, cover: Option<ImageData>) -> Self {
        MockSource {
            book_pages,
            cover,
            opened: Vec::new(),
            loaded: Vec::new(),
            pages_asked: Vec::new(),
            closed: 0,
            slept: 0,
        }
    }
}

fn metadata(title: &str) -> TrbkMetadata {
    TrbkMetadata {
        title: title.to_string(),
        author: "A".to_string(),
        language: "en".to_string(),
        identifier: "id".to_string(),
        font_name: String::new(),
        char_width: 10,
        line_height: 24,
        ascent: 16,
        margin_left: 16,
        margin_right: 16,
        margin_top: 16,
        margin_bottom: 16,
    }
}

fn book_info(pages: usize, images: usize, toc: Vec<TrbkTocEntry>) -> TrbkBookInfo {
    TrbkBookInfo {
        screen_width: 480,
        screen_height: 800,
        page_count: pages,
        metadata: metadata("Novel"),
        glyphs: Vec::new(),
        toc,
        images: (0..images)
            .map(|_| TrbkImageInfo { data_offset: 0, data_len: 0, width: 8, height: 8 })
            .collect(),
    }
}

fn page_text(index: usize) -> String {
    format!("page {}", index)
}

impl ImageSource for MockSource {
    fn refresh(&mut self, _path: &[String]) -> Result<Vec<ImageEntry>, ImageError> {
        Ok(Vec::new())
    }

    fn load(&mut self, path: &[String], entry: &ImageEntry) -> Result<ImageData, ImageError> {
        self.loaded.push((path.to_vec(), entry.name.clone()));
        Ok(ImageData::Mono1 { width: 8, height: 1, bits: vec![0x0F] })
    }
}

impl BookSource for MockSource {
    fn open_trbk(&mut self, path: &[String], entry: &ImageEntry) -> Result<TrbkBookInfo, ImageError> {
        self.opened.push((path.to_vec(), entry.name.clone()));
        Ok(book_info(self.book_pages, 1, Vec::new()))
    }

    fn trbk_page(&mut self, page_index: usize) -> Result<TrbkPage, ImageError> {
        self.pages_asked.push(page_index);
        if page_index < self.book_pages {
            Ok(TrbkPage {
                ops: vec![TrbkOp::TextRun { x: 16, y: 40, style: 0, text: page_text(page_index) }],
            })
        } else {
            Err(ImageError::Decode)
        }
    }

    fn trbk_image(&mut self, _image_index: usize) -> Result<ImageData, ImageError> {
        match &self.cover {
            Some(image) => Ok(image.clone()),
            None => Err(ImageError::Decode),
        }
    }

    fn close_trbk(&mut self) {
        self.closed += 1;
    }
}

impl Gray2StreamSource for MockSource {}

impl PersistenceSource for MockSource {}

impl PowerSource for MockSource {
    fn sleep(&mut self) {
        self.slept += 1;
    }
}

fn logo() -> (Vec<u8>, Vec<u8>) {
    // An 8x8 logo: the top row dark, the bottom row light.
    let mut dark = vec![0u8; 8];
    let mut light = vec![0u8; 8];
    dark[0] = 0xFF;
    light[7] = 0xFF;
    (dark, light)
}

fn new_system() -> SystemState {
    SystemState::new(None, BookPositions::new(), Vec::new())
}

#[test]
fn book_wallpaper_is_its_first_image_and_the_book_is_closed() {
    let mut system = new_system();
    let cover = ImageData::Mono1 { width: 8, height: 1, bits: vec![0xF0] };
    let mut source = MockSource::new(3, Some(cover));
    let image = system.load_sleep_wallpaper_from_path(&mut source, "/books/sub/Novel.TRBK");
    assert!(matches!(image, Some(ImageData::Mono1 { .. })));
    assert_eq!(source.opened, vec![(vec!["books".to_string(), "sub".to_string()], "Novel.TRBK".to_string())]);
    assert_eq!(source.closed, 1);
    assert!(!system.sleep_wallpaper_trbk_open);
}

#[test]
fn streamed_book_wallpaper_keeps_the_book_open() {
    let mut system = new_system();
    let cover = ImageData::Gray2Stream { width: 800, height: 480, key: "k".to_string() };
    let mut source = MockSource::new(3, Some(cover));
    let image = system.load_sleep_wallpaper_from_path(&mut source, "Novel.trbk");
    assert!(matches!(image, Some(ImageData::Gray2Stream { .. })));
    assert_eq!(source.closed, 0);
    assert!(system.sleep_wallpaper_trbk_open);
}

#[test]
fn image_wallpaper_is_loaded_and_other_paths_give_nothing() {
    let mut system = new_system();
    let mut source = MockSource::new(0, None);
    let image = system.load_sleep_wallpaper_from_path(&mut source, "/images//pic.TRIMG");
    assert!(image.is_some());
    assert_eq!(source.loaded, vec![(vec!["images".to_string()], "pic.TRIMG".to_string())]);
    assert!(system.load_sleep_wallpaper_from_path(&mut source, "/notes/readme.txt").is_none());
    assert!(system.load_sleep_wallpaper_from_path(&mut source, "///").is_none());
    assert_eq!(source.loaded.len(), 1);
    assert!(source.opened.is_empty());
}

#[test]
fn oversized_wallpapers_are_refused() {
    let buffers = DisplayBuffers::new();
    let small = ImageData::Gray2 { width: 10, height: 10, data: vec![0; 39] };
    assert!(check_wallpaper(&small, &buffers));
    let huge = ImageData::Gray2 { width: u32::MAX, height: 1, data: Vec::new() };
    assert!(!check_wallpaper(&huge, &buffers));
    let wide = ImageData::Mono1 { width: 1 << 31, height: 1, bits: Vec::new() };
    assert!(!check_wallpaper(&wide, &buffers));
}

#[test]
fn sleep_screen_draws_the_logo_and_saves_the_bar() {
    let mut system = new_system();
    system.sleep_from_home = true;
    let mut source = MockSource::new(0, None);
    let mut buffers = DisplayBuffers::new();
    buffers.clear_screen(0x00);
    let mut planes = GrayPlanes::new();
    let mut viewer = ImageViewerState::new();
    let reader = BookReaderState::new();
    let (dark, light) = logo();
    let icons = SleepWallpaperIcons { logo_w: 8, logo_h: 8, logo_dark: &dark, logo_light: &light };
    let frame = system.draw_sleep_overlay(
        &mut source,
        &mut buffers,
        &mut planes,
        &mut viewer,
        &reader,
        None,
        false,
        &icons,
    );
    // No recents: the logo, centred; its dark row is black, the rest white.
    assert!(!system.sleep_from_home);
    assert!(!buffers.read_pixel(396, 236));
    assert!(buffers.read_pixel(396, 243));
    assert!(buffers.read_pixel(0, 0));
    assert!(frame.gray2);
    assert!(system.sleep_wallpaper_gray2);
    let bar = Rect { x: 337, y: 452, w: 126, h: 28 };
    let overlay = system.sleep_overlay.as_ref().unwrap();
    assert_eq!(overlay.rect, bar);
    assert_eq!(overlay.pixels.len(), 126 * 28);
    assert!(overlay.pixels.iter().all(|&p| p == 1));
    assert_eq!(frame.rect, Rect { x: 0, y: 0, w: 800, h: 480 });
    assert_eq!(frame.ops.len(), 2);
    assert!(matches!(frame.ops[0], MenuDraw::FillRect { rect, on: false } if rect == bar));
    match &frame.ops[1] {
        MenuDraw::Text { x, y, text, on } => {
            assert_eq!((*x, *y, text.as_str(), *on), (345, 466, "Sleeping...", true));
        },
        _ => panic!("expected the sleep text"),
    }
}

#[test]
fn sleep_screen_shows_the_viewed_image() {
    let mut system = new_system();
    let mut source = MockSource::new(0, None);
    let mut buffers = DisplayBuffers::new();
    let mut planes = GrayPlanes::new();
    let mut viewer = ImageViewerState::new();
    viewer.set_image(ImageData::Mono1 { width: 1, height: 1, bits: vec![0x00] });
    let reader = BookReaderState::new();
    let (dark, light) = logo();
    let icons = SleepWallpaperIcons { logo_w: 8, logo_h: 8, logo_dark: &dark, logo_light: &light };
    let frame = system.draw_sleep_overlay(
        &mut source,
        &mut buffers,
        &mut planes,
        &mut viewer,
        &reader,
        None,
        true,
        &icons,
    );
    // A single black pixel stretched over the screen.
    assert!(!buffers.read_pixel(0, 0));
    assert!(!buffers.read_pixel(799, 479));
    assert!(!frame.gray2);
    assert!(viewer.has_image());
    assert!(system.sleep_overlay.as_ref().unwrap().pixels.iter().all(|&p| p == 0));
}

#[test]
fn sleep_overlay_waits_for_a_request() {
    let mut system = new_system();
    system.sleep_overlay_pending = false;
    let mut source = MockSource::new(0, None);
    let mut buffers = DisplayBuffers::new();
    let mut planes = GrayPlanes::new();
    let mut viewer = ImageViewerState::new();
    let reader = BookReaderState::new();
    let (dark, light) = logo();
    let icons = SleepWallpaperIcons { logo_w: 8, logo_h: 8, logo_dark: &dark, logo_light: &light };
    let none = system.process_sleep_overlay(
        &mut source, &mut buffers, &mut planes, &mut viewer, &reader, None, false, &icons,
    );
    assert!(none.is_none());
    assert!(system.sleep_overlay.is_none());
    system.start_sleep_overlay();
    let frame = system.process_sleep_overlay(
        &mut source, &mut buffers, &mut planes, &mut viewer, &reader, None, false, &icons,
    );
    assert!(frame.is_some());
    assert!(system.sleep_overlay.is_some());
    assert_eq!(source.slept, 1);
    assert!(!system.sleep_overlay_pending());
}

fn open_reader(pages: usize, toc: Vec<TrbkTocEntry>) -> BookReaderState {
    let mut reader = BookReaderState::new();
    reader.start_book(book_info(pages, 0, toc), None);
    reader
}

fn fallback_texts(frame_fallback: &[ternreader::render::FallbackText]) -> Vec<(i32, i32, String)> {
    frame_fallback.iter().map(|f| (f.x, f.y, f.text.clone())).collect()
}

#[test]
fn book_page_is_drawn_with_its_counter() {
    let mut reader = open_reader(3, Vec::new());
    let mut source = MockSource::new(3, None);
    let mut buffers = DisplayBuffers::new();
    let mut planes = GrayPlanes::new();
    let mut full = false;
    let frame = reader.draw_book(&mut source, &mut buffers, &mut planes, &mut full).ok().unwrap();
    assert_eq!(fallback_texts(&frame.fallback), vec![(16, 40, "page 0".to_string())]);
    match &frame.indicator {
        Some(MenuDraw::Text { x, y, text, on }) => {
            assert_eq!((*x, *y, text.as_str(), *on), (762, 472, "1/3", false));
        },
        _ => panic!("expected the page counter"),
    }
    assert_eq!(frame.flush, BookFlush::Queue { rect: Rect { x: 0, y: 0, w: 800, h: 480 }, mode: RefreshMode::Fast });
    assert_eq!(reader.last_rendered_page, Some(0));
    assert_eq!(source.pages_asked, vec![0, 1]);
    assert!(reader.next_page_ops.is_some());
    assert!(!full);
}

#[test]
fn every_tenth_turn_refreshes_in_full() {
    let mut reader = open_reader(3, Vec::new());
    reader.book_turns_since_full = 10;
    let mut source = MockSource::new(3, None);
    let mut buffers = DisplayBuffers::new();
    let mut planes = GrayPlanes::new();
    let mut full = false;
    let frame = reader.draw_book(&mut source, &mut buffers, &mut planes, &mut full).ok().unwrap();
    assert!(full);
    assert_eq!(reader.book_turns_since_full, 0);
    assert!(matches!(frame.flush, BookFlush::Queue { mode: RefreshMode::Full, .. }));
}

#[test]
fn no_book_is_a_decoding_error() {
    let mut reader = BookReaderState::new();
    let mut source = MockSource::new(0, None);
    let mut buffers = DisplayBuffers::new();
    let mut planes = GrayPlanes::new();
    let mut full = false;
    let r = reader.draw_book(&mut source, &mut buffers, &mut planes, &mut full);
    assert!(matches!(r, Err(ImageError::Decode)));
    assert!(source.pages_asked.is_empty());
}

#[test]
fn next_page_is_prefetched_and_then_used() {
    let mut reader = open_reader(3, Vec::new());
    let mut source = MockSource::new(3, None);
    let mut buffers = DisplayBuffers::new();
    let mut planes = GrayPlanes::new();
    let mut full = false;
    reader.draw_book(&mut source, &mut buffers, &mut planes, &mut full).ok().unwrap();
    let texts = reader.prefetch_next_page(&mut source, &mut buffers, &mut planes).unwrap();
    assert_eq!(fallback_texts(&texts.fallback), vec![(16, 40, "page 1".to_string())]);
    assert!(matches!(&texts.indicator, Some(MenuDraw::Text { text, .. }) if text == "2/3"));
    assert_eq!(reader.prefetched_page, Some(1));
    // A second prefetch does nothing.
    assert!(reader.prefetch_next_page(&mut source, &mut buffers, &mut planes).is_none());
    // Turn the page: the prefetched drawing is shown as it is.
    reader.current_page = 1;
    let frame = reader.draw_book(&mut source, &mut buffers, &mut planes, &mut full).ok().unwrap();
    assert!(frame.fallback.is_empty());
    assert!(matches!(&frame.indicator, Some(MenuDraw::Text { text, .. }) if text == "2/3"));
    assert_eq!(reader.prefetched_page, None);
    // The last page has nothing after it.
    reader.current_page = 2;
    assert!(reader.prefetch_next_page(&mut source, &mut buffers, &mut planes).is_none());
}

#[test]
fn toc_labels_are_indented_by_level() {
    let entry = |title: &str, level: u8| TrbkTocEntry { title: title.to_string(), page_index: 0, level };
    assert_eq!(toc_entry_label(&entry("Intro", 0)), "Intro");
    assert_eq!(toc_entry_label(&entry("Part", 1)), "  Part");
    assert_eq!(toc_entry_label(&entry("Deep", 9)), format!("{}Deep", " ".repeat(12)));
    let mut reader = open_reader(3, vec![entry("A", 0), entry("B", 1), entry("C", 2)]);
    reader.toc_selected = 5;
    let mut buffers = DisplayBuffers::new();
    buffers.clear_screen(0);
    let list = reader.draw_toc(&mut buffers, true).ok().unwrap();
    assert_eq!(list.items, vec!["A".to_string(), "  B".to_string(), "    C".to_string()]);
    assert_eq!(list.selected, 2);
    assert_eq!(list.title, "Novel");
    assert_eq!(list.refresh, RefreshMode::Full);
    assert!(buffers.get_active_buffer().iter().all(|&b| b == 0xFF));
    assert!(reader.toc_labels.is_some());
    let mut empty = open_reader(3, Vec::new());
    empty.toc_selected = 3;
    let list = empty.draw_toc(&mut buffers, false).ok().unwrap();
    assert_eq!(list.selected, 0);
    assert_eq!(list.empty_label, "No table of contents.");
    let mut closed = BookReaderState::new();
    assert!(matches!(closed.draw_toc(&mut buffers, false), Err(ImageError::Decode)));
}

#[test]
fn file_list_marks_folders() {
    let mut home = HomeState::new();
    home.set_entries(vec![
        ImageEntry { name: "pics".to_string(), kind: EntryKind::Dir },
        ImageEntry { name: "a.tri".to_string(), kind: EntryKind::File },
    ]);
    home.selected = 1;
    let list = home.draw_menu(false);
    assert_eq!(list.items, vec!["pics/".to_string(), "a.tri".to_string()]);
    assert_eq!(list.title, "Images");
    assert_eq!(list.selected, 1);
    assert_eq!(list.footer, "Up/Down: select  Confirm: open  Back: up");
    assert_eq!(list.refresh, RefreshMode::Fast);
}

#[test]
fn deleted_paths_are_forgotten() {
    assert_eq!(normalize_deleted_path("//books/a.trbk"), "books/a.trbk");
    assert!(path_matches("/Books/A.trbk", "books/a.TRBK"));
    assert!(!path_matches("books/b.trbk", "books/a.trbk"));
    let resume = "BOOKS/a.trbk".to_string();
    let recents = vec!["/books/a.trbk".to_string(), "x.tri".to_string()];
    let positions = vec![("books/A.trbk".to_string(), 3usize), ("y.trbk".to_string(), 1usize)];
    let c = cleanup_deleted_path("/books/a.trbk", Some(&resume), &recents, &positions).unwrap();
    assert!(c.clear_resume);
    assert_eq!(c.recents, Some(vec!["x.tri".to_string()]));
    assert_eq!(c.positions, Some(vec![("y.trbk".to_string(), 1usize)]));
    assert_eq!(c.cache_files.len(), 4);
    assert!(c.cache_files[0].starts_with("TRCACHE/TH") && c.cache_files[0].ends_with(".TRI"));
    assert!(c.cache_files[1].starts_with("TRCACHE/TT") && c.cache_files[1].ends_with(".TXT"));
    assert!(c.cache_files[2].starts_with(".trusty_cache/TH"));
    assert!(c.cache_files[3].starts_with(".trusty_cache/TT"));
    let other = cleanup_deleted_path("other.tri", None, &recents, &positions).unwrap();
    assert!(!other.clear_resume);
    assert!(other.recents.is_none());
    assert!(other.positions.is_none());
    assert!(cleanup_deleted_path("///", Some(&resume), &recents, &positions).is_none());
}

#[test]
fn recursive_delete_visits_children_by_full_path() {
    let listed = vec![
        (".".to_string(), true),
        ("..".to_string(), true),
        ("a.trbk".to_string(), false),
        ("sub".to_string(), true),
    ];
    assert_eq!(
        dir_children("/books/", &listed),
        vec![("/books/a.trbk".to_string(), false), ("/books/sub".to_string(), true)]
    );
}

#[test]
fn start_menu_redraw_runs_in_stages() {
    let mut buffers = DisplayBuffers::new();
    let mut source = MockSource::new(0, None);
    let (dark, light) = logo();
    let assets = DrawAssets {
        logo: SleepWallpaperIcons { logo_w: 8, logo_h: 8, logo_dark: &dark, logo_light: &light },
        icon_size: 8,
        version: "1",
        build_time: "now",
    };
    let mut app = Application::new(&mut buffers, &mut source);
    assert!(app.check_wf());
    let mut batches: Vec<Vec<PanelStep>> = Vec::new();
    while let Some(steps) = app.draw(&assets) {
        batches.push(steps);
        assert!(batches.len() < 10);
    }
    // Base drawing, its refresh, the drawing with the selection, its refresh.
    assert_eq!(batches.len(), 4);
    assert!(matches!(batches[0].first(), Some(PanelStep::Draw(_))));
    assert!(matches!(batches[1].first(), Some(PanelStep::Queue { .. })));
    assert!(matches!(batches[2].first(), Some(PanelStep::Draw(_))));
    // Nothing more until something changes.
    assert!(app.draw(&assets).is_none());
    let steps = app.draw_usb_modal("USB", "Connected", "Back: leave");
    assert_eq!(steps.len(), 2);
    assert!(matches!(steps[1], PanelStep::Show(RefreshMode::Full)));
}

struct FolderSource {
    names: Vec<&'static str>,
    loaded: Vec<String>,
}

impl ImageSource for FolderSource {
    fn refresh(&mut self, _path: &[String]) -> Result<Vec<ImageEntry>, ImageError> {
        Ok(self
            .names
            .iter()
            .map(|n| ImageEntry { name: n.to_string(), kind: EntryKind::File })
            .collect())
    }

    fn load(&mut self, _path: &[String], entry: &ImageEntry) -> Result<ImageData, ImageError> {
        self.loaded.push(entry.name.clone());
        Ok(ImageData::Mono1 { width: 8, height: 1, bits: vec![0x0F] })
    }
}

impl BookSource for FolderSource {}
impl Gray2StreamSource for FolderSource {}
impl PersistenceSource for FolderSource {}
impl PowerSource for FolderSource {}

fn press(button: Buttons) -> ButtonState {
    ButtonState::from_masks(0, 1u8 << button.bit())
}

#[test]
fn viewer_down_and_up_step_through_the_folder() {
    let mut buffers = DisplayBuffers::new();
    let mut source = FolderSource { names: vec!["a.tri", "b.tri", "c.tri"], loaded: Vec::new() };
    {
        let mut app = Application::new(&mut buffers, &mut source);
        // Recents are empty: Right goes to the action tiles, Confirm opens the
        // file browser, Confirm there opens the first image.
        app.update(&press(Buttons::Right), 0);
        app.update(&press(Buttons::Confirm), 0);
        app.update(&press(Buttons::Confirm), 0);
        app.update(&press(Buttons::Down), 0);
        app.update(&press(Buttons::Down), 0);
        app.update(&press(Buttons::Down), 0);
        app.update(&press(Buttons::Up), 0);
        app.update(&press(Buttons::Left), 0);
    }
    assert_eq!(source.loaded, vec!["a.tri", "b.tri", "c.tri", "c.tri", "b.tri", "a.tri"]);
}

#[test]
fn new_application_starts_portrait_on_the_start_menu() {
    let mut buffers = DisplayBuffers::new();
    let mut source = FolderSource { names: vec![], loaded: Vec::new() };
    let (dark, light) = logo();
    let assets = DrawAssets {
        logo: SleepWallpaperIcons { logo_w: 8, logo_h: 8, logo_dark: &dark, logo_light: &light },
        icon_size: 8,
        version: "1",
        build_time: "now",
    };
    {
        let mut app = Application::new(&mut buffers, &mut source);
        assert!(app.draw(&assets).is_some());
    }
    assert_eq!(buffers.size(), (480, 800));
}

#[test]
fn open_recent_path_selects_the_first_match() {
    let mut source = FolderSource { names: vec!["a.tri", "b.tri", "b.tri"], loaded: Vec::new() };
    let mut home = HomeState::new();
    assert!(home.open_recent_path(&mut source, "x/b.tri").is_ok());
    assert_eq!(home.path, vec!["x".to_string()]);
    assert_eq!(home.selected, 1);
    match home.open_recent_path(&mut source, "x/zz.tri") {
        Err(ImageError::Message(m)) => assert_eq!(m, "Recent entry not found."),
        _ => panic!("a missing entry must be reported"),
    }
}

#[test]
fn page_turn_indicator_is_taken_once() {
    let mut reader = BookReaderState::new();
    reader.page_turn_indicator = Some(ternreader::app::book_reader::PageTurnIndicator::Forward);
    reader.current_page = 3;
    let first = reader.take_page_turn_indicator();
    assert!(matches!(first, Some(ternreader::app::book_reader::PageTurnIndicator::Forward)));
    assert!(reader.take_page_turn_indicator().is_none());
    assert_eq!(reader.current_page, 3);
}

#[test]
fn from_saved_reopens_the_resume_entry() {
    let mut buffers = DisplayBuffers::new();
    let mut source = FolderSource { names: vec!["a.tri", "b.tri"], loaded: Vec::new() };
    {
        let _app = Application::from_saved(
            &mut buffers,
            &mut source,
            Some("x/b.tri".to_string()),
            &vec![("x/b.tri".to_string(), 0)],
            vec!["x/b.tri".to_string()],
        );
    }
    assert_eq!(source.loaded, vec!["b.tri"]);
    assert_eq!(buffers.size(), (480, 800));
    let mut source = FolderSource { names: vec!["a.tri"], loaded: Vec::new() };
    {
        let _app = Application::from_saved(&mut buffers, &mut source, None, &Vec::new(), Vec::new());
    }
    assert!(source.loaded.is_empty());
}

#[test]
fn select_recent_picks_the_first_match_or_reports_it_missing() {
    let entry = |n: &str| ImageEntry { name: n.to_string(), kind: EntryKind::File };
    let mut home = HomeState::new();
    home.selected = 5;
    assert!(home.select_recent(vec![entry("a"), entry("b"), entry("b")], "b").is_ok());
    assert_eq!(home.selected, 1);
    assert_eq!(home.entries.len(), 3);
    home.selected = 2;
    match home.select_recent(vec![entry("a"), entry("c")], "b") {
        Err(ImageError::Message(m)) => assert_eq!(m, "Recent entry not found."),
        _ => panic!("a missing entry must be reported"),
    }
    assert_eq!(home.selected, 0);
    assert_eq!(home.entries.len(), 2);
}
