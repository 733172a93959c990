//! The application: which screen is shown, how key presses move between
//! screens, and what is opened, saved and restored along the way.

use vstd::prelude::*;
use crate::app::book_reader::{spec_toc_selection, BookReaderState, BookViewResult, PageTurnIndicator, TocResult};
use crate::app::home::{HomeAction, HomeOpen, HomeOpenError, HomeState, MenuAction, StartMenuSection};
use crate::app::image_viewer::{gray2_fits, ImageViewerState};
use crate::app::positions::{insert_all, pair_views, BookPositions};
use crate::app::system::{ResumeContext, SaveResumeOutcome, SleepOverlay, SystemState, TryResumeOutcome};
use crate::framebuffer::{logical_height, logical_width, DisplayBuffers, Rotation, BUFFER_SIZE};
use crate::render::{
    contain_drawn, draw_icon_gray2, draw_trbk_image, icon_drawn, icon_fits, image_plane_len, image_view_drawn,
    trbk_image_drawn, FallbackText, GrayPlanes,
};
use crate::app::book_view::fallback_views;
use crate::app::home::{menu_list, merge_bw_into_gray2, merged_plane};
use crate::app::screens::{
    corner_mark_ops, error_ops, error_screen_ops, exiting_overlay_ops, full_rect, settings_flush, settings_ops,
    usb_modal_ops, whole_screen, mark_text, mark_x, screen_size, CornerMark, PAGE_INDICATOR_Y,
};
use crate::app::book_view::{book_drawn, BookFlush, BookFrame};
use crate::app::image_viewer::ViewerFrame;
use crate::app::sleep::{check_wallpaper, wallpaper_ok};
use crate::app::start_menu::{
    preview_views, selected_in, spec_start_menu_layout, spec_start_menu_ops, start_menu_layout,
};
use crate::reader_view::ReaderView;
use crate::app::sleep::{logo_ok, SleepWallpaperIcons};
use crate::app::start_menu::{draw_views, MenuDraw, MenuDrawView, ScreenFlush};
use crate::app::thumbnail::{mono_of, pixel_count, spec_to_mono_some, thumbnail_to_mono};
use crate::display::RefreshMode;
use crate::image_viewer::ImageData;
use crate::ui::{ListScreen, ListScreenView, Rect};
use crate::image_viewer::{AppSource, EntryKind, ImageEntry, ImageError};
use crate::input::{ButtonState, Buttons};
use crate::text::{ends_with_ci, ends_with_ignore_case, path_segments, str_eq, string_views};

verus! {

/// Whether a file name is a book (`.trbk`, any case).
pub open spec fn spec_is_trbk(name: Seq<char>) -> bool {
    ends_with_ci(name, ".trbk"@)
}

/// Whether a file name is an EPUB (`.epub` or `.epb`, any case).
pub open spec fn spec_is_epub(name: Seq<char>) -> bool {
    ends_with_ci(name, ".epub"@) || ends_with_ci(name, ".epb"@)
}

pub fn is_trbk(name: &str) -> (r: bool)
    ensures
        r == spec_is_trbk(name@),
{
    ends_with_ignore_case(name, ".trbk")
}

pub fn is_epub(name: &str) -> (r: bool)
    ensures
        r == spec_is_epub(name@),
{
    ends_with_ignore_case(name, ".epub") || ends_with_ignore_case(name, ".epb")
}

/// The screens of the application.
#[derive(Clone, Copy, Debug, PartialEq, Eq, Structural)]
pub enum AppState {
    StartMenu,
    Settings,
    Menu,
    Viewing,
    BookViewing,
    ExitingPending,
    Toc,
    SleepingPending,
    Sleeping,
    Error,
}

/// Where a multi-step redraw of the screen stands: what is to be done on
/// the next call of `draw`, the panel having carried out the steps
/// handed out before.
#[derive(Clone, Copy, Debug, PartialEq, Eq, Structural)]
pub enum DrawPhase {
    /// Nothing under way.
    Idle,
    /// The start menu was drawn without its selection: refresh it.
    StartMenuBase,
    /// The start menu's base was refreshed: draw it with its selection.
    StartMenuRedraw,
    /// The selection was drawn: refresh it.
    StartMenuSelection,
    /// The start menu was drawn: refresh it.
    StartMenuFlush,
    /// The settings screen was drawn: refresh it.
    SettingsFlush,
    /// The page-turn mark was refreshed: draw the page.
    BookPage,
    /// The page was refreshed: draw the next one ahead.
    BookPrefetch,
    /// The viewer was refreshed before leaving it: draw the exit notice.
    ExitOverlay,
    /// The sleep mark was refreshed: save the state and draw the sleep
    /// screen.
    SleepSave,
    /// All drawn: finish the redraw.
    Finish,
}

/// Which viewer an exit leaves.
#[derive(Clone, Copy, Debug, PartialEq, Eq, Structural)]
pub enum ExitFrom {
    Image,
    Book,
}

/// Whether any button is pressed or held.
pub open spec fn spec_has_input(b: ButtonState) -> bool {
    b.spec_is_pressed(Buttons::Back) || b.spec_is_held(Buttons::Back) || b.spec_is_pressed(
        Buttons::Confirm,
    ) || b.spec_is_held(Buttons::Confirm) || b.spec_is_pressed(Buttons::Left) || b.spec_is_held(
        Buttons::Left,
    ) || b.spec_is_pressed(Buttons::Right) || b.spec_is_held(Buttons::Right) || b.spec_is_pressed(
        Buttons::Up,
    ) || b.spec_is_held(Buttons::Up) || b.spec_is_pressed(Buttons::Down) || b.spec_is_held(
        Buttons::Down,
    ) || b.spec_is_pressed(Buttons::Power) || b.spec_is_held(Buttons::Power)
}

/// The message shown for an error.
pub open spec fn spec_error_message(err: ImageError) -> Seq<char> {
    match err {
        ImageError::Io => "I/O error while accessing /images."@,
        ImageError::Decode => "Failed to decode image."@,
        ImageError::Unsupported => "Unsupported image format."@,
        ImageError::Message(m) => m@,
    }
}

pub struct Application<'a, S: AppSource> {
    dirty: bool,
    display_buffers: &'a mut DisplayBuffers,
    source: &'a mut S,
    home: HomeState,
    state: AppState,
    image_viewer: ImageViewerState,
    book_reader: BookReaderState,
    system: SystemState,
    current_entry: Option<String>,
    last_viewed_entry: Option<String>,
    error_message: Option<String>,
    gray2: GrayPlanes,
    exit_from: ExitFrom,
    exit_overlay_drawn: bool,
    phase: DrawPhase,
    exit_pass: bool,
}

impl<'a, S: AppSource> Application<'a, S> {
    /// The internal invariant: a well-formed display, sorted positions and
    /// full-size grayscale planes.
    pub closed spec fn wf(&self) -> bool {
        &&& self.display_buffers.wf()
        &&& self.system.book_positions.wf()
        &&& self.gray2.wf()
    }

    pub closed spec fn spec_state(&self) -> AppState {
        self.state
    }

    pub closed spec fn spec_dirty(&self) -> bool {
        self.dirty
    }

    pub closed spec fn spec_error_message(&self) -> Option<Seq<char>> {
        match self.error_message {
            Some(m) => Some(m@),
            None => None,
        }
    }

    pub closed spec fn spec_system(&self) -> SystemState {
        self.system
    }

    pub closed spec fn spec_home(&self) -> HomeState {
        self.home
    }

    pub closed spec fn spec_book_reader(&self) -> BookReaderState {
        self.book_reader
    }

    pub closed spec fn spec_has_image(&self) -> bool {
        self.image_viewer.image() is Some
    }

    /// The image shown in the viewer.
    pub closed spec fn spec_image(&self) -> Option<ImageData> {
        self.image_viewer.image()
    }

    pub closed spec fn spec_exit_from(&self) -> ExitFrom {
        self.exit_from
    }

    pub closed spec fn spec_exit_overlay_drawn(&self) -> bool {
        self.exit_overlay_drawn
    }

    pub closed spec fn spec_current_entry(&self) -> Option<Seq<char>> {
        match self.current_entry {
            Some(m) => Some(m@),
            None => None,
        }
    }

    pub closed spec fn spec_last_viewed_entry(&self) -> Option<Seq<char>> {
        match self.last_viewed_entry {
            Some(m) => Some(m@),
            None => None,
        }
    }

    /// Sets up the application on a portrait display: loads the saved
    /// resume state, reading positions and recent entries, lists the root
    /// folder and reopens what was open before sleep.
    /// Starts the application: portrait screen, the saved resume entry,
    /// reading positions and recent list read from the source, then as
    /// `from_saved`.
    pub fn new(display_buffers: &'a mut DisplayBuffers, source: &'a mut S) -> (r: Self)
        requires
            old(display_buffers).wf(),
        ensures
            r.wf(),
            r.spec_buffers().spec_rotation() == Rotation::Rotate90,
            r.spec_dirty(),
            r.spec_state() == AppState::StartMenu || r.spec_state() == AppState::Error
                || r.spec_state() == AppState::Menu || r.spec_state() == AppState::Viewing
                || r.spec_state() == AppState::BookViewing,
    {
        let resume_name = source.load_resume();
        let pairs = source.load_book_positions();
        let recent_entries = source.load_recent_entries();
        Self::from_saved(display_buffers, source, resume_name, &pairs, recent_entries)
    }

    /// Starts the application from saved state: the screen turned to
    /// portrait, the positions and recent list kept, the folder listed, and
    /// the resume entry (when there is one) opened again. Without a resume
    /// entry it starts on the start menu, or on the error screen when the
    /// folder cannot be listed.
    pub fn from_saved(
        display_buffers: &'a mut DisplayBuffers,
        source: &'a mut S,
        resume_name: Option<String>,
        pairs: &Vec<(String, usize)>,
        recent_entries: Vec<String>,
    ) -> (r: Self)
        requires
            old(display_buffers).wf(),
        ensures
            r.wf(),
            r.spec_buffers().spec_rotation() == Rotation::Rotate90,
            r.spec_buffers().active_view() == old(display_buffers).active_view(),
            r.spec_dirty(),
            resume_name is None ==> r.spec_system().book_positions.ordered() == insert_all(
                Seq::empty(),
                pair_views(pairs@),
            ),
            resume_name is None ==> r.spec_system().recent_entries == recent_entries,
            r.spec_state() == AppState::StartMenu || r.spec_state() == AppState::Error
                || r.spec_state() == AppState::Menu || r.spec_state() == AppState::Viewing
                || r.spec_state() == AppState::BookViewing,
            resume_name is None ==> (r.spec_state() == AppState::StartMenu || r.spec_state()
                == AppState::Error),
            resume_name is None ==> r.spec_home().path@.len() == 0,
    {
        display_buffers.set_rotation(Rotation::Rotate90);
        let book_positions = BookPositions::from_pairs(pairs);
        let system = SystemState::new(resume_name, book_positions, recent_entries);
        let mut app = Application {
            dirty: true,
            display_buffers,
            source,
            home: HomeState::new(),
            state: AppState::StartMenu,
            image_viewer: ImageViewerState::new(),
            book_reader: BookReaderState::new(),
            system,
            current_entry: None,
            last_viewed_entry: None,
            error_message: None,
            gray2: GrayPlanes::new(),
            exit_from: ExitFrom::Image,
            exit_overlay_drawn: false,
            phase: DrawPhase::Idle,
            exit_pass: false,
        };
        app.refresh_entries();
        app.try_resume();
        app
    }

    /// Whether any button is pressed or held.
    pub fn has_input(buttons: &ButtonState) -> (r: bool)
        ensures
            r == spec_has_input(*buttons),
    {
        buttons.is_pressed(Buttons::Back) || buttons.is_held(Buttons::Back) || buttons.is_pressed(
            Buttons::Confirm,
        ) || buttons.is_held(Buttons::Confirm) || buttons.is_pressed(Buttons::Left)
            || buttons.is_held(Buttons::Left) || buttons.is_pressed(Buttons::Right)
            || buttons.is_held(Buttons::Right) || buttons.is_pressed(Buttons::Up)
            || buttons.is_held(Buttons::Up) || buttons.is_pressed(Buttons::Down)
            || buttons.is_held(Buttons::Down) || buttons.is_pressed(Buttons::Power)
            || buttons.is_held(Buttons::Power)
    }

    pub fn take_sleep_transition(&mut self) -> (r: bool)
        requires
            old(self).wf(),
        ensures
            final(self).wf(),
            r == old(self).spec_system().sleep_transition,
            !final(self).spec_system().sleep_transition,
            final(self).spec_state() == old(self).spec_state(),
    {
        self.system.take_sleep_transition()
    }

    pub fn take_wake_transition(&mut self) -> (r: bool)
        requires
            old(self).wf(),
        ensures
            final(self).wf(),
            r == old(self).spec_system().wake_transition,
            !final(self).spec_system().wake_transition,
            final(self).spec_state() == old(self).spec_state(),
    {
        self.system.take_wake_transition()
    }

    /// Records a battery reading; the start menu is redrawn when it changed.
    pub fn set_battery_percent(&mut self, percent: Option<u8>)
        requires
            old(self).wf(),
        ensures
            final(self).wf(),
            final(self).spec_system().battery_percent == percent,
            final(self).spec_dirty() == (old(self).spec_dirty() || (old(
                self,
            ).spec_system().battery_percent != percent && old(self).spec_state()
                == AppState::StartMenu)),
            final(self).spec_state() == old(self).spec_state(),
    {
        if self.system.set_battery_percent(percent) && self.state == AppState::StartMenu {
            self.dirty = true;
        }
    }

    /// The storage behind the application.
    pub fn source_mut(&mut self) -> &mut S {
        self.source
    }

    fn set_state_start_menu(&mut self, need_base_refresh: bool)
        requires
            old(self).wf(),
        ensures
            final(self).wf(),
            *final(self) == (Application {
                state: AppState::StartMenu,
                home: HomeState { start_menu_need_base_refresh: need_base_refresh, ..old(self).home },
                dirty: true,
                ..*old(self)
            }),
    {
        self.state = AppState::StartMenu;
        self.home.start_menu_need_base_refresh = need_base_refresh;
        self.dirty = true;
    }

    fn set_state_settings(&mut self)
        requires
            old(self).wf(),
        ensures
            final(self).wf(),
            *final(self) == (Application { state: AppState::Settings, dirty: true, ..*old(self) }),
    {
        self.state = AppState::Settings;
        self.dirty = true;
    }

    fn set_state_menu(&mut self)
        requires
            old(self).wf(),
        ensures
            final(self).wf(),
            *final(self) == (Application { state: AppState::Menu, dirty: true, ..*old(self) }),
    {
        self.state = AppState::Menu;
        self.dirty = true;
    }

    fn set_state_viewing(&mut self)
        requires
            old(self).wf(),
        ensures
            final(self).wf(),
            *final(self) == (Application {
                state: AppState::Viewing,
                system: SystemState { full_refresh: true, ..old(self).system },
                dirty: true,
                ..*old(self)
            }),
    {
        self.state = AppState::Viewing;
        self.system.full_refresh = true;
        self.dirty = true;
    }

    fn set_state_book_viewing(&mut self)
        requires
            old(self).wf(),
        ensures
            final(self).wf(),
            *final(self) == (Application {
                state: AppState::BookViewing,
                system: SystemState { full_refresh: true, ..old(self).system },
                dirty: true,
                ..*old(self)
            }),
    {
        self.state = AppState::BookViewing;
        self.system.full_refresh = true;
        self.dirty = true;
    }

    fn set_state_toc(&mut self)
        requires
            old(self).wf(),
        ensures
            final(self).wf(),
            *final(self) == (Application { state: AppState::Toc, dirty: true, ..*old(self) }),
    {
        self.state = AppState::Toc;
        self.dirty = true;
    }

    fn set_state_error_message(&mut self, message: String)
        requires
            old(self).wf(),
        ensures
            final(self).spec_buffers() == old(self).spec_buffers(),
            final(self).wf(),
            final(self).spec_state() == AppState::Error,
            final(self).spec_error_message() == Some(message@),
            final(self).spec_dirty(),
            final(self).spec_system() == old(self).spec_system(),
            final(self).spec_home() == old(self).spec_home(),
            final(self).spec_book_reader() == old(self).spec_book_reader(),
            final(self).phase == old(self).phase,
            final(self).exit_pass == old(self).exit_pass,
    {
        self.error_message = Some(message);
        self.state = AppState::Error;
        self.dirty = true;
    }

    /// Shows an error screen for a failed operation.
    fn set_error(&mut self, err: ImageError)
        requires
            old(self).wf(),
        ensures
            final(self).spec_buffers() == old(self).spec_buffers(),
            final(self).wf(),
            final(self).spec_state() == AppState::Error,
            final(self).spec_error_message() == Some(spec_error_message(err)),
            final(self).spec_dirty(),
            final(self).spec_system() == old(self).spec_system(),
            final(self).spec_home() == old(self).spec_home(),
            final(self).spec_book_reader() == old(self).spec_book_reader(),
            final(self).phase == old(self).phase,
            final(self).exit_pass == old(self).exit_pass,
    {
        let message = match err {
            ImageError::Io => String::from_str("I/O error while accessing /images."),
            ImageError::Decode => String::from_str("Failed to decode image."),
            ImageError::Unsupported => String::from_str("Unsupported image format."),
            ImageError::Message(m) => m,
        };
        proof {
            reveal_strlit("I/O error while accessing /images.");
            reveal_strlit("Failed to decode image.");
            reveal_strlit("Unsupported image format.");
        }
        self.set_state_error_message(message);
    }

    /// Lists the current folder again: on success every open image or book
    /// is dropped and (outside the start menu) the file browser shown; on
    /// failure the error screen is shown.
    fn refresh_entries(&mut self)
        requires
            old(self).wf(),
        ensures
            final(self).spec_buffers() == old(self).spec_buffers(),
            final(self).wf(),
            final(self).spec_system() == old(self).spec_system(),
            final(self).spec_state() == AppState::Error || final(self).spec_state() == (if old(
                self,
            ).spec_state() == AppState::StartMenu {
                AppState::StartMenu
            } else {
                AppState::Menu
            }),
            final(self).spec_state() != AppState::Error ==> final(self).spec_book_reader().is_cleared()
                && !final(self).spec_has_image() && final(self).spec_error_message() is None,
            final(self).spec_dirty(),
            final(self).spec_home().path == old(self).spec_home().path,
    {
        match self.home.refresh_entries(self.source) {
            Ok(()) => {
                self.image_viewer.clear();
                self.book_reader.clear();
                if self.state != AppState::StartMenu {
                    self.set_state_menu();
                }
                self.error_message = None;
                self.dirty = true;
            },
            Err(err) => self.set_error(err),
        }
    }

    fn open_book_entry(&mut self, entry: ImageEntry)
        requires
            old(self).wf(),
        ensures
            final(self).home == old(self).home,
            final(self).spec_buffers() == old(self).spec_buffers(),
            final(self).wf(),
            final(self).home.path == old(self).home.path,
            final(self).spec_state() == AppState::BookViewing || final(self).spec_state()
                == AppState::Error,
            final(self).spec_dirty(),
    {
        let entry_name = self.home.entry_path_string(&entry);
        match self.book_reader.open(
            self.source,
            self.home.path.as_slice(),
            &entry,
            entry_name.as_str(),
            &self.system.book_positions,
        ) {
            Ok(()) => {
                self.current_entry = Some(entry_name.clone());
                self.last_viewed_entry = Some(entry_name.clone());
                self.system.mark_recent(entry_name);
                self.set_state_book_viewing();
            },
            Err(err) => self.set_error(err),
        }
    }

    fn open_image_entry(&mut self, entry: ImageEntry)
        requires
            old(self).wf(),
        ensures
            final(self).home == old(self).home,
            final(self).spec_buffers() == old(self).spec_buffers(),
            final(self).wf(),
            final(self).home.path == old(self).home.path,
            final(self).spec_state() == AppState::Viewing || final(self).spec_state()
                == AppState::Error,
            final(self).spec_dirty(),
    {
        match self.image_viewer.open(self.source, self.home.path.as_slice(), &entry) {
            Ok(()) => {
                let entry_name = self.home.entry_path_string(&entry);
                self.current_entry = Some(entry_name.clone());
                self.last_viewed_entry = Some(entry_name.clone());
                self.system.mark_recent(entry_name);
                self.set_state_viewing();
                self.system.reset_idle();
                self.system.sleep_overlay = None;
                self.system.clear_sleep_overlay_pending();
            },
            Err(err) => self.set_error(err),
        }
    }

    /// Opens a file: books in the reader, EPUBs refused, anything else in
    /// the image viewer.
    fn open_file_entry(&mut self, entry: ImageEntry)
        requires
            old(self).wf(),
        ensures
            final(self).home == old(self).home,
            final(self).spec_buffers() == old(self).spec_buffers(),
            final(self).wf(),
            final(self).home.path == old(self).home.path,
            final(self).spec_dirty(),
            spec_is_trbk(entry.name@) ==> (final(self).spec_state() == AppState::BookViewing
                || final(self).spec_state() == AppState::Error),
            !spec_is_trbk(entry.name@) && spec_is_epub(entry.name@) ==> final(self).spec_state()
                == AppState::Error && final(self).spec_error_message() == Some(
                "EPUB files must be converted to .trbk."@,
            ),
            !spec_is_trbk(entry.name@) && !spec_is_epub(entry.name@) ==> (final(self).spec_state()
                == AppState::Viewing || final(self).spec_state() == AppState::Error),
    {
        if is_trbk(entry.name.as_str()) {
            self.open_book_entry(entry);
            return;
        }
        if is_epub(entry.name.as_str()) {
            self.set_error(
                ImageError::Message(String::from_str("EPUB files must be converted to .trbk.")),
            );
            return;
        }
        self.open_image_entry(entry);
    }

    /// Opens the file at `index` of the listing.
    fn open_index(&mut self, index: usize)
        requires
            old(self).wf(),
        ensures
            final(self).wf(),
            opened_index(old(self)@, final(self)@, index as int),
    {
        reveal(opened_index);
        let action = match self.home.open_index(index) {
            Some(a) => a,
            None => return ,
        };
        match action {
            HomeOpen::EnterDir => {},
            HomeOpen::OpenFile(entry) => self.open_file_entry(entry),
        }
    }

    /// Opens the selected entry of the file browser: a folder is entered
    /// (stepping back out with an error when it cannot be listed), a file
    /// is opened; an empty listing shows an error.
    fn open_selected(&mut self)
        requires
            old(self).wf(),
        ensures
            final(self).wf(),
            final(self).spec_dirty(),
            old(self).spec_home().selected >= old(self).spec_home().entries@.len()
                ==> final(self).spec_state() == AppState::Error && final(self).spec_error_message()
                == Some("No entries found in /images."@),
    {
        let action = match self.home.open_selected() {
            Ok(action) => action,
            Err(HomeOpenError::Empty) => {
                self.error_message = Some(String::from_str("No entries found in /images."));
                self.state = AppState::Error;
                self.dirty = true;
                return ;
            },
        };
        match action {
            HomeOpen::EnterDir => {
                self.refresh_entries();
                if self.state == AppState::Error {
                    self.home.path.pop();
                    self.refresh_entries();
                    self.set_error(ImageError::Message(String::from_str("Folder open failed.")));
                }
            },
            HomeOpen::OpenFile(entry) => {
                self.open_file_entry(entry);
            },
        }
    }

    /// Leaving the image viewer clears the resume state and saves the
    /// recent list.
    fn exit_image(&mut self)
        requires
            old(self).wf(),
        ensures
            final(self).wf(),
            final(self).spec_state() == old(self).spec_state(),
            !final(self).spec_system().recent_dirty,
    {
        self.source.save_resume(None);
        self.system.save_recent_entries_now(self.source);
    }

    /// Leaving a book saves its position and the recent list and closes it.
    fn exit_book(&mut self)
        requires
            old(self).wf(),
        ensures
            final(self).wf(),
            final(self).spec_state() == old(self).spec_state(),
            final(self).spec_book_reader().is_cleared(),
            !final(self).spec_system().book_positions_dirty,
            !final(self).spec_system().recent_dirty,
    {
        self.system.update_book_position(
            &self.book_reader,
            self.current_entry.as_ref(),
            self.last_viewed_entry.as_ref(),
        );
        self.system.save_book_positions_now(self.source);
        self.system.save_recent_entries_now(self.source);
        self.book_reader.close(self.source);
    }

    /// Asks for sleep unless already sleeping or about to.
    fn start_sleep_request(&mut self)
        requires
            old(self).wf(),
        ensures
            final(self).wf(),
            if old(self).spec_state() == AppState::Sleeping || old(self).spec_state()
                == AppState::SleepingPending {
                *final(self) == *old(self)
            } else {
                *final(self) == (Application {
                    state: AppState::SleepingPending,
                    dirty: true,
                    system: SystemState {
                        sleep_from_home: old(self).spec_state() == AppState::StartMenu,
                        sleep_transition: false,
                        sleep_overlay_pending: false,
                        ..old(self).system
                    },
                    ..*old(self)
                })
            },
    {
        if self.state == AppState::Sleeping || self.state == AppState::SleepingPending {
            return ;
        }
        self.system.start_sleep_request(self.state == AppState::StartMenu);
        self.state = AppState::SleepingPending;
        self.dirty = true;
    }

    /// Reopens what the saved resume state names: its folder is listed, the
    /// file selected and opened, and a book turned to its saved page.
    fn try_resume(&mut self)
        requires
            old(self).wf(),
        ensures
            old(self).spec_dirty() ==> final(self).spec_dirty(),
            old(self).spec_state() == AppState::StartMenu || old(self).spec_state() == AppState::Error
                ==> (final(self).spec_state() == AppState::StartMenu || final(self).spec_state()
                == AppState::Error || final(self).spec_state() == AppState::Menu
                || final(self).spec_state() == AppState::Viewing || final(self).spec_state()
                == AppState::BookViewing),
            final(self).spec_buffers() == old(self).spec_buffers(),
            final(self).wf(),
            match old(self).system.resume_name {
                Some(name) if name@ != "HOME"@ && path_segments(name@).len() > 0 => string_views(
                    final(self).home.path@,
                ) == path_segments(name@).drop_last(),
                _ => *final(self) == (Application {
                    system: SystemState { resume_name: None, ..old(self).system },
                    ..*old(self)
                }),
            },
    {
        let outcome = self.system.try_resume();
        let (path, file, page) = match outcome {
            TryResumeOutcome::Nothing => return ,
            TryResumeOutcome::Resume { path, file, page } => (path, file, page),
        };
        self.home.path = path;
        match self.home.refresh_entries(self.source) {
            Ok(()) => {
                self.image_viewer.clear();
                self.book_reader.clear();
                if self.state != AppState::StartMenu {
                    self.state = AppState::Menu;
                }
                self.error_message = None;
                self.dirty = true;
            },
            Err(_) => return ,
        }
        let mut found: Option<usize> = None;
        let mut i: usize = 0;
        while i < self.home.entries.len() && found.is_none()
            invariant
                i <= self.home.entries@.len(),
                self.wf(),
                found matches Some(j) ==> j < self.home.entries@.len(),
            decreases self.home.entries@.len() - i,
        {
            if str_eq(self.home.entries[i].name.as_str(), file.as_str()) {
                found = Some(i);
            }
            i = i + 1;
        }
        let index = match found {
            Some(i) => i,
            None => return ,
        };
        self.home.selected = index;
        let entry = self.home.entries[index].duplicate();
        self.open_file_entry(entry);
        if let Some(page) = page {
            let page_count = match &self.book_reader.current_book {
                Some(book) => Some(book.page_count),
                None => None,
            };
            if let Some(count) = page_count {
                if page < count {
                    self.book_reader.current_page = page;
                    self.book_reader.current_page_ops = match self.source.trbk_page(page) {
                        Ok(p) => Some(p),
                        Err(_) => None,
                    };
                    self.system.full_refresh = true;
                    self.book_reader.book_turns_since_full = 0;
                    self.dirty = true;
                }
            }
        }
    }

    /// Advances the idle timer by the elapsed time; once it reaches the
    /// timeout, sleep is requested.
    fn idle_tick(&mut self, elapsed_ms: u32)
        requires
            old(self).wf(),
            old(self).spec_state() != AppState::Sleeping,
            old(self).spec_state() != AppState::SleepingPending,
        ensures
            final(self).wf(),
            idle_ticked(old(self)@, final(self)@, elapsed_ms),
    {
        if self.system.add_idle(elapsed_ms) {
            self.start_sleep_request();
        }
    }

    /// Writes the pixels saved under the sleep overlay back to the screen.
    fn restore_overlay(&mut self, overlay: &SleepOverlay)
        requires
            old(self).wf(),
        ensures
            final(self).wf(),
            final(self).state == old(self).state,
            final(self).dirty == old(self).dirty,
            final(self).system == old(self).system,
            final(self).home == old(self).home,
            final(self).book_reader == old(self).book_reader,
            final(self).image_viewer == old(self).image_viewer,
            final(self).error_message == old(self).error_message,
            final(self).gray2 == old(self).gray2,
            crate::app::system::rect_ok(overlay.rect) ==> {
                &&& final(self).display_buffers.active_view() == crate::app::system::restore_prefix(
                    old(self).display_buffers.spec_rotation(),
                    old(self).display_buffers.active_view(),
                    overlay.rect,
                    overlay.pixels@,
                    overlay.rect.w * overlay.rect.h,
                )
                &&& final(self).display_buffers.inactive_view() == old(self).display_buffers.inactive_view()
                &&& final(self).display_buffers.spec_rotation() == old(self).display_buffers.spec_rotation()
            },
            !crate::app::system::rect_ok(overlay.rect) ==> *final(self).display_buffers
                == *old(self).display_buffers,
    {
        if crate::app::system::check_rect(overlay.rect) {
            SystemState::restore_rect_bits(self.display_buffers, overlay);
        }
    }

    /// Wakes from sleep: the region under the sleep overlay is restored and
    /// the book or image it covered shown again; without a saved overlay
    /// the start menu is shown and the folder listed again.
    fn wake(&mut self)
        requires
            old(self).wf(),
            old(self).spec_state() == AppState::Sleeping,
        ensures
            final(self).wf(),
            final(self).spec_dirty(),
            final(self).spec_system().wake_transition,
            !final(self).spec_system().sleep_transition,
            final(self).spec_system().idle_ms == 0,
            final(self).spec_system().sleep_overlay is None,
            if old(self).spec_system().sleep_overlay is Some {
                final(self).spec_state() == if old(self).spec_book_reader().current_book is Some {
                    AppState::BookViewing
                } else if old(self).spec_has_image() {
                    AppState::Viewing
                } else {
                    AppState::StartMenu
                }
            } else {
                final(self).spec_state() == AppState::StartMenu || final(self).spec_state()
                    == AppState::Error
            },
    {
        self.source.wake();
        let overlay = self.system.sleep_overlay.take();
        let resumed_viewer = overlay.is_some();
        if let Some(o) = &overlay {
            self.restore_overlay(o);
        }
        let has_book = self.book_reader.current_book.is_some();
        let has_image = self.image_viewer.has_image();
        if resumed_viewer && has_book {
            self.set_state_book_viewing();
            self.system.wake_restore_only = false;
        } else if resumed_viewer && has_image {
            self.set_state_viewing();
            self.system.wake_restore_only = true;
        } else {
            self.set_state_start_menu(true);
        }
        self.system.on_wake();
        self.dirty = true;
        if !resumed_viewer {
            self.refresh_entries();
        }
    }

    /// Start menu keys: open a recent entry, the file browser or the
    /// settings; any other input redraws, no input advances the idle timer.
    fn update_start_menu(&mut self, buttons: &ButtonState, input: bool, elapsed_ms: u32)
        requires
            old(self).wf(),
            old(self).spec_state() == AppState::StartMenu,
        ensures
            final(self).wf(),
            start_menu_step(old(self)@, final(self)@, *buttons, input),
    {
        reveal(start_menu_step);
        let recents = self.system.collect_recent_paths(self.last_viewed_entry.as_ref());
        match self.home.handle_start_menu_input(recents.as_slice(), buttons) {
            HomeAction::OpenRecent(path) => {
                match self.home.open_recent_path(self.source, path.as_str()) {
                    Ok(()) => {
                        let index = self.home.selected;
                        self.open_index(index);
                    },
                    Err(err) => self.set_error(err),
                }
            },
            HomeAction::OpenFileBrowser => {
                self.state = AppState::Menu;
                self.home.selected = 0;
                self.refresh_entries();
                self.dirty = true;
            },
            HomeAction::OpenSettings => {
                self.set_state_settings();
            },
            HomeAction::Nothing => {
                if input {
                    self.dirty = true;
                } else {
                    self.idle_tick(elapsed_ms);
                }
            },
        }
        if !input && self.state != AppState::Sleeping && self.state != AppState::SleepingPending {
            self.idle_tick(elapsed_ms);
        }
    }

    /// File browser keys: open the selection, go up a folder (or back to
    /// the start menu from the root), or redraw after a move.
    fn update_menu(&mut self, buttons: &ButtonState, elapsed_ms: u32)
        requires
            old(self).wf(),
            old(self).spec_state() == AppState::Menu,
        ensures
            final(self).wf(),
            menu_step(old(self)@, final(self)@, *buttons, elapsed_ms),
    {
        reveal(menu_step);
        match self.home.handle_menu_input(buttons) {
            MenuAction::OpenSelected => {
                self.open_selected();
            },
            MenuAction::Back => {
                if self.home.path.len() > 0 {
                    self.home.path.pop();
                    self.refresh_entries();
                } else {
                    self.set_state_start_menu(true);
                }
            },
            MenuAction::Dirty => {
                self.dirty = true;
            },
            MenuAction::Nothing => {
                self.idle_tick(elapsed_ms);
            },
        }
    }

    /// Image keys: Left/Up and Right/Down open the neighbouring entry,
    /// Back starts leaving the viewer.
    fn update_viewing(&mut self, buttons: &ButtonState, elapsed_ms: u32)
        requires
            old(self).wf(),
            old(self).spec_state() == AppState::Viewing,
        ensures
            final(self).wf(),
            viewing_step(old(self)@, final(self)@, *buttons, elapsed_ms),
    {
        reveal(viewing_step);
        if buttons.is_pressed(Buttons::Left) || buttons.is_pressed(Buttons::Up) {
            if self.home.entries.len() > 0 {
                let next = self.home.selected.saturating_sub(1);
                self.open_index(next);
            }
        } else if buttons.is_pressed(Buttons::Right) || buttons.is_pressed(Buttons::Down) {
            if self.home.entries.len() > 0 {
                let last = self.home.entries.len() - 1;
                let next = if self.home.selected < last {
                    self.home.selected + 1
                } else {
                    last
                };
                self.open_index(next);
            }
        } else if buttons.is_pressed(Buttons::Back) {
            self.exit_from = ExitFrom::Image;
            self.exit_overlay_drawn = false;
            self.state = AppState::ExitingPending;
            self.dirty = true;
        } else {
            self.idle_tick(elapsed_ms);
        }
    }

    /// Page keys of an open book: turning pages, opening the table of
    /// contents, or starting to leave the book.
    fn update_book_viewing(&mut self, buttons: &ButtonState, elapsed_ms: u32)
        requires
            old(self).wf(),
            old(self).spec_state() == AppState::BookViewing,
        ensures
            final(self).wf(),
            book_viewing_step(old(self)@, final(self)@, *buttons, elapsed_ms),
    {
        reveal(book_viewing_step);
        let result = self.book_reader.handle_view_input(self.source, buttons);
        if result.exit {
            self.exit_from = ExitFrom::Book;
            self.exit_overlay_drawn = false;
            self.state = AppState::ExitingPending;
            self.dirty = true;
        } else if result.open_toc {
            self.set_state_toc();
        } else if result.dirty {
            self.dirty = true;
        } else {
            self.idle_tick(elapsed_ms);
        }
    }

    /// Table of contents keys: move the selection, jump to a chapter, or
    /// go back to the page.
    fn update_toc(&mut self, buttons: &ButtonState, elapsed_ms: u32)
        requires
            old(self).wf(),
            old(self).spec_state() == AppState::Toc,
        ensures
            final(self).wf(),
            toc_step(old(self)@, final(self)@, *buttons, elapsed_ms),
    {
        reveal(toc_step);
        let result = self.book_reader.handle_toc_input(buttons);
        if result.exit {
            self.set_state_book_viewing();
        } else if result.jumped {
            self.set_state_book_viewing();
        } else if result.dirty {
            self.dirty = true;
        } else {
            self.idle_tick(elapsed_ms);
        }
    }

    /// Handles one input poll: waking from sleep, requesting sleep, the
    /// keys of the current screen and the idle timer.
    pub fn update(&mut self, buttons: &ButtonState, elapsed_ms: u32)
        requires
            old(self).wf(),
        ensures
            final(self).wf(),
            ({
                let st = old(self).spec_state();
                let power = buttons.spec_is_pressed(Buttons::Power);
                let wake = st == AppState::Sleeping && (power || buttons.spec_is_held(Buttons::Power));
                if wake {
                    &&& final(self).spec_dirty()
                    &&& final(self).spec_system().wake_transition
                    &&& !final(self).spec_system().sleep_transition
                    &&& final(self).spec_system().idle_ms == 0
                    &&& final(self).spec_system().sleep_overlay is None
                    &&& if old(self).spec_system().sleep_overlay is Some {
                        final(self).spec_state() == if old(self).spec_book_reader().current_book is Some {
                            AppState::BookViewing
                        } else if old(self).spec_has_image() {
                            AppState::Viewing
                        } else {
                            AppState::StartMenu
                        }
                    } else {
                        final(self).spec_state() == AppState::StartMenu || final(self).spec_state()
                            == AppState::Error
                    }
                } else if st != AppState::Sleeping && st != AppState::SleepingPending && power {
                    &&& final(self).spec_state() == AppState::SleepingPending
                    &&& final(self).spec_dirty()
                    &&& final(self).spec_system().sleep_from_home == (st == AppState::StartMenu)
                } else {
                    keys_step(after_input(old(self)@, *buttons), final(self)@, *buttons, elapsed_ms)
                }
            }),
    {
        let power_pressed = buttons.is_pressed(Buttons::Power);
        if self.state == AppState::Sleeping && (power_pressed || buttons.is_held(Buttons::Power)) {
            self.wake();
            return ;
        }
        if self.state != AppState::Sleeping && self.state != AppState::SleepingPending
            && power_pressed {
            self.start_sleep_request();
            return ;
        }
        let input = Self::has_input(buttons);
        if input {
            self.system.reset_idle();
        }
        self.handle_keys(buttons, input, elapsed_ms);
    }

    /// The keys of the current screen.
    fn handle_keys(&mut self, buttons: &ButtonState, input: bool, elapsed_ms: u32)
        requires
            old(self).wf(),
            input == spec_has_input(*buttons),
        ensures
            final(self).wf(),
            keys_step(old(self)@, final(self)@, *buttons, elapsed_ms),
    {
        reveal(keys_step);
        match self.state {
            AppState::StartMenu => self.update_start_menu(buttons, input, elapsed_ms),
            AppState::Menu => self.update_menu(buttons, elapsed_ms),
            AppState::Settings => {
                if buttons.is_pressed(Buttons::Back) || buttons.is_pressed(Buttons::Confirm) {
                    self.set_state_start_menu(true);
                } else {
                    self.idle_tick(elapsed_ms);
                }
            },
            AppState::Viewing => self.update_viewing(buttons, elapsed_ms),
            AppState::BookViewing => self.update_book_viewing(buttons, elapsed_ms),
            AppState::Toc => self.update_toc(buttons, elapsed_ms),
            AppState::SleepingPending => {},
            AppState::Sleeping => {},
            AppState::ExitingPending => {},
            AppState::Error => {
                if buttons.is_pressed(Buttons::Back) || buttons.is_pressed(Buttons::Confirm) {
                    self.error_message = None;
                    self.set_state_start_menu(true);
                }
            },
        }
    }
}


/// The application's state as values.
pub struct AppView {
    pub state: AppState,
    pub dirty: bool,
    pub home: HomeState,
    pub system: SystemState,
    pub book_reader: BookReaderState,
    pub image: Option<ImageData>,
    pub buffers: DisplayBuffers,
    pub planes: GrayPlanes,
    pub current_entry: Option<Seq<char>>,
    pub last_viewed_entry: Option<Seq<char>>,
    pub error_message: Option<Seq<char>>,
    pub exit_from: ExitFrom,
    pub exit_overlay_drawn: bool,
    pub phase: DrawPhase,
    pub exit_pass: bool,
}

impl<'a, S: AppSource> View for Application<'a, S> {
    type V = AppView;

    closed spec fn view(&self) -> AppView {
        AppView {
            state: self.state,
            dirty: self.dirty,
            home: self.home,
            system: self.system,
            book_reader: self.book_reader,
            image: self.image_viewer.image(),
            buffers: *self.display_buffers,
            planes: self.gray2,
            current_entry: match self.current_entry {
                Some(c) => Some(c@),
                None => None,
            },
            last_viewed_entry: match self.last_viewed_entry {
                Some(c) => Some(c@),
                None => None,
            },
            error_message: match self.error_message {
                Some(m) => Some(m@),
                None => None,
            },
            exit_from: self.exit_from,
            exit_overlay_drawn: self.exit_overlay_drawn,
            phase: self.phase,
            exit_pass: self.exit_pass,
        }
    }
}

/// The start menu's keys (`input`: whether any key is down).
#[verifier::opaque]
pub open spec fn start_menu_step(a: AppView, b: AppView, buttons: ButtonState, input: bool) -> bool {
    let nav = buttons.spec_is_pressed(Buttons::Up) || buttons.spec_is_pressed(Buttons::Down)
        || buttons.spec_is_pressed(Buttons::Left) || buttons.spec_is_pressed(Buttons::Right);
    let confirm = buttons.spec_is_pressed(Buttons::Confirm);
    let on_tiles = a.home.start_menu_section == StartMenuSection::Actions;
    let idx = a.home.start_menu_index;
    &&& nav && input ==> b.state == AppState::StartMenu && b.dirty
    &&& !nav && confirm && input && on_tiles && idx == 1 ==> b.state
        == AppState::Settings && b.dirty
    &&& !nav && confirm && input && on_tiles && idx == 0 ==> (b.state == AppState::Menu
        || b.state == AppState::Error) && b.dirty

}

/// The file browser's keys: Up/Down move the selection, Confirm opens
/// the selected entry, Back goes up a folder (or to the start menu from
/// the top); without any of them the idle timer runs.
#[verifier::opaque]
pub open spec fn menu_step(a: AppView, b: AppView, buttons: ButtonState, elapsed_ms: u32) -> bool {
    let n = a.home.entries@.len();
    let sel = a.home.selected;
    if buttons.spec_is_pressed(Buttons::Up) || buttons.spec_is_pressed(Buttons::Down) {
        let moved = if n == 0 {
            sel as int
        } else if buttons.spec_is_pressed(Buttons::Up) {
            if sel > 0 {
                sel - 1
            } else {
                0
            }
        } else if sel + 1 < n {
            sel + 1
        } else {
            n - 1
        };
        b == (AppView { home: HomeState { selected: moved as usize, ..a.home }, dirty: true, ..a })
    } else if buttons.spec_is_pressed(Buttons::Confirm) {
        &&& b.dirty
        &&& sel >= n ==> b.state == AppState::Error && b.error_message == Some(
            "No entries found in /images."@,
        )
    } else if buttons.spec_is_pressed(Buttons::Back) {
        if a.home.path@.len() == 0 {
            b.state == AppState::StartMenu && b.dirty
        } else {
            b.home.path@ == a.home.path@.drop_last()
        }
    } else {
        idle_ticked(a, b, elapsed_ms)
    }
}

/// The page view's keys: Left/Up and Right/Down turn the page where
/// there is one, Confirm opens the table of contents where the book has
/// one, Back starts leaving the book; otherwise the idle timer runs.
#[verifier::opaque]
pub open spec fn book_viewing_step(a: AppView, b: AppView, buttons: ButtonState, elapsed_ms: u32) -> bool {
    let back = buttons.spec_is_pressed(Buttons::Left) || buttons.spec_is_pressed(Buttons::Up);
    let fwd = buttons.spec_is_pressed(Buttons::Right) || buttons.spec_is_pressed(Buttons::Down);
    let rd = a.book_reader;
    let can_fwd = rd.current_book matches Some(bk) && rd.current_page + 1 < bk.page_count;
    let can_toc = rd.current_book matches Some(bk) && bk.toc@.len() > 0;
    if back && rd.current_page > 0 {
        &&& BookReaderState::turned_back(rd, b.book_reader)
        &&& b.state == AppState::BookViewing
        &&& b.dirty
    } else if !back && fwd && can_fwd {
        &&& BookReaderState::turned_forward(rd, b.book_reader)
        &&& b.state == AppState::BookViewing
        &&& b.dirty
    } else if !back && !fwd && buttons.spec_is_pressed(Buttons::Confirm) && can_toc {
        &&& b.state == AppState::Toc
        &&& b.dirty
        &&& b.book_reader.toc_selected == spec_toc_selection(rd.current_book->0.toc@, rd.current_page as int)
        &&& b.book_reader.current_page == rd.current_page
    } else if !back && !fwd && !buttons.spec_is_pressed(Buttons::Confirm) && buttons.spec_is_pressed(
        Buttons::Back,
    ) {
        &&& b.state == AppState::ExitingPending
        &&& b.exit_from == ExitFrom::Book
        &&& !b.exit_overlay_drawn
        &&& b.dirty
        &&& b.book_reader == rd
    } else {
        &&& b.book_reader == rd
        &&& idle_ticked(a, b, elapsed_ms)
    }
}

/// The table of contents' keys.
#[verifier::opaque]
pub open spec fn toc_step(a: AppView, b: AppView, buttons: ButtonState, elapsed_ms: u32) -> bool {
    let up = buttons.spec_is_pressed(Buttons::Up);
    let down = buttons.spec_is_pressed(Buttons::Down);
    let confirm = buttons.spec_is_pressed(Buttons::Confirm);
    let esc = buttons.spec_is_pressed(Buttons::Back);
    let rd = a.book_reader;
    let sel = rd.toc_selected;
    match rd.current_book {
        None => {
            &&& b.state == AppState::BookViewing
            &&& b.dirty
            &&& b.system.full_refresh
            &&& b.book_reader == rd
        },
        Some(book) => {
            let len = book.toc@.len();
            if !up && !down && confirm && sel < len {
                &&& b.state == AppState::BookViewing
                &&& b.dirty
                &&& b.system.full_refresh
                &&& b.book_reader.current_page == book.toc@[sel as int].page_index as usize
                &&& b.book_reader.current_page_ops is None
                &&& b.book_reader.book_turns_since_full == 0
            } else if !up && !down && !confirm && esc {
                &&& b.state == AppState::BookViewing
                &&& b.dirty
                &&& b.system.full_refresh
                &&& b.book_reader == rd
            } else if (up && sel > 0) || (!up && down && sel + 1 < len) {
                &&& b.state == AppState::Toc
                &&& b.dirty
                &&& b.book_reader.toc_selected == if up {
                    (sel - 1) as usize
                } else {
                    (sel + 1) as usize
                }
                &&& b.system == a.system
            } else {
                &&& b.book_reader == rd
                &&& b.system.idle_ms == idle_after(
                    a.system.idle_ms,
                    false,
                    elapsed_ms,
                )
                &&& b.state == if idle_after(a.system.idle_ms, false, elapsed_ms)
                    >= a.system.idle_timeout_ms {
                    AppState::SleepingPending
                } else {
                    AppState::Toc
                }
            }
        },
    }

}

/// What the keys of the current screen do, once the idle timer was
/// restarted for a poll with input.
#[verifier::opaque]
pub open spec fn keys_step(a: AppView, b: AppView, buttons: ButtonState, elapsed_ms: u32) -> bool {
    let back_or_confirm = buttons.spec_is_pressed(Buttons::Back) || buttons.spec_is_pressed(
        Buttons::Confirm,
    );
    match a.state {
        AppState::StartMenu => start_menu_step(a, b, buttons, spec_has_input(buttons)),
        AppState::Menu => menu_step(a, b, buttons, elapsed_ms),
        AppState::Settings => if back_or_confirm {
            b == (AppView {
                state: AppState::StartMenu,
                home: HomeState { start_menu_need_base_refresh: true, ..a.home },
                dirty: true,
                ..a
            })
        } else {
            idle_ticked(a, b, elapsed_ms)
        },
        AppState::Viewing => viewing_step(a, b, buttons, elapsed_ms),
        AppState::BookViewing => book_viewing_step(a, b, buttons, elapsed_ms),
        AppState::Toc => toc_step(a, b, buttons, elapsed_ms),
        AppState::Error => if back_or_confirm {
            b == (AppView {
                state: AppState::StartMenu,
                home: HomeState { start_menu_need_base_refresh: true, ..a.home },
                dirty: true,
                error_message: None,
                ..a
            })
        } else {
            b == a
        },
        _ => b == a,
    }
}

/// `b` is `a` after `elapsed_ms` without input: the idle time grows,
/// and once it reaches the timeout sleep is requested.
pub open spec fn idle_ticked(a: AppView, b: AppView, elapsed_ms: u32) -> bool {
    let idle = idle_after(a.system.idle_ms, false, elapsed_ms);
    let sys = SystemState { idle_ms: idle, ..a.system };
    if idle >= a.system.idle_timeout_ms {
        b == (AppView {
            state: AppState::SleepingPending,
            dirty: true,
            system: SystemState {
                sleep_from_home: a.state == AppState::StartMenu,
                sleep_transition: false,
                sleep_overlay_pending: false,
                ..sys
            },
            ..a
        })
    } else {
        b == (AppView { system: sys, ..a })
    }
}

/// `b` is `a` after opening the entry at `index` of the listing
/// (clamped to it): a folder, or an empty listing, changes nothing; a
/// file is selected and opened as a book, an image, or the error that
/// explains why it cannot be.
#[verifier::opaque]
pub open spec fn opened_index(a: AppView, b: AppView, index: int) -> bool {
    let es = a.home.entries@;
    if es.len() == 0 {
        b == a
    } else {
        let i = if index < es.len() {
            index
        } else {
            es.len() - 1
        };
        let e = es[i];
        if e.kind == EntryKind::Dir {
            b == a
        } else {
            &&& b.dirty
            &&& b.home == (HomeState { selected: i as usize, ..a.home })
            &&& spec_is_trbk(e.name@) ==> (b.state == AppState::BookViewing || b.state
                == AppState::Error)
            &&& !spec_is_trbk(e.name@) && spec_is_epub(e.name@) ==> b.state == AppState::Error
                && b.error_message == Some("EPUB files must be converted to .trbk."@)
            &&& !spec_is_trbk(e.name@) && !spec_is_epub(e.name@) ==> (b.state
                == AppState::Viewing || b.state == AppState::Error)
        }
    }
}

/// The image viewer's keys: Left/Up show the previous entry, Right/Down
/// the next one, Back starts leaving the viewer; otherwise (Confirm has
/// no use here) the idle timer runs.
#[verifier::opaque]
pub open spec fn viewing_step(a: AppView, b: AppView, buttons: ButtonState, elapsed_ms: u32) -> bool {
    let prev = buttons.spec_is_pressed(Buttons::Left) || buttons.spec_is_pressed(Buttons::Up);
    let next = buttons.spec_is_pressed(Buttons::Right) || buttons.spec_is_pressed(Buttons::Down);
    let n = a.home.entries@.len();
    let sel = a.home.selected as int;
    if prev {
        if n == 0 {
            b == a
        } else {
            opened_index(a, b, if sel > 0 { sel - 1 } else { 0 })
        }
    } else if next {
        if n == 0 {
            b == a
        } else {
            opened_index(a, b, if sel < n - 1 { sel + 1 } else { n - 1 })
        }
    } else if buttons.spec_is_pressed(Buttons::Back) {
        b == (AppView {
            exit_from: ExitFrom::Image,
            exit_overlay_drawn: false,
            state: AppState::ExitingPending,
            dirty: true,
            ..a
        })
    } else {
        idle_ticked(a, b, elapsed_ms)
    }
}

/// `a` once a poll with these buttons has restarted the idle timer.
pub open spec fn after_input(a: AppView, buttons: ButtonState) -> AppView {
    if spec_has_input(buttons) {
        AppView { system: SystemState { idle_ms: 0, ..a.system }, ..a }
    } else {
        a
    }
}


/// The start menu as drawing operations on a white screen: the
/// previews, the action tiles and the battery, with the selection
/// marked unless `suppress`.
pub open spec fn start_menu_view(a: AppView, suppress: bool, icon_size: i32) -> Seq<MenuDrawView> {
    let r = a.buffers.spec_rotation();
    spec_start_menu_ops(
        spec_start_menu_layout(logical_width(r), logical_height(r)),
        preview_views(a.home.start_menu_cache@),
        selected_in(a.home, StartMenuSection::Recents, suppress),
        selected_in(a.home, StartMenuSection::Actions, suppress),
        icon_size as int,
        a.system.battery_percent,
    )
}

/// One thing for the panel to do, in order, to bring the screen up to date.
pub enum PanelStep {
    /// Draw these operations into the display buffers (see `draw_thumbnail`,
    /// `draw_icon` and `draw_logo` for the ones that are not text or boxes).
    Draw(Vec<MenuDraw>),
    /// Draw these texts in the built-in font, in black.
    Texts(Vec<FallbackText>),
    /// Draw this list screen and refresh it.
    List(ListScreen),
    /// Refresh these rectangles, each in its mode, or all at once in
    /// `fallback`.
    Queue { rects: Vec<(Rect, RefreshMode)>, fallback: RefreshMode },
    /// Show the whole 1-bit frame in this mode.
    Show(RefreshMode),
    /// Add the black pixels of the frame to the grayscale planes
    /// (`merge_black_into_planes`).
    MergeBlack,
    /// Send the grayscale planes and show them: with the fast absolute
    /// waveform, or differentially.
    Grayscale { absolute: bool },
    /// Copy the active buffer into the inactive one.
    CopyActiveToInactive,
}

/// What drawing needs besides the application's state: the logo and its
/// size, the size of the tile icons, and the firmware's version and build
/// time for the settings screen.
pub struct DrawAssets<'b> {
    pub logo: SleepWallpaperIcons<'b>,
    pub icon_size: i32,
    pub version: &'b str,
    pub build_time: &'b str,
}

/// Assets the screens can be drawn with without overflow.
pub open spec fn assets_ok(a: DrawAssets) -> bool {
    &&& logo_ok(a.logo)
    &&& a.logo.logo_h as int <= i32::MAX - 200
    &&& a.icon_size as int >= 0
}

/// The steps that carry out a refresh of the start menu or the settings
/// screen.
pub open spec fn flush_steps(f: ScreenFlush) -> Seq<PanelStepKind> {
    match f {
        ScreenFlush::Grayscale => seq![
            PanelStepKind::MergeBlack,
            PanelStepKind::Grayscale { absolute: true },
            PanelStepKind::CopyActiveToInactive,
        ],
        ScreenFlush::Queue { rects, fallback } => seq![PanelStepKind::Queue { rects: rects@, fallback }],
    }
}

/// The content of a panel step.
pub enum PanelStepKind {
    Draw(Seq<MenuDrawView>),
    Texts(Seq<(i32, i32, Seq<char>)>),
    List(ListScreenView),
    Queue { rects: Seq<(Rect, RefreshMode)>, fallback: RefreshMode },
    Show(RefreshMode),
    MergeBlack,
    Grayscale { absolute: bool },
    CopyActiveToInactive,
}

impl View for PanelStep {
    type V = PanelStepKind;

    open spec fn view(&self) -> PanelStepKind {
        match self {
            PanelStep::Draw(ops) => PanelStepKind::Draw(draw_views(ops@)),
            PanelStep::Texts(t) => PanelStepKind::Texts(fallback_views(t@)),
            PanelStep::List(l) => PanelStepKind::List(l@),
            PanelStep::Queue { rects, fallback } => PanelStepKind::Queue { rects: rects@, fallback: *fallback },
            PanelStep::Show(m) => PanelStepKind::Show(*m),
            PanelStep::MergeBlack => PanelStepKind::MergeBlack,
            PanelStep::Grayscale { absolute } => PanelStepKind::Grayscale { absolute: *absolute },
            PanelStep::CopyActiveToInactive => PanelStepKind::CopyActiveToInactive,
        }
    }
}

pub open spec fn step_views(s: Seq<PanelStep>) -> Seq<PanelStepKind> {
    Seq::new(s.len(), |i: int| s[i]@)
}

/// The image viewer's screen: drawn from `image` over `before` (after a
/// wake only a fast refresh of the whole screen), giving the buffer
/// `after`, the grayscale planes `lsb`/`msb`, the state `state` and the
/// panel steps `steps`. A 2-bit image is fitted to the screen in the buffer
/// and the planes and shown in grayscale; a 1-bit or 8-bit one is drawn and
/// refreshed in full; a missing or oversized one gives the error screen. A
/// streamed image is loaded by the storage and is not described here.
#[verifier::opaque]
pub open spec fn viewer_frame(
    image: Option<ImageData>,
    wake_restore_only: bool,
    before: DisplayBuffers,
    after: Seq<u8>,
    lsb: Seq<u8>,
    msb: Seq<u8>,
    state: AppState,
    steps: Seq<PanelStepKind>,
) -> bool {
    let rot = before.spec_rotation();
    let full = Rect { x: 0, y: 0, w: screen_size(before).0 as i32, h: screen_size(before).1 as i32 };
    if !gray2_fits(image, before) {
        steps == Seq::<PanelStepKind>::empty() && state == AppState::Error
    } else if wake_restore_only {
        steps == seq![PanelStepKind::Queue { rects: seq![(full, RefreshMode::Fast)], fallback: RefreshMode::Fast }]
    } else {
        match image {
            None => steps == Seq::<PanelStepKind>::empty() && state == AppState::Error,
            Some(ImageData::Gray2 { width, height, data }) => {
                let p = image_plane_len(width, height);
                if data@.len() < 3 * p {
                    steps == Seq::<PanelStepKind>::empty()
                } else {
                    &&& steps == seq![PanelStepKind::Grayscale { absolute: true }]
                    &&& contain_drawn(
                        rot,
                        Seq::new(BUFFER_SIZE as nat, |i: int| 0xFFu8),
                        after,
                        Seq::new(BUFFER_SIZE as nat, |i: int| 0u8),
                        lsb,
                        Seq::new(BUFFER_SIZE as nat, |i: int| 0u8),
                        msb,
                        width,
                        height,
                        data@.subrange(0, p),
                        data@.subrange(p, 2 * p),
                        data@.subrange(2 * p, 3 * p),
                    )
                }
            },
            Some(ImageData::Gray2Stream { .. }) => true,
            Some(img) => if wallpaper_ok(img, rot) {
                &&& steps == seq![PanelStepKind::Queue { rects: seq![(full, RefreshMode::Full)], fallback: RefreshMode::Full }]
                &&& image_view_drawn(rot, after, img)
            } else {
                steps == Seq::<PanelStepKind>::empty() && state == AppState::Error
            },
        }
    }
}

/// The panel steps for a drawn book page: its texts for the built-in font,
/// its page counter when there is one, then its refresh.
pub open spec fn book_frame_steps(f: BookFrame) -> Seq<PanelStepKind> {
    seq![PanelStepKind::Texts(fallback_views(f.fallback@))] + match f.indicator {
        Some(op) => seq![PanelStepKind::Draw(draw_views(seq![op]))],
        None => Seq::<PanelStepKind>::empty(),
    } + match f.flush {
        BookFlush::Grayscale { mode, absolute } => seq![
            PanelStepKind::Show(mode),
            PanelStepKind::Grayscale { absolute },
        ],
        BookFlush::Queue { rect, mode } => seq![
            PanelStepKind::Queue { rects: seq![(rect, mode)], fallback: mode },
        ],
    }
}

/// Appends the steps of a start menu or settings refresh.
fn push_flush_steps(steps: &mut Vec<PanelStep>, f: ScreenFlush)
    ensures
        step_views(final(steps)@) == step_views(old(steps)@) + flush_steps(f),
{
    let ghost fv = flush_steps(f);
    match f {
        ScreenFlush::Grayscale => {
            steps.push(PanelStep::MergeBlack);
            steps.push(PanelStep::Grayscale { absolute: true });
            steps.push(PanelStep::CopyActiveToInactive);
        },
        ScreenFlush::Queue { rects, fallback } => {
            steps.push(PanelStep::Queue { rects, fallback });
        },
    }
    assert(step_views(steps@) =~= step_views(old(steps)@) + fv);
}

/// Whether a thumbnail image can be scaled without overflow: an 8-bit one
/// needs sides within the `i32` range.
pub open spec fn thumb_image_ok(image: ImageData) -> bool {
    match image {
        ImageData::Gray8 { width, height, .. } => width <= i32::MAX && height <= i32::MAX,
        _ => true,
    }
}

/// Whether an icon of `w` by `h` pixels at (`x`, `y`) is drawn: sides of at
/// most 46340 pixels (so that its bit count fits), within the `i32` range.
pub open spec fn icon_drawable(x: int, y: int, w: int, h: int) -> bool {
    &&& 0 <= w <= 46340
    &&& 0 <= h <= 46340
    &&& x + (if w > 1 { w } else { 1 }) <= i32::MAX
    &&& y + (if h > 1 { h } else { 1 }) <= i32::MAX
}

/// Whether a span of `n` pixels (at least one) from `start` ends within
/// the `i32` range.
fn span_fits(start: i32, n: i32) -> (r: bool)
    ensures
        r == (start as int + (if n > 1 {
            n as int
        } else {
            1
        }) <= i32::MAX),
{
    let len: i64 = if n > 1 {
        n as i64
    } else {
        1
    };
    (start as i64) + len <= i32::MAX as i64
}

/// The whole screen of the buffers as one rectangle refreshed in `mode`.
fn whole_screen_step(buffers: &DisplayBuffers, mode: RefreshMode) -> (r: PanelStep)
    ensures
        r@ == (PanelStepKind::Queue { rects: whole_screen(*buffers, mode, mode).0, fallback: mode }),
{
    let rects = vec![(full_rect(buffers), mode)];
    assert(rects@ =~= whole_screen(*buffers, mode, mode).0);
    PanelStep::Queue { rects, fallback: mode }
}

impl<'a, S: AppSource> Application<'a, S> {
    pub closed spec fn spec_phase(&self) -> DrawPhase {
        self.phase
    }

    pub closed spec fn spec_full_refresh(&self) -> bool {
        self.system.full_refresh
    }

    pub closed spec fn spec_buffers(&self) -> DisplayBuffers {
        *self.display_buffers
    }

    pub closed spec fn spec_planes(&self) -> GrayPlanes {
        self.gray2
    }

    /// Whether the internal invariant holds (the panel's buffers and planes
    /// have their sizes), for callers outside the verified code.
    pub fn check_wf(&self) -> (r: bool)
        ensures
            r == self.wf(),
    {
        self.display_buffers.check_wf() && self.system.book_positions.check_wf() && self.gray2.lsb.len()
            == BUFFER_SIZE && self.gray2.msb.len() == BUFFER_SIZE
    }

    /// The display buffers, for drawing text and boxes into them.
    pub fn buffers_mut(&mut self) -> &mut DisplayBuffers {
        self.display_buffers
    }

    /// The grayscale planes, for sending them to the panel.
    pub fn gray_planes(&self) -> &GrayPlanes {
        &self.gray2
    }

    /// Adds the black pixels of the frame to the grayscale planes.
    pub fn merge_black_into_planes(&mut self)
        requires
            old(self).wf(),
        ensures
            final(self).wf(),
            final(self).spec_state() == old(self).spec_state(),
            final(self).spec_phase() == old(self).spec_phase(),
            final(self).spec_buffers() == old(self).spec_buffers(),
            final(self).spec_planes().used == old(self).spec_planes().used,
            final(self).spec_planes().lsb@ == merged_plane(
                old(self).spec_planes().lsb@,
                old(self).spec_buffers().active_view(),
            ),
            final(self).spec_planes().msb@ == merged_plane(
                old(self).spec_planes().msb@,
                old(self).spec_buffers().active_view(),
            ),
    {
        merge_bw_into_gray2(self.display_buffers, self.gray2.lsb.as_mut_slice(), self.gray2.msb.as_mut_slice());
    }

    /// Draws the thumbnail of the `index`-th start menu preview into a
    /// square at (`x`, `y`): as 1-bit when it converts to that, else in
    /// grayscale into the planes.
    pub fn draw_thumbnail(&mut self, index: usize, x: i32, y: i32, size: i32)
        requires
            old(self).wf(),
        ensures
            final(self).wf(),
            final(self).spec_state() == old(self).spec_state(),
            final(self).spec_phase() == old(self).spec_phase(),
            final(self).spec_home() == old(self).spec_home(),
            ({
                let cache = old(self).spec_home().start_menu_cache@;
                let ob = old(self).spec_buffers();
                let nb = final(self).spec_buffers();
                let op = old(self).spec_planes();
                let np = final(self).spec_planes();
                let span = if size > 1 {
                    size as int
                } else {
                    1
                };
                let drawable = index < cache.len() && x + span <= i32::MAX && y + span <= i32::MAX
                    && cache[index as int].image is Some && thumb_image_ok(cache[index as int].image->0);
                if !drawable {
                    nb == ob && np == op
                } else {
                    let image = cache[index as int].image->0;
                    &&& nb.inactive_view() == ob.inactive_view()
                    &&& nb.spec_rotation() == ob.spec_rotation()
                    &&& nb.spec_active_flag() == ob.spec_active_flag()
                    &&& if pixel_count(image@) + 7 <= usize::MAX && spec_to_mono_some(image@) {
                        &&& np == op
                        &&& exists|m: ImageData|
                            mono_of(image@, m@) && trbk_image_drawn(
                                ob.spec_rotation(),
                                ob.active_view(),
                                nb.active_view(),
                                m,
                                None,
                                None,
                                x,
                                y,
                                size,
                                size,
                            )
                    } else {
                        trbk_image_drawn(
                            ob.spec_rotation(),
                            ob.active_view(),
                            nb.active_view(),
                            image,
                            Some(op),
                            Some(np),
                            x,
                            y,
                            size,
                            size,
                        )
                    }
                }
            }),
    {
        if index >= self.home.start_menu_cache.len() || !span_fits(x, size) || !span_fits(y, size) {
            return;
        }
        let image = match &self.home.start_menu_cache[index].image {
            Some(image) => image,
            None => return,
        };
        match image {
            ImageData::Gray8 { width, height, .. } => {
                if *width > i32::MAX as u32 || *height > i32::MAX as u32 {
                    return;
                }
            },
            _ => {},
        }
        if crate::app::thumbnail::check_pixel_count(image) {
            match thumbnail_to_mono(image) {
                Some(mono) => {
                    assert(mono_of(image@, mono@));
                    let mut none: Option<GrayPlanes> = None;
                    draw_trbk_image(self.display_buffers, &mono, &mut none, x, y, size, size);
                    return;
                },
                None => {},
            }
        }
        let mut held = GrayPlanes { lsb: Vec::new(), msb: Vec::new(), used: false };
        std::mem::swap(&mut held, &mut self.gray2);
        let mut slot = Some(held);
        draw_trbk_image(self.display_buffers, image, &mut slot, x, y, size, size);
        match slot {
            Some(p) => {
                self.gray2 = p;
            },
            None => {},
        }
    }

    /// Draws a two-mask icon of `size` at (`x`, `y`) (see `draw_icon_gray2`).
    pub fn draw_icon(&mut self, x: i32, y: i32, size: i32, dark: &[u8], light: &[u8])
        requires
            old(self).wf(),
        ensures
            final(self).wf(),
            final(self).spec_state() == old(self).spec_state(),
            final(self).spec_phase() == old(self).spec_phase(),
            ({
                let ob = old(self).spec_buffers();
                let nb = final(self).spec_buffers();
                let op = old(self).spec_planes();
                let np = final(self).spec_planes();
                if icon_drawable(x as int, y as int, size as int, size as int) && icon_fits(dark@, light@, size as int, size as int) {
                    &&& icon_drawn(
                        ob.spec_rotation(),
                        ob.active_view(),
                        nb.active_view(),
                        op.lsb@,
                        np.lsb@,
                        op.msb@,
                        np.msb@,
                        op.used,
                        np.used,
                        x as int,
                        y as int,
                        size as int,
                        size as int,
                        dark@,
                        light@,
                    )
                    &&& nb.inactive_view() == ob.inactive_view()
                    &&& nb.spec_rotation() == ob.spec_rotation()
                    &&& nb.spec_active_flag() == ob.spec_active_flag()
                } else {
                    nb == ob && np == op
                }
            }),
    {
        if size < 0 || size > 46340 || !span_fits(x, size) || !span_fits(y, size) {
            return;
        }
        proof {
            assert(size as int * size as int + 7 <= 46340 * 46340 + 7) by (nonlinear_arith)
                requires
                    0 <= size <= 46340,
            ;
        }
        draw_icon_gray2(self.display_buffers, &mut self.gray2, x, y, size, size, dark, light);
    }

    /// Draws the logo with its top-left corner at (`x`, `y`).
    pub fn draw_logo(&mut self, logo: &SleepWallpaperIcons, x: i32, y: i32)
        requires
            old(self).wf(),
        ensures
            final(self).wf(),
            final(self).spec_state() == old(self).spec_state(),
            final(self).spec_phase() == old(self).spec_phase(),
            ({
                let ob = old(self).spec_buffers();
                let nb = final(self).spec_buffers();
                let op = old(self).spec_planes();
                let np = final(self).spec_planes();
                if icon_drawable(x as int, y as int, logo.logo_w as int, logo.logo_h as int) && icon_fits(logo.logo_dark@, logo.logo_light@, logo.logo_w as int, logo.logo_h as int) {
                    &&& icon_drawn(
                        ob.spec_rotation(),
                        ob.active_view(),
                        nb.active_view(),
                        op.lsb@,
                        np.lsb@,
                        op.msb@,
                        np.msb@,
                        op.used,
                        np.used,
                        x as int,
                        y as int,
                        logo.logo_w as int,
                        logo.logo_h as int,
                        logo.logo_dark@,
                        logo.logo_light@,
                    )
                    &&& nb.inactive_view() == ob.inactive_view()
                    &&& nb.spec_rotation() == ob.spec_rotation()
                    &&& nb.spec_active_flag() == ob.spec_active_flag()
                } else {
                    nb == ob && np == op
                }
            }),
    {
        if logo.logo_w < 0 || logo.logo_h < 0 || !span_fits(x, logo.logo_w) || !span_fits(y, logo.logo_h)
            || logo.logo_w > 46340 || logo.logo_h > 46340 {
            return;
        }
        proof {
            assert(logo.logo_w as int * logo.logo_h as int + 7 <= 46340 * 46340 + 7) by (nonlinear_arith)
                requires
                    0 <= logo.logo_w <= 46340,
                    0 <= logo.logo_h <= 46340,
            ;
        }
        draw_icon_gray2(
            self.display_buffers,
            &mut self.gray2,
            x,
            y,
            logo.logo_w,
            logo.logo_h,
            logo.logo_dark,
            logo.logo_light,
        );
    }

    /// The USB dialog: title, message and footer on a white screen, shown
    /// in full.
    pub fn draw_usb_modal(&mut self, title: &str, message: &str, footer: &str) -> (r: Vec<PanelStep>)
        requires
            old(self).wf(),
        ensures
            final(self).wf(),
            step_views(r@) == seq![
                PanelStepKind::Draw(
                    seq![
                        MenuDrawView::Text { x: 16, y: 24, text: title@, on: false },
                        MenuDrawView::Text { x: 16, y: 60, text: message@, on: false },
                        MenuDrawView::Text { x: 16, y: 100, text: footer@, on: false },
                    ],
                ),
                PanelStepKind::Show(RefreshMode::Full),
            ],
    {
        self.display_buffers.clear_screen(0xFF);
        let ops = usb_modal_ops(title, message, footer);
        let steps = vec![PanelStep::Draw(ops), PanelStep::Show(RefreshMode::Full)];
        assert(step_views(steps@) =~= seq![steps@[0]@, steps@[1]@]);
        steps
    }
}


/// The steps of a single refresh of `rect` in `mode`.
fn rect_step(rect: Rect, mode: RefreshMode) -> (r: PanelStep)
    ensures
        r@ == (PanelStepKind::Queue { rects: seq![(rect, mode)], fallback: mode }),
{
    let rects = vec![(rect, mode)];
    assert(rects@ =~= seq![(rect, mode)]);
    PanelStep::Queue { rects, fallback: mode }
}

impl<'a, S: AppSource> Application<'a, S> {
    /// Where drawing goes after the image or the page was shown: the exit
    /// notice when leaving, else the end of the redraw.
    fn after_view(&self) -> (r: DrawPhase)
        ensures
            r == if self.exit_pass {
                DrawPhase::ExitOverlay
            } else {
                DrawPhase::Finish
            },
    {
        if self.exit_pass {
            DrawPhase::ExitOverlay
        } else {
            DrawPhase::Finish
        }
    }

    /// Ends a redraw: a full refresh is no longer owed, and an error that
    /// asked for sleep turns into the sleep screen.
    fn finish_draw(&mut self)
        requires
            old(self).wf(),
        ensures
            final(self).wf(),
            final(self).phase == DrawPhase::Idle,
            !final(self).system.full_refresh,
            old(self).state == AppState::Error && old(self).system.sleep_after_error ==> {
                &&& final(self).state == AppState::Sleeping
                &&& !final(self).system.sleep_after_error
                &&& final(self).system.sleep_overlay_pending
                &&& final(self).dirty
            },
            !(old(self).state == AppState::Error && old(self).system.sleep_after_error) ==> {
                &&& final(self).state == old(self).state
                &&& final(self).dirty == old(self).dirty
            },
    {
        self.system.full_refresh = false;
        if self.state == AppState::Error && self.system.sleep_after_error {
            self.system.sleep_after_error = false;
            self.state = AppState::Sleeping;
            self.system.start_sleep_overlay();
            self.dirty = true;
        }
        self.phase = DrawPhase::Idle;
    }

    /// Draws the start menu (its previews brought up to date first) on a
    /// white screen with cleared planes; the selection is left out when
    /// `suppress`.
    fn start_menu_contents(&mut self, suppress: bool, assets: &DrawAssets, next: DrawPhase) -> (r: Vec<
        PanelStep,
    >)
        requires
            old(self).wf(),
            assets_ok(*assets),
        ensures
            final(self).wf(),
            final(self).phase == next,
            final(self).state == old(self).state,
            final(self).home == old(self).home,
            final(self).system == old(self).system,
            step_views(r@) == seq![PanelStepKind::Draw(start_menu_view(old(self)@, suppress, assets.icon_size))],
            final(self).display_buffers.active_view() == Seq::new(BUFFER_SIZE as nat, |i: int| 0xFFu8),
            final(self).display_buffers.spec_rotation() == old(self).display_buffers.spec_rotation(),
            !final(self).gray2.used,
    {
        self.display_buffers.clear_screen(0xFF);
        self.gray2.clear();
        self.gray2.used = false;
        let l = start_menu_layout(self.display_buffers);
        let (ops, _count) = self.home.start_menu_ops(&l, suppress, self.system.battery_percent, assets.icon_size);
        self.phase = next;
        let r = vec![PanelStep::Draw(ops)];
        assert(step_views(r@) =~= seq![PanelStepKind::Draw(start_menu_view(old(self)@, suppress, assets.icon_size))]);
        r
    }


    /// The page of the open book, its texts and counter, and its refresh.
    #[verifier::spinoff_prover]
    #[verifier::rlimit(100)]
    fn book_page(&mut self) -> (r: Vec<PanelStep>)
        requires
            old(self).wf(),
        ensures
            final(self).wf(),
            final(self).phase == DrawPhase::BookPrefetch || final(self).phase == if old(self).exit_pass {
                DrawPhase::ExitOverlay
            } else {
                DrawPhase::Finish
            },
            final(self).exit_pass == old(self).exit_pass,
            old(self).book_reader.current_book is None ==> step_views(r@) == Seq::<PanelStepKind>::empty()
                && final(self).state == AppState::Error,
            old(self).book_reader.current_book is Some ==> exists|f: BookFrame|
                #[trigger] book_drawn(
                    old(self).book_reader,
                    final(self).book_reader,
                    *old(self).display_buffers,
                    *final(self).display_buffers,
                    old(self).gray2,
                    final(self).gray2,
                    old(self).system.full_refresh,
                    final(self).system.full_refresh,
                    Ok(f),
                ) && step_views(r@) == book_frame_steps(f),
    {
        let ghost b0 = self.book_reader;
        let ghost d0 = *self.display_buffers;
        let ghost g0 = self.gray2;
        let ghost r0 = self.system.full_refresh;
        match self.book_reader.draw_book(self.source, self.display_buffers, &mut self.gray2, &mut self.system.full_refresh) {
            Ok(frame) => {
                let ghost f = frame;
                let mut steps: Vec<PanelStep> = Vec::new();
                steps.push(PanelStep::Texts(frame.fallback));
                assert(step_views(steps@) =~= seq![PanelStepKind::Texts(fallback_views(f.fallback@))]);
                let ghost s1 = step_views(steps@);
                let ghost ind: Seq<PanelStepKind> = match f.indicator {
                    Some(op) => seq![PanelStepKind::Draw(draw_views(seq![op]))],
                    None => Seq::<PanelStepKind>::empty(),
                };
                match frame.indicator {
                    Some(op) => {
                        let ops = vec![op];
                        assert(ops@ =~= seq![op]);
                        steps.push(PanelStep::Draw(ops));
                        assert(step_views(steps@) =~= s1 + ind);
                    },
                    None => {
                        assert(step_views(steps@) =~= s1 + ind);
                    },
                }
                let ghost s2 = step_views(steps@);
                match frame.flush {
                    BookFlush::Grayscale { mode, absolute } => {
                        steps.push(PanelStep::Show(mode));
                        steps.push(PanelStep::Grayscale { absolute });
                        assert(step_views(steps@) =~= s2 + seq![
                            PanelStepKind::Show(mode),
                            PanelStepKind::Grayscale { absolute },
                        ]);
                    },
                    BookFlush::Queue { rect, mode } => {
                        steps.push(rect_step(rect, mode));
                        assert(step_views(steps@) =~= s2 + seq![
                            PanelStepKind::Queue { rects: seq![(rect, mode)], fallback: mode },
                        ]);
                    },
                }
                self.phase = DrawPhase::BookPrefetch;
                assert(step_views(steps@) =~= book_frame_steps(f));
                assert(book_drawn(
                    b0,
                    self.book_reader,
                    d0,
                    *self.display_buffers,
                    g0,
                    self.gray2,
                    r0,
                    self.system.full_refresh,
                    Ok(f),
                ));
                steps
            },
            Err(e) => {
                self.set_error(e);
                self.phase = self.after_view();
                let empty: Vec<PanelStep> = Vec::new();
                assert(step_views(empty@) =~= Seq::<PanelStepKind>::empty());
                empty
            },
        }
    }

    /// The next page drawn ahead, with its texts and counter.
    fn book_prefetch(&mut self) -> (r: Vec<PanelStep>)
        requires
            old(self).wf(),
        ensures
            final(self).wf(),
            final(self).phase == if old(self).exit_pass {
                DrawPhase::ExitOverlay
            } else {
                DrawPhase::Finish
            },
            final(self).exit_pass == old(self).exit_pass,
            final(self).state == old(self).state,
    {
        let mut steps: Vec<PanelStep> = Vec::new();
        match self.book_reader.prefetch_next_page(self.source, self.display_buffers, &mut self.gray2) {
            Some(t) => {
                steps.push(PanelStep::Texts(t.fallback));
                match t.indicator {
                    Some(op) => {
                        steps.push(PanelStep::Draw(vec![op]));
                    },
                    None => {},
                }
            },
            None => {},
        }
        self.phase = self.after_view();
        steps
    }

    /// The shown image and its refresh.
    #[verifier::spinoff_prover]
    #[verifier::rlimit(100)]
    fn viewer_steps(&mut self) -> (r: Vec<PanelStep>)
        requires
            old(self).wf(),
        ensures
            final(self).wf(),
            final(self).phase == if old(self).exit_pass {
                DrawPhase::ExitOverlay
            } else {
                DrawPhase::Finish
            },
            final(self).exit_pass == old(self).exit_pass,
            viewer_frame(
                old(self).image_viewer.image(),
                old(self).system.wake_restore_only,
                *old(self).display_buffers,
                final(self).display_buffers.active_view(),
                final(self).gray2.lsb@,
                final(self).gray2.msb@,
                final(self).state,
                step_views(r@),
            ),
    {
        reveal(viewer_frame);
        self.phase = self.after_view();
        let empty: Vec<PanelStep> = Vec::new();
        assert(step_views(empty@) =~= Seq::<PanelStepKind>::empty());
        if !self.image_viewer.check_gray2_fits(self.display_buffers) {
            self.set_error(ImageError::Decode);
            return empty;
        }
        let full = full_rect(self.display_buffers);
        match self.image_viewer.draw(
            self.display_buffers,
            &mut self.gray2,
            self.source,
            &mut self.system.wake_restore_only,
        ) {
            Ok(ViewerFrame::RestoreOnly) => {
                let r = vec![rect_step(full, RefreshMode::Fast)];
                assert(step_views(r@) =~= seq![r@[0]@]);
                r
            },
            Ok(ViewerFrame::Nothing) => empty,
            Ok(ViewerFrame::Grayscale) => {
                let r = vec![PanelStep::Grayscale { absolute: true }];
                assert(step_views(r@) =~= seq![PanelStepKind::Grayscale { absolute: true }]);
                r
            },
            Ok(ViewerFrame::Plain) => {
                match self.image_viewer.take_image() {
                    Some(image) => {
                        let ok = check_wallpaper(&image, self.display_buffers);
                        if ok {
                            let reader = ReaderView::new(&image);
                            let _ = reader.render(self.display_buffers, full);
                        }
                        self.image_viewer.restore_image(image);
                        if ok {
                            let r = vec![rect_step(full, RefreshMode::Full)];
                            assert(step_views(r@) =~= seq![r@[0]@]);
                            r
                        } else {
                            self.set_error(ImageError::Decode);
                            empty
                        }
                    },
                    None => empty,
                }
            },
            Err(e) => {
                self.set_error(e);
                empty
            },
        }
    }

    /// The sleep screen over the wallpaper, when it is pending.
    fn sleep_overlay_steps(&mut self, assets: &DrawAssets) -> (r: Vec<PanelStep>)
        requires
            old(self).wf(),
            assets_ok(*assets),
        ensures
            final(self).wf(),
            final(self).phase == DrawPhase::Finish,
            final(self).state == old(self).state,
    {
        let is_start_menu = self.state == AppState::StartMenu;
        let frame = self.system.process_sleep_overlay(
            self.source,
            self.display_buffers,
            &mut self.gray2,
            &mut self.image_viewer,
            &self.book_reader,
            self.last_viewed_entry.as_ref(),
            is_start_menu,
            &assets.logo,
        );
        match frame {
            Some(f) => {
                let mut steps: Vec<PanelStep> = Vec::new();
                steps.push(PanelStep::Draw(f.ops));
                steps.push(rect_step(f.rect, RefreshMode::Full));
                if f.gray2 {
                    steps.push(PanelStep::Grayscale { absolute: true });
                    steps.push(PanelStep::CopyActiveToInactive);
                }
                self.phase = DrawPhase::Finish;
                steps
            },
            None => {
                self.phase = DrawPhase::Finish;
                Vec::new()
            },
        }
    }

    /// Saves the state before sleep; when that works the sleep screen
    /// follows, else the error screen is asked for.
    fn sleep_save(&mut self, assets: &DrawAssets) -> (r: Vec<PanelStep>)
        requires
            old(self).wf(),
            assets_ok(*assets),
        ensures
            final(self).wf(),
            final(self).phase == DrawPhase::Finish,
    {
        let in_start_menu = self.state == AppState::StartMenu;
        let home_current_entry = self.home.current_entry_name_owned();
        let outcome = self.system.save_resume_checked(
            ResumeContext {
                source: self.source,
                resume_debug: "",
                in_start_menu,
                current_entry: self.current_entry.as_ref(),
                last_viewed_entry: self.last_viewed_entry.as_ref(),
                home_current_entry,
                book_reader: &self.book_reader,
            },
        );
        match outcome {
            SaveResumeOutcome::Saved => {
                self.state = AppState::Sleeping;
                self.system.start_sleep_overlay();
                self.sleep_overlay_steps(assets)
            },
            SaveResumeOutcome::Error(message) => {
                self.set_state_error_message(message);
                self.phase = DrawPhase::Finish;
                Vec::new()
            },
        }
    }

    /// Starts redrawing the screen of the current state.
    #[verifier::spinoff_prover]
    fn begin_screen(&mut self, assets: &DrawAssets) -> (r: Vec<PanelStep>)
        requires
            old(self).wf(),
            assets_ok(*assets),
            old(self).phase == DrawPhase::Idle,
        ensures
            final(self).wf(),
            final(self).phase != DrawPhase::Idle || old(self).state == AppState::ExitingPending,
            old(self).state == AppState::Error ==> {
                &&& step_views(r@) == seq![
                    PanelStepKind::Draw(error_ops(old(self).spec_error_message())),
                    PanelStepKind::Queue {
                        rects: whole_screen(*old(self).display_buffers, RefreshMode::Full, RefreshMode::Full).0,
                        fallback: RefreshMode::Full,
                    },
                ]
                &&& final(self).phase == DrawPhase::Finish
            },
            old(self).state == AppState::Menu ==> {
                &&& step_views(r@) == seq![
                    PanelStepKind::List(menu_list(old(self).home, old(self).system.full_refresh)),
                ]
                &&& final(self).phase == DrawPhase::Finish
            },
            old(self).state == AppState::StartMenu ==> {
                let h = final(self).home;
                &&& h.entries == old(self).home.entries
                &&& h.path == old(self).home.path
                &&& h.selected == old(self).home.selected
                &&& step_views(r@) == seq![
                    PanelStepKind::Draw(
                        start_menu_view(final(self)@, h.start_menu_need_base_refresh, assets.icon_size),
                    ),
                ]
                &&& final(self).phase == if h.start_menu_need_base_refresh {
                    DrawPhase::StartMenuBase
                } else {
                    DrawPhase::StartMenuFlush
                }
            },
            old(self).state == AppState::Viewing ==> viewer_frame(
                old(self).image_viewer.image(),
                old(self).system.wake_restore_only,
                *old(self).display_buffers,
                final(self).display_buffers.active_view(),
                final(self).gray2.lsb@,
                final(self).gray2.msb@,
                final(self).state,
                step_views(r@),
            ),
            old(self).state == AppState::BookViewing && old(self).book_reader.page_turn_indicator is None
                ==> {
                &&& old(self).book_reader.current_book is None ==> step_views(r@) == Seq::<
                    PanelStepKind,
                >::empty() && final(self).state == AppState::Error
                &&& old(self).book_reader.current_book is Some ==> exists|f: BookFrame|
                    #[trigger] book_drawn(
                        old(self).book_reader,
                        final(self).book_reader,
                        *old(self).display_buffers,
                        *final(self).display_buffers,
                        old(self).gray2,
                        final(self).gray2,
                        old(self).system.full_refresh,
                        final(self).system.full_refresh,
                        Ok(f),
                    ) && step_views(r@) == book_frame_steps(f)
            },
            old(self).state == AppState::BookViewing && old(self).book_reader.page_turn_indicator is Some
                ==> {
                let mark = CornerMark::Turn(old(self).book_reader.page_turn_indicator->0);
                let x = mark_x(mark, screen_size(*old(self).display_buffers).0);
                let t = mark_text(mark);
                &&& step_views(r@) == seq![
                    PanelStepKind::Draw(seq![
                        MenuDrawView::Text { x: x as i32, y: PAGE_INDICATOR_Y, text: t, on: false },
                        MenuDrawView::Text { x: (x + 1) as i32, y: PAGE_INDICATOR_Y, text: t, on: false },
                    ]),
                    PanelStepKind::Queue {
                        rects: seq![
                            (
                                Rect {
                                    x: (x - 2) as i32,
                                    y: (PAGE_INDICATOR_Y - 2) as i32,
                                    w: (t.len() * 10 + 4) as i32,
                                    h: 22,
                                },
                                RefreshMode::Fast,
                            ),
                        ],
                        fallback: RefreshMode::Fast,
                    },
                ]
                &&& final(self).display_buffers.active_view() == old(self).display_buffers.inactive_view()
                &&& final(self).book_reader.page_turn_indicator is None
                &&& final(self).phase == DrawPhase::BookPage
            },
    {
        match self.state {
            AppState::StartMenu => {
                let recents = self.system.collect_recent_paths(self.last_viewed_entry.as_ref());
                self.home.ensure_start_menu_cache(self.source, recents.as_slice());
                if self.home.start_menu_need_base_refresh {
                    self.start_menu_contents(true, assets, DrawPhase::StartMenuBase)
                } else {
                    self.start_menu_contents(false, assets, DrawPhase::StartMenuFlush)
                }
            },
            AppState::Settings => {
                self.display_buffers.clear_screen(0xFF);
                self.gray2.used = false;
                let ops = settings_ops(
                    self.display_buffers,
                    assets.logo.logo_w,
                    assets.logo.logo_h,
                    assets.version,
                    assets.build_time,
                );
                self.phase = DrawPhase::SettingsFlush;
                vec![PanelStep::Draw(ops)]
            },
            AppState::Menu => {
                let list = self.home.draw_menu(self.system.full_refresh);
                self.phase = DrawPhase::Finish;
                vec![PanelStep::List(list)]
            },
            AppState::Viewing => {
                self.exit_pass = false;
                self.viewer_steps()
            },
            AppState::BookViewing => {
                self.exit_pass = false;
                match self.book_reader.take_page_turn_indicator() {
                    Some(indicator) => {
                        self.display_buffers.copy_inactive_to_active();
                        let (ops, rect) = corner_mark_ops(self.display_buffers, CornerMark::Turn(indicator));
                        self.phase = DrawPhase::BookPage;
                        vec![PanelStep::Draw(ops), rect_step(rect, RefreshMode::Fast)]
                    },
                    None => self.book_page(),
                }
            },
            AppState::ExitingPending => {
                if !self.exit_overlay_drawn {
                    self.exit_pass = true;
                    match self.exit_from {
                        ExitFrom::Image => self.viewer_steps(),
                        ExitFrom::Book => self.book_page(),
                    }
                } else {
                    match self.exit_from {
                        ExitFrom::Image => self.exit_image(),
                        ExitFrom::Book => self.exit_book(),
                    }
                    self.state = AppState::StartMenu;
                    self.home.start_menu_cache.clear();
                    self.set_state_start_menu(true);
                    self.phase = DrawPhase::Finish;
                    Vec::new()
                }
            },
            AppState::Toc => {
                self.phase = DrawPhase::Finish;
                match self.book_reader.draw_toc(self.display_buffers, self.system.full_refresh) {
                    Ok(list) => vec![PanelStep::List(list)],
                    Err(e) => {
                        self.set_error(e);
                        Vec::new()
                    },
                }
            },
            AppState::SleepingPending => {
                self.display_buffers.copy_inactive_to_active();
                let (ops, rect) = corner_mark_ops(self.display_buffers, CornerMark::Sleeping);
                self.phase = DrawPhase::SleepSave;
                vec![PanelStep::Draw(ops), rect_step(rect, RefreshMode::Fast)]
            },
            AppState::Sleeping => self.sleep_overlay_steps(assets),
            AppState::Error => {
                self.display_buffers.clear_screen(0xFF);
                let ops = error_screen_ops(self.error_message.as_ref());
                let step = whole_screen_step(self.display_buffers, RefreshMode::Full);
                self.phase = DrawPhase::Finish;
                let steps = vec![PanelStep::Draw(ops), step];
                assert(step_views(steps@) =~= seq![steps@[0]@, steps@[1]@]);
                steps
            },
        }
    }

    /// Advances the redraw of the screen by one stage and answers what the
    /// panel is to do next, in order; `None` once the redraw is complete
    /// (or when nothing needs redrawing). The stages after the first come
    /// where the screen is drawn further over what was just shown: the
    /// start menu's selection over its base, the next page ahead after the
    /// current one, the exit notice over the viewer, and the sleep screen
    /// after the sleep mark.
    #[verifier::spinoff_prover]
    pub fn draw(&mut self, assets: &DrawAssets) -> (r: Option<Vec<PanelStep>>)
        requires
            old(self).wf(),
            assets_ok(*assets),
        ensures
            final(self).wf(),
            r is None ==> final(self).spec_phase() == DrawPhase::Idle,
            old(self).spec_phase() == DrawPhase::Idle && !old(self).spec_dirty() ==> r is None
                && *final(self) == *old(self),
            old(self).spec_phase() == DrawPhase::Finish ==> r is None && !final(self).spec_full_refresh(),
            old(self).spec_phase() == DrawPhase::Idle && old(self).spec_dirty() ==> {
                &&& r is Some
                &&& old(self).spec_state() == AppState::Error ==> (r matches Some(steps) && step_views(steps@)
                    == seq![
                    PanelStepKind::Draw(error_ops(old(self).spec_error_message())),
                    PanelStepKind::Queue {
                        rects: whole_screen(old(self).spec_buffers(), RefreshMode::Full, RefreshMode::Full).0,
                        fallback: RefreshMode::Full,
                    },
                ])
                &&& old(self).spec_state() == AppState::Menu ==> (r matches Some(steps) && step_views(steps@)
                    == seq![
                    PanelStepKind::List(menu_list(old(self).spec_home(), old(self).spec_full_refresh())),
                ])
                &&& old(self).spec_state() == AppState::StartMenu ==> (r matches Some(steps) && step_views(
                    steps@,
                ) == seq![
                    PanelStepKind::Draw(
                        start_menu_view(
                            final(self)@,
                            final(self).spec_home().start_menu_need_base_refresh,
                            assets.icon_size,
                        ),
                    ),
                ])
                &&& old(self).spec_state() == AppState::Viewing ==> (r matches Some(steps) && viewer_frame(
                    old(self).spec_image(),
                    old(self).spec_system().wake_restore_only,
                    old(self).spec_buffers(),
                    final(self).spec_buffers().active_view(),
                    final(self).spec_planes().lsb@,
                    final(self).spec_planes().msb@,
                    final(self).spec_state(),
                    step_views(steps@),
                ))
                &&& old(self).spec_state() == AppState::BookViewing
                    && old(self).spec_book_reader().page_turn_indicator is None ==> {
                    &&& old(self).spec_book_reader().current_book is None ==> (r matches Some(steps)
                        && steps@.len() == 0 && final(self).spec_state() == AppState::Error)
                    &&& old(self).spec_book_reader().current_book is Some ==> (r matches Some(steps)
                        && exists|f: BookFrame|
                        #[trigger] book_drawn(
                            old(self).spec_book_reader(),
                            final(self).spec_book_reader(),
                            old(self).spec_buffers(),
                            final(self).spec_buffers(),
                            old(self).spec_planes(),
                            final(self).spec_planes(),
                            old(self).spec_full_refresh(),
                            final(self).spec_full_refresh(),
                            Ok(f),
                        ) && step_views(steps@) == book_frame_steps(f))
                }
                &&& old(self).spec_state() == AppState::BookViewing
                    && old(self).spec_book_reader().page_turn_indicator is Some ==> {
                    let mark = CornerMark::Turn(old(self).spec_book_reader().page_turn_indicator->0);
                    let x = mark_x(mark, screen_size(old(self).spec_buffers()).0);
                    let t = mark_text(mark);
                    &&& r matches Some(steps) && step_views(steps@) == seq![
                        PanelStepKind::Draw(seq![
                            MenuDrawView::Text { x: x as i32, y: PAGE_INDICATOR_Y, text: t, on: false },
                            MenuDrawView::Text { x: (x + 1) as i32, y: PAGE_INDICATOR_Y, text: t, on: false },
                        ]),
                        PanelStepKind::Queue {
                            rects: seq![
                                (
                                    Rect {
                                        x: (x - 2) as i32,
                                        y: (PAGE_INDICATOR_Y - 2) as i32,
                                        w: (t.len() * 10 + 4) as i32,
                                        h: 22,
                                    },
                                    RefreshMode::Fast,
                                ),
                            ],
                            fallback: RefreshMode::Fast,
                        },
                    ]
                    &&& final(self).spec_buffers().active_view() == old(self).spec_buffers().inactive_view()
                    &&& final(self).spec_book_reader().page_turn_indicator is None
                    &&& final(self).spec_phase() == DrawPhase::BookPage
                }
            },
    {
        match self.phase {
            DrawPhase::Idle => {
                if !self.dirty {
                    return None;
                }
                self.dirty = false;
                let ghost pre = *self;
                let steps = self.begin_screen(assets);
                proof {
                    if pre.state == AppState::BookViewing && pre.book_reader.page_turn_indicator is None
                        && pre.book_reader.current_book is Some {
                        let f = choose|f: BookFrame|
                            #[trigger] book_drawn(
                                pre.book_reader,
                                self.book_reader,
                                *pre.display_buffers,
                                *self.display_buffers,
                                pre.gray2,
                                self.gray2,
                                pre.system.full_refresh,
                                self.system.full_refresh,
                                Ok(f),
                            ) && step_views(steps@) == book_frame_steps(f);
                        assert(book_drawn(
                            old(self).spec_book_reader(),
                            self.spec_book_reader(),
                            old(self).spec_buffers(),
                            self.spec_buffers(),
                            old(self).spec_planes(),
                            self.spec_planes(),
                            old(self).spec_full_refresh(),
                            self.spec_full_refresh(),
                            Ok(f),
                        ) && step_views(steps@) == book_frame_steps(f));
                    }
                    assert(step_views(steps@).len() == steps@.len());
                }
                Some(steps)
            },
            DrawPhase::StartMenuBase => {
                let l = start_menu_layout(self.display_buffers);
                let f = self.home.start_menu_base_flush(&l, self.gray2.used, self.system.full_refresh);
                let mut steps: Vec<PanelStep> = Vec::new();
                push_flush_steps(&mut steps, f);
                self.phase = DrawPhase::StartMenuRedraw;
                Some(steps)
            },
            DrawPhase::StartMenuRedraw => Some(self.start_menu_contents(false, assets, DrawPhase::StartMenuSelection)),
            DrawPhase::StartMenuSelection => {
                let l = start_menu_layout(self.display_buffers);
                let rects = self.home.start_menu_selection_flush(&l);
                self.phase = DrawPhase::Finish;
                if rects.len() > 0 {
                    Some(vec![PanelStep::Queue { rects, fallback: RefreshMode::Fast }])
                } else {
                    Some(Vec::new())
                }
            },
            DrawPhase::StartMenuFlush => {
                let l = start_menu_layout(self.display_buffers);
                let f = self.home.start_menu_flush(&l, self.gray2.used, self.system.full_refresh);
                let mut steps: Vec<PanelStep> = Vec::new();
                push_flush_steps(&mut steps, f);
                self.phase = DrawPhase::Finish;
                Some(steps)
            },
            DrawPhase::SettingsFlush => {
                let f = settings_flush(self.display_buffers, self.gray2.used);
                let mut steps: Vec<PanelStep> = Vec::new();
                push_flush_steps(&mut steps, f);
                self.phase = DrawPhase::Finish;
                Some(steps)
            },
            DrawPhase::BookPage => Some(self.book_page()),
            DrawPhase::BookPrefetch => Some(self.book_prefetch()),
            DrawPhase::ExitOverlay => {
                let (ops, rect) = exiting_overlay_ops(self.display_buffers);
                self.exit_overlay_drawn = true;
                self.dirty = true;
                self.exit_pass = false;
                self.phase = DrawPhase::Idle;
                Some(vec![PanelStep::Draw(ops), rect_step(rect, RefreshMode::Fast)])
            },
            DrawPhase::SleepSave => Some(self.sleep_save(assets)),
            DrawPhase::Finish => {
                self.finish_draw();
                None
            },
        }
    }
}

/// The idle time after a poll: reset by any input, then advanced
/// (saturating) by the elapsed time.
pub open spec fn idle_after(idle: u32, has_input: bool, elapsed: u32) -> u32 {
    let base: int = if has_input {
        0
    } else {
        idle as int
    };
    if base + elapsed > u32::MAX {
        u32::MAX
    } else {
        (base + elapsed) as u32
    }
}

} // verus!
