pub mod book_reader;
pub mod positions;
pub mod system;
pub mod image_viewer;
pub mod home;
pub mod thumbnail;
pub mod start_menu;
pub mod screens;
pub mod sleep;
pub mod book_view;
