//! Core logic of the TernReader e-reader firmware: input edge detection,
//! the double-buffered 1-bit framebuffer, the home/book/image application
//! state machines, the on-card file formats and the USB serial protocol.

pub mod app;
pub mod book_build;
pub mod display;
pub mod application;
pub mod bitmap;
pub mod framebuffer;
pub mod glyph_bitmap;
pub mod image_viewer;
pub mod input;
pub mod reader_view;
pub mod render;
pub mod sd;
pub mod storage_cleanup;
pub mod text;
pub mod trbk;
pub mod trbk_file;
pub mod ui;
pub mod usb;
pub mod usb_mode;
