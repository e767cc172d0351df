//! Frame handling for a webcam-to-HTTP MJPEG streamer.
pub mod capture;
pub mod capture_loop;
pub mod counter;
pub mod decimal;
pub mod format;
pub mod huffman;
pub mod listeners;
pub mod reply;
pub mod multipart;
pub mod store;
pub mod stream;
