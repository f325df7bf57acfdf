//! Keeps an editor configuration and a terminal configuration in step with the
//! desktop's light or dark appearance setting.

pub mod editor;
pub mod portal;
pub mod terminal;
pub mod text;
pub mod theme;
