//! The console: input, windows, and the drawing behind them.

pub mod compositor;
pub mod decor;
pub mod font;
pub mod graphics;
pub mod hit;
pub mod input;
pub mod laws;
pub mod layout;
pub mod manager;
pub mod picture;
pub mod ready;
pub mod render;
pub mod scene;
pub mod screen;
pub mod scrollbar;
pub mod session;
pub mod shown;
pub mod slots;
pub mod topbar;
pub mod ui;
pub mod window;
