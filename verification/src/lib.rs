//! The glyph cache and the window controller of a terminal emulator that
//! draws with the GPU.
//!
//! The glyph cache remembers rendered glyphs and decoded images and packs
//! their bitmaps into one texture, the atlas. When the atlas is full it is
//! replaced, and everything that pointed into it is forgotten with it. The
//! window controller leads the tabs of a window: which one is active, what
//! the window is titled, when to paint, and what to do when a program ends
//! or the window changes its size.
//!
//! Lengths on screen are whole numbers of 1/64 pixel, and scales are
//! fractions: nothing here is computed in floating point.

pub mod atlas;
pub mod bitmap;
pub mod font;
pub mod glyphcache;
pub mod glyphkey;
pub mod overlay;
pub mod style;
pub mod tabs;
pub mod units;
pub mod window;
