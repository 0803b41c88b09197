//! Format adapters for the filesystem side of a note: the bundle codec and
//! the window-metadata decoder.

pub mod plist;
pub mod rtfd;

pub use plist::StickyMetadata;
pub use rtfd::RtfdBundle;
