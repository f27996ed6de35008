//! Software pixel-buffer presentation for an orbital-style windowing server.
//!
//! The display server exposes a window's framebuffer as a file-like handle
//! whose contents can be memory-mapped. This crate holds the verified core of
//! presenting a client pixel buffer onto such a window: the page-aligned
//! sizing of the short-lived buffer mapping, the parse of the server's size
//! descriptor, and the cropped row copy from the client buffer into the
//! window buffer. The mapping syscalls themselves, being process I/O, live
//! with the surrounding integration.

pub mod blit;
pub mod mapping;
pub mod size_query;
pub mod surface;

pub use surface::BufferImpl;
pub use surface::OrbitalImpl;
pub use surface::SoftBufferError;
pub use surface::WindowHandle;
