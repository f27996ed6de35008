//! The presentation surface: the client-visible pixel buffer and its
//! present pipeline.
//!
//! The surface records the client's requested dimensions and owns a growable
//! row-major store of packed 32-bit pixels. Growth is lazy: a resize only
//! records the new dimensions, and the store is brought to exactly
//! `width * height` pixels when a buffer view is next acquired. A present
//! copies the view's pixels into the window's buffer, cropped against the
//! window's authoritative size of that moment.

use vstd::prelude::*;
use crate::blit::blit_rows;
use crate::blit::blit_spec;

verus! {

/// An opaque reference to the target window: the file-like handle under
/// which the windowing server exposes the window's framebuffer and
/// metadata.
#[derive(Clone, Copy, Debug, PartialEq, Eq, Structural)]
pub struct WindowHandle {
    /// The window's file-like handle, as the windowing server numbers it.
    pub fd: usize,
}

/// A recoverable failure of the presentation surface.
#[derive(Clone, Copy, Debug, PartialEq, Eq)]
pub enum SoftBufferError {
    /// The surface could not be created from the given window handle.
    Construction,
    /// The window buffer mapping failed; carries the OS failure code.
    Mapping(i32),
}

/// The presentation surface. `width` and `height` are the client's
/// requested dimensions; `buffer` is the owned pixel store, row-major, one
/// packed 32-bit value per pixel.
pub struct OrbitalImpl {
    /// The target window, borrowed for the surface's lifetime.
    pub handle: WindowHandle,
    /// The client-requested width in pixels.
    pub width: u32,
    /// The client-requested height in pixels.
    pub height: u32,
    /// The owned pixel store; exactly `width * height` long while a buffer
    /// view is held.
    pub buffer: Vec<u32>,
}

/// A short-lived view of the surface's pixel store, held for one present
/// cycle. While it exists the store is exactly `width * height` pixels
/// long; presenting consumes it and hands the surface back.
pub struct BufferImpl {
    /// The surface whose pixel store the view exposes.
    pub imp: OrbitalImpl,
}

impl OrbitalImpl {
    /// Creates a presentation surface over a window handle: dimensions
    /// zero, pixel store empty.
    pub fn new(handle: WindowHandle) -> (r: Result<OrbitalImpl, SoftBufferError>)
        ensures
            ({
                &&& r matches Ok(s)
                &&& s.handle == handle
                &&& s.width == 0
                &&& s.height == 0
                &&& s.buffer@ == Seq::<u32>::empty()
            }),
    {
        Ok(OrbitalImpl { handle, width: 0, height: 0, buffer: Vec::new() })
    }

    /// Records the client's requested dimensions. Zero is permitted and
    /// stands for an empty surface. The pixel store is not touched; it
    /// grows when a buffer view is next acquired.
    pub fn resize(&mut self, width: u32, height: u32) -> (r: Result<(), SoftBufferError>)
        ensures
            r is Ok,
            final(self).width == width,
            final(self).height == height,
            final(self).handle == old(self).handle,
            final(self).buffer@ == old(self).buffer@,
    {
        self.width = width;
        self.height = height;
        Ok(())
    }

    /// Acquires the buffer view for one present cycle, first bringing the
    /// pixel store to exactly `width * height` pixels: retained pixels keep
    /// their values and newly added pixels are the zero color.
    ///
    /// The pixel count must fit the machine word that sizes allocations.
    pub fn buffer_mut(self) -> (r: Result<BufferImpl, SoftBufferError>)
        requires
            self.width * self.height <= usize::MAX,
        ensures
            ({
                &&& r matches Ok(b)
                &&& b.inv()
                &&& b.imp.handle == self.handle
                &&& b.imp.width == self.width
                &&& b.imp.height == self.height
                &&& b.imp.buffer@.len() == self.width * self.height
                &&& forall|i: int|
                    0 <= i < b.imp.buffer@.len() && i < self.buffer@.len()
                        ==> b.imp.buffer@[i] == self.buffer@[i]
                &&& forall|i: int|
                    self.buffer@.len() <= i < b.imp.buffer@.len() ==> b.imp.buffer@[i] == 0u32
            }),
    {
        let OrbitalImpl { handle, width, height, mut buffer } = self;
        let n: usize = (width as usize) * (height as usize);
        let ghost buf0 = buffer@;
        if buffer.len() > n {
            buffer.truncate(n);
        }
        while buffer.len() < n
            invariant
                buffer@.len() <= n,
                buf0.len() <= buffer@.len() || n <= buffer@.len(),
                forall|i: int|
                    0 <= i < buffer@.len() ==> buffer@[i] == (if i < buf0.len() {
                        buf0[i]
                    } else {
                        0u32
                    }),
            decreases n - buffer@.len(),
        {
            buffer.push(0);
        }
        Ok(BufferImpl { imp: OrbitalImpl { handle, width, height, buffer } })
    }
}

impl BufferImpl {
    /// While the view exists, the pixel store holds exactly one packed
    /// 32-bit value per pixel of the client's requested size.
    pub open spec fn inv(&self) -> bool {
        self.imp.buffer@.len() == self.imp.width * self.imp.height
    }

    /// Read access to the whole pixel store.
    pub fn pixels(&self) -> (r: &[u32])
        ensures
            r@ == self.imp.buffer@,
    {
        self.imp.buffer.as_slice()
    }

    /// Write access to the whole pixel store. A slice cannot change length,
    /// so writes through it keep the view's length invariant.
    pub fn pixels_mut(&mut self) -> (r: &mut [u32])
        ensures
            r@ == old(self).imp.buffer@,
            final(self).imp.buffer@ == final(r)@,
            final(self).imp.handle == old(self).imp.handle,
            final(self).imp.width == old(self).imp.width,
            final(self).imp.height == old(self).imp.height,
    {
        self.imp.buffer.as_mut_slice()
    }

    /// Presents the view: copies the overlapping top-left rectangle of the
    /// client buffer into the window buffer `window_data`, whose row length
    /// is the window's authoritative width, leaving every other window
    /// pixel untouched; then hands the surface back for further use.
    ///
    /// The window buffer must hold at least the authoritative pixel count.
    pub fn present(
        self,
        window_width: usize,
        window_height: usize,
        window_data: &mut Vec<u32>,
    ) -> (surface: OrbitalImpl)
        requires
            self.inv(),
            window_width * window_height <= old(window_data)@.len(),
        ensures
            final(window_data)@ == blit_spec(
                old(window_data)@,
                self.imp.buffer@,
                window_width as int,
                window_height as int,
                self.imp.width as int,
                self.imp.height as int,
            ),
            surface.handle == self.imp.handle,
            surface.width == self.imp.width,
            surface.height == self.imp.height,
            surface.buffer@ == self.imp.buffer@,
    {
        let BufferImpl { imp } = self;
        blit_rows(
            window_data,
            window_width,
            window_height,
            &imp.buffer,
            imp.width as usize,
            imp.height as usize,
        );
        imp
    }
}

} // verus!
