use vstd::prelude::*;

verus! {

/// One captured frame, modelled as plain values: interleaved 4-byte pixels
/// in the backend's reversed channel order (red, green, blue, alpha per
/// pixel), row by row, `stride` bytes per row. The pixel memory is owned by
/// the backend for exactly one callback invocation; this model carries a
/// copy of those bytes, so nothing here can outlive its buffer.
pub struct DesktopFrame {
    pub width: i32,
    pub height: i32,
    pub stride: u32,
    pub left: i32,
    pub top: i32,
    pub data: Vec<u8>,
}

impl DesktopFrame {
    /// Geometry of a usable frame: non-negative dimensions, a row stride of
    /// at least four bytes per pixel, and a buffer of exactly
    /// `stride * height` bytes.
    pub open spec fn wf(self) -> bool {
        &&& 0 <= self.width
        &&& 0 <= self.height
        &&& 4 * self.width <= self.stride
        &&& self.data@.len() == self.stride * self.height
    }

    /// Builds a frame from the plain values a backend callback hands over.
    /// Malformed geometry is a caller error, not a runtime condition.
    pub fn new(width: i32, height: i32, stride: u32, left: i32, top: i32, data: Vec<u8>) -> (f:
        Self)
        requires
            0 <= width,
            0 <= height,
            4 * width <= stride,
            data@.len() == stride * height,
        ensures
            f == (DesktopFrame { width, height, stride, left, top, data }),
            f.wf(),
    {
        DesktopFrame { width, height, stride, left, top, data }
    }

    /// Frame width in pixels.
    pub fn width(&self) -> (r: i32)
        ensures
            r == self.width,
    {
        self.width
    }

    /// Frame height in pixels.
    pub fn height(&self) -> (r: i32)
        ensures
            r == self.height,
    {
        self.height
    }

    /// Bytes per row of the pixel buffer; may exceed `4 * width`.
    pub fn stride(&self) -> (r: u32)
        ensures
            r == self.stride,
    {
        self.stride
    }

    /// Horizontal origin of the frame on the desktop.
    pub fn left(&self) -> (r: i32)
        ensures
            r == self.left,
    {
        self.left
    }

    /// Vertical origin of the frame on the desktop.
    pub fn top(&self) -> (r: i32)
        ensures
            r == self.top,
    {
        self.top
    }

    /// The raw pixel bytes, `stride * height` of them.
    pub fn data(&self) -> (r: &[u8])
        ensures
            r@ == self.data@,
    {
        self.data.as_slice()
    }
}

/// Size of a chroma plane dimension: half the luma dimension, rounded up,
/// so an odd final row or column still gets a chroma sample.
pub open spec fn chroma_dim(d: int) -> int {
    (d + 1) / 2
}

/// A planar frame buffer: one full-resolution luma plane and two chroma
/// planes at half resolution in both directions, each plane packed with a
/// stride equal to its width. Sized once at session setup and reused for
/// every delivered frame.
pub struct I420Buffer {
    pub width: u32,
    pub height: u32,
    pub y: Vec<u8>,
    pub u: Vec<u8>,
    pub v: Vec<u8>,
}

impl I420Buffer {
    /// The planes hold exactly the negotiated resolution.
    pub open spec fn wf(self) -> bool {
        &&& self.y@.len() == self.width * self.height
        &&& self.u@.len() == chroma_dim(self.width as int) * chroma_dim(self.height as int)
        &&& self.v@.len() == chroma_dim(self.width as int) * chroma_dim(self.height as int)
    }

    /// Allocates a zeroed buffer for the given resolution. The resolution
    /// must be addressable on this machine.
    pub fn new(width: u32, height: u32) -> (b: Self)
        requires
            width * height <= usize::MAX,
            width < u32::MAX,
            height < u32::MAX,
        ensures
            b.wf(),
            b.width == width,
            b.height == height,
            forall|i: int| 0 <= i < b.y@.len() ==> b.y@[i] == 0u8,
            forall|i: int| 0 <= i < b.u@.len() ==> b.u@[i] == 0u8,
            forall|i: int| 0 <= i < b.v@.len() ==> b.v@[i] == 0u8,
    {
        let cw: u32 = width / 2 + width % 2;
        let ch: u32 = height / 2 + height % 2;
        proof {
            assert(cw == chroma_dim(width as int));
            assert(ch == chroma_dim(height as int));
            assert(cw <= width && ch <= height);
            assert(cw * ch <= width * height) by (nonlinear_arith)
                requires
                    0 <= cw <= width,
                    0 <= ch <= height,
            ;
        }
        let n: usize = (width as usize) * (height as usize);
        let cn: usize = (cw as usize) * (ch as usize);
        I420Buffer { width, height, y: zero_vec(n), u: zero_vec(cn), v: zero_vec(cn) }
    }

    /// Luma plane width in pixels.
    pub fn width(&self) -> (r: u32)
        ensures
            r == self.width,
    {
        self.width
    }

    /// Luma plane height in pixels.
    pub fn height(&self) -> (r: u32)
        ensures
            r == self.height,
    {
        self.height
    }
}

/// A vector of `n` zero bytes.
fn zero_vec(n: usize) -> (v: Vec<u8>)
    ensures
        v@.len() == n,
        forall|i: int| 0 <= i < n ==> v@[i] == 0u8,
{
    let mut v: Vec<u8> = Vec::new();
    let mut k: usize = 0;
    while k < n
        invariant
            k <= n,
            v@.len() == k,
            forall|i: int| 0 <= i < k ==> v@[i] == 0u8,
        decreases n - k,
    {
        v.push(0u8);
        k = k + 1;
    }
    v
}

} // verus!
