//! Rendered frame representation.
use vstd::prelude::*;

verus! {

/// Pixel format for frame data
#[derive(Debug, Clone, Copy, PartialEq, Eq)]
pub enum PixelFormat {
    /// RGBA with 8 bits per channel
    Rgba8,
    /// BGRA with 8 bits per channel
    Bgra8,
    /// RGB with 8 bits per channel
    Rgb8,
}

/// Number of bytes one pixel occupies in the given format.
pub open spec fn format_bytes_per_pixel(format: PixelFormat) -> nat {
    match format {
        PixelFormat::Rgba8 | PixelFormat::Bgra8 => 4,
        PixelFormat::Rgb8 => 3,
    }
}

/// BGRA bytes with red and blue exchanged in every complete 4-byte pixel;
/// trailing bytes that do not form a whole pixel are kept.
pub open spec fn swap_red_blue(b: Seq<u8>) -> Seq<u8> {
    Seq::new(b.len(), |i: int|
        if i < 4 * (b.len() / 4) && i % 4 == 0 {
            b[i + 2]
        } else if i < 4 * (b.len() / 4) && i % 4 == 2 {
            b[i - 2]
        } else {
            b[i]
        })
}

/// RGB bytes widened to RGBA with an opaque alpha, one output pixel per
/// complete 3-byte input pixel.
pub open spec fn rgb_to_rgba(b: Seq<u8>) -> Seq<u8> {
    Seq::new(4 * (b.len() / 3), |i: int|
        if i % 4 == 3 { 255u8 } else { b[3 * (i / 4) + i % 4] })
}

/// Every complete 4-byte pixel has alpha 0.
pub open spec fn all_transparent(b: Seq<u8>) -> bool {
    forall|k: int| 0 <= k < b.len() / 4 ==> #[trigger] b[4 * k + 3] == 0
}

/// Rendered frame containing pixel data.
#[derive(Clone)]
pub struct Frame {
    buffer: Vec<u8>,
    width: u32,
    height: u32,
    timestamp: u32,
    format: PixelFormat,
}

impl Frame {
    /// Pixel bytes.
    pub closed spec fn spec_data(&self) -> Seq<u8> {
        self.buffer@
    }

    /// Frame width in pixels.
    pub closed spec fn spec_width(&self) -> u32 {
        self.width
    }

    /// Frame height in pixels.
    pub closed spec fn spec_height(&self) -> u32 {
        self.height
    }

    /// Frame timestamp in centiseconds.
    pub closed spec fn spec_timestamp(&self) -> u32 {
        self.timestamp
    }

    /// Pixel format of the bytes.
    pub closed spec fn spec_format(&self) -> PixelFormat {
        self.format
    }

    /// Create a new frame with the given buffer
    pub fn new(buffer: Vec<u8>, width: u32, height: u32, timestamp: u32) -> (f: Self)
        ensures
            f.spec_data() == buffer@,
            f.spec_width() == width,
            f.spec_height() == height,
            f.spec_timestamp() == timestamp,
            f.spec_format() == PixelFormat::Rgba8,
    {
        Frame { buffer, width, height, timestamp, format: PixelFormat::Rgba8 }
    }

    /// Create a frame from RGBA data
    pub fn from_rgba(buffer: Vec<u8>, width: u32, height: u32) -> (f: Self)
        ensures
            f.spec_data() == buffer@,
            f.spec_width() == width,
            f.spec_height() == height,
            f.spec_timestamp() == 0,
            f.spec_format() == PixelFormat::Rgba8,
    {
        Self::new(buffer, width, height, 0)
    }

    /// Create a new frame with specific pixel format
    pub fn with_format(buffer: Vec<u8>, width: u32, height: u32, timestamp: u32, format: PixelFormat) -> (f: Self)
        ensures
            f.spec_data() == buffer@,
            f.spec_width() == width,
            f.spec_height() == height,
            f.spec_timestamp() == timestamp,
            f.spec_format() == format,
    {
        Frame { buffer, width, height, timestamp, format }
    }

    /// Create an empty frame (transparent)
    pub fn empty(width: u32, height: u32, timestamp: u32) -> (f: Self)
        requires
            width * height * 4 <= u32::MAX,
        ensures
            f.spec_data() == Seq::new((width * height * 4) as nat, |i: int| 0u8),
            f.spec_width() == width,
            f.spec_height() == height,
            f.spec_timestamp() == timestamp,
            f.spec_format() == PixelFormat::Rgba8,
    {
        proof {
            vstd::arithmetic::mul::lemma_mul_nonnegative(width as int, height as int);
        }
        let size = (width * height * 4) as usize;
        let buffer: Vec<u8> = vec![0u8; size];
        assert(buffer@ =~= Seq::new((width * height * 4) as nat, |i: int| 0u8));
        Self::new(buffer, width, height, timestamp)
    }

    /// A frame with the same pixels, dimensions and format but a new timestamp.
    pub fn with_timestamp(&self, timestamp: u32) -> (f: Self)
        ensures
            f.spec_data() == self.spec_data(),
            f.spec_width() == self.spec_width(),
            f.spec_height() == self.spec_height(),
            f.spec_timestamp() == timestamp,
            f.spec_format() == self.spec_format(),
    {
        let buffer = self.buffer.clone();
        assert(buffer@ =~= self.buffer@);
        Frame { buffer, width: self.width, height: self.height, timestamp, format: self.format }
    }

    /// Get frame buffer data
    pub fn data(&self) -> (d: &[u8])
        ensures
            d@ == self.spec_data(),
    {
        self.buffer.as_slice()
    }

    /// Get frame pixels (alias for data())
    pub fn pixels(&self) -> (d: &[u8])
        ensures
            d@ == self.spec_data(),
    {
        self.buffer.as_slice()
    }

    /// Get mutable frame buffer data
    pub fn data_mut(&mut self) -> (d: &mut [u8])
        ensures
            d@ == old(self).spec_data(),
            final(self).spec_data() == final(d)@,
            final(self).spec_width() == old(self).spec_width(),
            final(self).spec_height() == old(self).spec_height(),
            final(self).spec_timestamp() == old(self).spec_timestamp(),
            final(self).spec_format() == old(self).spec_format(),
    {
        self.buffer.as_mut_slice()
    }

    /// Take ownership of the buffer
    pub fn into_buffer(self) -> (b: Vec<u8>)
        ensures
            b@ == self.spec_data(),
    {
        self.buffer
    }

    /// Get frame width
    pub fn width(&self) -> (w: u32)
        ensures
            w == self.spec_width(),
    {
        self.width
    }

    /// Get frame height
    pub fn height(&self) -> (h: u32)
        ensures
            h == self.spec_height(),
    {
        self.height
    }

    /// Get frame timestamp in centiseconds
    pub fn timestamp(&self) -> (t: u32)
        ensures
            t == self.spec_timestamp(),
    {
        self.timestamp
    }

    /// Get pixel format
    pub fn format(&self) -> (f: PixelFormat)
        ensures
            f == self.spec_format(),
    {
        self.format
    }

    /// Get bytes per pixel
    pub fn bytes_per_pixel(&self) -> (n: usize)
        ensures
            n == format_bytes_per_pixel(self.spec_format()),
    {
        match self.format {
            PixelFormat::Rgba8 | PixelFormat::Bgra8 => 4,
            PixelFormat::Rgb8 => 3,
        }
    }

    /// Get stride (bytes per row)
    pub fn stride(&self) -> (n: usize)
        requires
            self.spec_width() * format_bytes_per_pixel(self.spec_format()) <= usize::MAX,
        ensures
            n == self.spec_width() * format_bytes_per_pixel(self.spec_format()),
    {
        self.width as usize * self.bytes_per_pixel()
    }

    /// Convert to RGBA format if not already
    pub fn to_rgba(self) -> (f: Self)
        requires
            self.spec_format() == PixelFormat::Rgb8 ==> self.spec_width() * self.spec_height() * 4 <= u32::MAX,
        ensures
            f.spec_format() == PixelFormat::Rgba8,
            f.spec_width() == self.spec_width(),
            f.spec_height() == self.spec_height(),
            f.spec_timestamp() == self.spec_timestamp(),
            f.spec_data() == match self.spec_format() {
                PixelFormat::Rgba8 => self.spec_data(),
                PixelFormat::Bgra8 => swap_red_blue(self.spec_data()),
                PixelFormat::Rgb8 => rgb_to_rgba(self.spec_data()),
            },
    {
        let ghost w0 = self.width;
        let ghost h0 = self.height;
        let ghost t0 = self.timestamp;
        let mut this = self;
        match this.format {
            PixelFormat::Rgba8 => this,
            PixelFormat::Bgra8 => {
                let ghost old_buf = this.buffer@;
                let n = this.buffer.len();
                let chunks = n / 4;
                let mut k: usize = 0;
                while k < chunks
                    invariant
                        n == old_buf.len(),
                        chunks == n / 4,
                        this.width == w0,
                        this.height == h0,
                        this.timestamp == t0,
                        k <= chunks,
                        this.buffer@.len() == n,
                        forall|c: int, j: int| 0 <= c < k && 0 <= j < 4 ==> #[trigger] this.buffer@[4 * c + j] == (
                            if j == 0 { old_buf[4 * c + 2] } else if j == 2 { old_buf[4 * c] } else { old_buf[4 * c + j] }),
                        forall|i: int| 4 * k <= i < n ==> #[trigger] this.buffer@[i] == old_buf[i],
                    decreases chunks - k,
                {
                    let a = this.buffer[4 * k];
                    let b = this.buffer[4 * k + 2];
                    this.buffer.set(4 * k, b);
                    this.buffer.set(4 * k + 2, a);
                    k = k + 1;
                }
                proof {
                    assert forall|i: int| 0 <= i < n implies #[trigger] this.buffer@[i] == swap_red_blue(old_buf)[i] by {
                        if i < 4 * (n / 4) {
                            let c = i / 4;
                            let j = i % 4;
                            assert(i == 4 * c + j);
                            assert(this.buffer@[4 * c + j] == this.buffer@[i]);
                        }
                    }
                    assert(this.buffer@ =~= swap_red_blue(old_buf));
                }
                this.format = PixelFormat::Rgba8;
                this
            }
            PixelFormat::Rgb8 => {
                proof {
                    vstd::arithmetic::mul::lemma_mul_nonnegative(this.width as int, this.height as int);
                }
                let cap = (this.width * this.height * 4) as usize;
                let mut rgba: Vec<u8> = Vec::with_capacity(cap);
                let n = this.buffer.len();
                let chunks = n / 3;
                let mut k: usize = 0;
                while k < chunks
                    invariant
                        n == this.buffer@.len(),
                        chunks == n / 3,
                        this.width == w0,
                        this.height == h0,
                        this.timestamp == t0,
                        k <= chunks,
                        rgba@.len() == 4 * k,
                        forall|c: int, j: int| 0 <= c < k && 0 <= j < 4 ==> #[trigger] rgba@[4 * c + j] == (
                            if j == 3 { 255u8 } else { this.buffer@[3 * c + j] }),
                    decreases chunks - k,
                {
                    let r = this.buffer[3 * k];
                    let g = this.buffer[3 * k + 1];
                    let b = this.buffer[3 * k + 2];
                    rgba.push(r);
                    rgba.push(g);
                    rgba.push(b);
                    rgba.push(255u8);
                    proof {
                        assert forall|c: int, j: int| 0 <= c < k + 1 && 0 <= j < 4 implies #[trigger] rgba@[4 * c + j] == (
                            if j == 3 { 255u8 } else { this.buffer@[3 * c + j] }) by {
                            if c == k {
                            }
                        }
                    }
                    k = k + 1;
                }
                proof {
                    let old_buf = this.buffer@;
                    assert forall|i: int| 0 <= i < rgba@.len() implies #[trigger] rgba@[i] == rgb_to_rgba(old_buf)[i] by {
                        let c = i / 4;
                        let j = i % 4;
                        assert(i == 4 * c + j);
                        assert(rgba@[4 * c + j] == rgba@[i]);
                    }
                    assert(rgba@ =~= rgb_to_rgba(old_buf));
                }
                this.buffer = rgba;
                this.format = PixelFormat::Rgba8;
                this
            }
        }
    }

    /// Check if frame is empty (all transparent)
    pub fn is_empty(&self) -> (b: bool)
        ensures
            b == match self.spec_format() {
                PixelFormat::Rgba8 | PixelFormat::Bgra8 => all_transparent(self.spec_data()),
                PixelFormat::Rgb8 => false,
            },
    {
        match self.format {
            PixelFormat::Rgba8 | PixelFormat::Bgra8 => {
                let n = self.buffer.len();
                let chunks = n / 4;
                let mut k: usize = 0;
                while k < chunks
                    invariant
                        n == self.buffer@.len(),
                        chunks == n / 4,
                        k <= chunks,
                        forall|c: int| 0 <= c < k ==> #[trigger] self.buffer@[4 * c + 3] == 0,
                    decreases chunks - k,
                {
                    if self.buffer[4 * k + 3] != 0 {
                        return false;
                    }
                    k = k + 1;
                }
                true
            }
            PixelFormat::Rgb8 => false,
        }
    }
}

} // verus!

verus! {

/// Converting BGRA to RGBA twice gives back the original bytes.
pub proof fn lemma_swap_red_blue_involution(b: Seq<u8>)
    ensures
        swap_red_blue(swap_red_blue(b)) == b,
{
    let s = swap_red_blue(b);
    assert forall|i: int| 0 <= i < b.len() implies #[trigger] swap_red_blue(s)[i] == b[i] by {
        if i < 4 * (b.len() / 4) && i % 4 == 0 {
            assert((i + 2) % 4 == 2);
            assert(i + 2 < 4 * (b.len() / 4));
        } else if i < 4 * (b.len() / 4) && i % 4 == 2 {
            assert((i - 2) % 4 == 0);
        }
    }
    assert(swap_red_blue(s) =~= b);
}

/// Converting BGRA to RGBA exchanges the first and third byte of every
/// whole pixel and keeps the second and fourth; converting RGB to RGBA copies
/// the three colour bytes of each pixel and makes it opaque.
pub proof fn lemma_conversions_move_channels(b: Seq<u8>, k: int)
    ensures
        0 <= k < b.len() / 4 ==> {
            &&& swap_red_blue(b)[4 * k] == b[4 * k + 2]
            &&& swap_red_blue(b)[4 * k + 1] == b[4 * k + 1]
            &&& swap_red_blue(b)[4 * k + 2] == b[4 * k]
            &&& swap_red_blue(b)[4 * k + 3] == b[4 * k + 3]
        },
        0 <= k < b.len() / 3 ==> {
            &&& rgb_to_rgba(b)[4 * k] == b[3 * k]
            &&& rgb_to_rgba(b)[4 * k + 1] == b[3 * k + 1]
            &&& rgb_to_rgba(b)[4 * k + 2] == b[3 * k + 2]
            &&& rgb_to_rgba(b)[4 * k + 3] == 255
        },
        swap_red_blue(b).len() == b.len(),
        rgb_to_rgba(b).len() == 4 * (b.len() / 3),
{
    if 0 <= k < b.len() / 4 {
        assert(4 * k + 3 < 4 * (b.len() / 4));
        assert((4 * k) % 4 == 0 && (4 * k + 1) % 4 == 1 && (4 * k + 2) % 4 == 2 && (4 * k + 3) % 4 == 3);
    }
    if 0 <= k < b.len() / 3 {
        assert(4 * k + 3 < 4 * (b.len() / 3));
        assert((4 * k) % 4 == 0 && (4 * k) / 4 == k);
        assert((4 * k + 1) % 4 == 1 && (4 * k + 1) / 4 == k);
        assert((4 * k + 2) % 4 == 2 && (4 * k + 2) / 4 == k);
        assert((4 * k + 3) % 4 == 3);
    }
}

} // verus!
