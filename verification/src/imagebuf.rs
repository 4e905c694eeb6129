//! A plain RGBA image buffer: the transform engine's own pixel container,
//! with four bytes per pixel and rows stored top to bottom.
use vstd::prelude::*;

verus! {

/// The pixel at flat index `i` of a raw RGBA byte sequence.
pub open spec fn px_at(data: Seq<u8>, i: int) -> (u8, u8, u8, u8) {
    (data[4 * i], data[4 * i + 1], data[4 * i + 2], data[4 * i + 3])
}

/// The color channels of the pixel at flat index `i` of a raw byte sequence.
pub open spec fn rgb_at(data: Seq<u8>, i: int) -> (u8, u8, u8) {
    (data[4 * i], data[4 * i + 1], data[4 * i + 2])
}

/// Channel `c` (0 to 3) of a pixel.
pub open spec fn px_ch(px: (u8, u8, u8, u8), c: int) -> u8 {
    if c == 0 {
        px.0
    } else if c == 1 {
        px.1
    } else if c == 2 {
        px.2
    } else {
        px.3
    }
}

/// A per-pixel guarantee on whole images yields the per-byte picture: if two
/// equally long RGBA byte strings agree pixel-for-pixel through `f`, every
/// byte of the second is the matching channel of the mapped pixel.
pub proof fn lemma_px_to_bytes(
    outd: Seq<u8>,
    data: Seq<u8>,
    f: spec_fn((u8, u8, u8, u8)) -> (u8, u8, u8, u8),
)
    requires
        outd.len() == data.len(),
        data.len() % 4 == 0,
        forall|i: int| 0 <= i < data.len() / 4 ==> px_at(outd, i) == f(px_at(data, i)),
    ensures
        forall|k: int| 0 <= k < outd.len() ==> outd[k] == px_ch(f(px_at(data, k / 4)), k % 4),
{
    assert forall|k: int| 0 <= k < outd.len() implies outd[k] == px_ch(
        f(px_at(data, k / 4)),
        k % 4,
    ) by {
        vstd::arithmetic::div_mod::lemma_fundamental_div_mod(k, 4);
        let i = k / 4;
        let c = k % 4;
        assert(0 <= i < data.len() / 4) by {
            vstd::arithmetic::div_mod::lemma_fundamental_div_mod(data.len() as int, 4);
            assert(4 * i + c < 4 * (data.len() / 4));
        }
        assert(px_at(outd, i) == f(px_at(data, i)));
        assert(outd[4 * i + c] == px_ch(px_at(outd, i), c));
    }
}

/// Basic consequences of well-formedness: the byte length is a multiple of
/// four and quarters to the pixel count.
pub proof fn lemma_wf_len_facts(img: ImageBuf)
    requires
        img.wf(),
    ensures
        img.data@.len() % 4 == 0,
        img.data@.len() / 4 == img.num_pixels(),
        img.num_pixels() >= 0,
{
    let t = img.num_pixels();
    assert(t >= 0) by (nonlinear_arith)
        requires
            t == (img.width as int) * (img.height as int) && img.width >= 0 && img.height >= 0,
    ;
    vstd::arithmetic::div_mod::lemma_fundamental_div_mod_converse_mod(4 * t, 4, t, 0);
    vstd::arithmetic::div_mod::lemma_fundamental_div_mod_converse_div(4 * t, 4, t, 0);
    assert(4 * t == t * 4 + 0);
}

/// An RGBA image of `width * height` pixels; channel order R, G, B, A.
pub struct ImageBuf {
    pub width: u32,
    pub height: u32,
    pub data: Vec<u8>,
}

impl ImageBuf {
    /// Number of pixels in the image.
    pub open spec fn num_pixels(self) -> int {
        (self.width as int) * (self.height as int)
    }

    /// The buffer holds exactly four bytes for every pixel.
    pub open spec fn wf(self) -> bool {
        self.data@.len() == 4 * self.num_pixels()
    }

    pub open spec fn spec_width(self) -> int {
        self.width as int
    }

    pub open spec fn spec_height(self) -> int {
        self.height as int
    }

    /// The pixel at flat index `i` (row-major).
    pub open spec fn spec_pixel(self, i: int) -> (u8, u8, u8, u8) {
        px_at(self.data@, i)
    }

    /// The color channels of the pixel at flat index `i`.
    pub open spec fn spec_rgb(self, i: int) -> (u8, u8, u8) {
        rgb_at(self.data@, i)
    }

    /// Two images have the same dimensions.
    pub open spec fn same_dims(self, other: ImageBuf) -> bool {
        self.width == other.width && self.height == other.height
    }

    pub fn width(&self) -> (w: u32)
        ensures
            w == self.width,
    {
        self.width
    }

    pub fn height(&self) -> (h: u32)
        ensures
            h == self.height,
    {
        self.height
    }

    /// Number of pixels, as a machine integer.
    pub fn pixel_count(&self) -> (n: usize)
        requires
            self.wf(),
        ensures
            n == self.num_pixels(),
    {
        let l: usize = self.data.len();
        proof {
            assert((self.width as int) * (self.height as int) >= 0
                && (self.width as int) * (self.height as int) < 18446744073709551616) by (nonlinear_arith)
                requires
                    self.width < 4294967296 && self.height < 4294967296,
            ;
            assert(self.num_pixels() <= l);
        }
        ((self.width as u64) * (self.height as u64)) as usize
    }

    /// A fresh, fully transparent black image.
    pub fn new(width: u32, height: u32) -> (img: ImageBuf)
        requires
            4 * ((width as int) * (height as int)) <= usize::MAX,
        ensures
            img.wf(),
            img.width == width,
            img.height == height,
            forall|i: int|
                0 <= i < img.num_pixels() ==> img.spec_pixel(i) == (0u8, 0u8, 0u8, 0u8),
    {
        proof {
            assert((width as int) * (height as int) >= 0) by (nonlinear_arith);
        }
        let n4: u64 = 4 * ((width as u64) * (height as u64));
        let n4us: usize = n4 as usize;
        let mut data: Vec<u8> = Vec::new();
        let mut k: usize = 0;
        while k < n4us
            invariant
                data@.len() == k,
                k <= n4us,
                forall|j: int| 0 <= j < k ==> data@[j] == 0u8,
            decreases n4us - k,
        {
            data.push(0);
            k = k + 1;
        }
        ImageBuf { width, height, data }
    }

    /// Read the pixel at flat index `i`.
    pub fn get_pixel(&self, i: usize) -> (px: (u8, u8, u8, u8))
        requires
            self.wf(),
            i < self.num_pixels(),
        ensures
            px == self.spec_pixel(i as int),
    {
        let l: usize = self.data.len();
        assert(4 * i + 3 < l);
        let base: usize = 4 * i;
        (self.data[base], self.data[base + 1], self.data[base + 2], self.data[base + 3])
    }

    /// Overwrite the pixel at flat index `i`; every other pixel is kept.
    pub fn set_pixel(&mut self, i: usize, px: (u8, u8, u8, u8))
        requires
            old(self).wf(),
            i < old(self).num_pixels(),
        ensures
            final(self).wf(),
            final(self).width == old(self).width,
            final(self).height == old(self).height,
            final(self).spec_pixel(i as int) == px,
            forall|j: int|
                0 <= j < final(self).num_pixels() && j != i ==> final(self).spec_pixel(j) == old(
                    self,
                ).spec_pixel(j),
    {
        let l: usize = self.data.len();
        assert(4 * i + 3 < l);
        let base: usize = 4 * i;
        self.data.set(base, px.0);
        self.data.set(base + 1, px.1);
        self.data.set(base + 2, px.2);
        self.data.set(base + 3, px.3);
    }
}

} // verus!
