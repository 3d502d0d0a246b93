//! In-memory raster images.
//!
//! An [`Image`] stores `channels` interleaved 8-bit samples per pixel, rows
//! top to bottom with no padding, exactly as a decoded texture hands them
//! over. Decoding a file into this form and encoding it back are left to the
//! caller; every function here is pure computation over the sample array.

use vstd::arithmetic::div_mod::{lemma_div_pos_is_pos, lemma_fundamental_div_mod, lemma_mod_bound};
use vstd::prelude::*;

verus! {

/// Position of sample `(x, y, c)` inside the flat, row-major, interleaved
/// sample array of an image `width` pixels wide with `channels` samples per
/// pixel.
pub open spec fn flat_index(width: int, channels: int, x: int, y: int, c: int) -> int {
    (y * width + x) * channels + c
}

/// A decoded raster buffer: between 1 and 4 channels of 8-bit samples.
pub struct Image {
    width: u32,
    height: u32,
    channels: u8,
    data: Vec<u8>,
}

impl Image {
    /// Every image holds between 1 and 4 channels and exactly
    /// `width * height * channels` samples.
    #[verifier::type_invariant]
    spec fn wf(self) -> bool {
        &&& 1 <= self.channels <= 4
        &&& self.data@.len() == (self.width as int) * (self.height as int) * (self.channels as int)
    }

    pub closed spec fn spec_width(self) -> u32 {
        self.width
    }

    pub closed spec fn spec_height(self) -> u32 {
        self.height
    }

    pub closed spec fn spec_channels(self) -> u8 {
        self.channels
    }

    /// The flat sample array.
    pub closed spec fn spec_data(self) -> Seq<u8> {
        self.data@
    }

    /// The value of channel `c` of the pixel at `(x, y)`.
    pub closed spec fn spec_sample(self, x: int, y: int, c: int) -> u8 {
        self.data@[flat_index(self.width as int, self.channels as int, x, y, c)]
    }

    /// Builds an image from its dimensions, channel count and flat sample
    /// array; rejects a channel count outside 1..=4 and a sample array whose
    /// length does not match.
    pub fn new(width: u32, height: u32, channels: u8, data: Vec<u8>) -> (r: Option<Image>)
        ensures
            match r {
                Some(img) => {
                    &&& img.spec_width() == width
                    &&& img.spec_height() == height
                    &&& img.spec_channels() == channels
                    &&& img.spec_data() == data@
                    &&& 1 <= channels <= 4
                    &&& data@.len() == (width as int) * (height as int) * (channels as int)
                },
                None => !(1 <= channels <= 4 && data@.len() == (width as int) * (height as int)
                    * (channels as int)),
            },
    {
        if channels < 1 || channels > 4 {
            return None;
        }
        proof {
            assert(0 <= (width as int) * (height as int) <= 0xffffffff * 0xffffffff)
                by (nonlinear_arith)
                requires
                    0 <= width <= 0xffffffff,
                    0 <= height <= 0xffffffff,
            ;
            assert((width as int) * (height as int) * (channels as int) <= 0xffffffff * 0xffffffff
                * 4) by (nonlinear_arith)
                requires
                    0 <= (width as int) * (height as int) <= 0xffffffff * 0xffffffff,
                    0 <= channels <= 4,
            ;
        }
        let need: u128 = (width as u128) * (height as u128) * (channels as u128);
        if (data.len() as u128) != need {
            return None;
        }
        Some(Image { width, height, channels, data })
    }

    /// Builds an image whose side conditions the caller has already shown.
    pub(crate) fn new_exact(width: u32, height: u32, channels: u8, data: Vec<u8>) -> (r: Image)
        requires
            1 <= channels <= 4,
            data@.len() == (width as int) * (height as int) * (channels as int),
        ensures
            r.spec_width() == width,
            r.spec_height() == height,
            r.spec_channels() == channels,
            r.spec_data() == data@,
            forall|x: int, y: int, c: int|
                0 <= x < width && 0 <= y < height && 0 <= c < channels
                    ==> #[trigger] r.spec_sample(x, y, c) == data@[flat_index(
                    width as int,
                    channels as int,
                    x,
                    y,
                    c,
                )],
    {
        Image { width, height, channels, data }
    }

    /// Decomposes a flat sample position `k` of a `width` by `height` image
    /// with `channels` samples per pixel into the unique pixel coordinates
    /// and channel it addresses.
    pub proof fn lemma_flat_index_decompose(width: int, height: int, channels: int, k: int)
        requires
            channels > 0,
            width >= 0,
            height >= 0,
            0 <= k < width * height * channels,
        ensures
            ({
                let c = k % channels;
                let x = (k / channels) % width;
                let y = (k / channels) / width;
                &&& 0 <= c < channels
                &&& 0 <= x < width
                &&& 0 <= y < height
                &&& flat_index(width, channels, x, y, c) == k
            }),
    {
        let p: int = k / channels;
        let c: int = k % channels;
        assert(width > 0 && height > 0) by (nonlinear_arith)
            requires
                width * height * channels > 0,
                width >= 0,
                height >= 0,
                channels >= 0,
        ;
        let x: int = p % width;
        let y: int = p / width;
        lemma_fundamental_div_mod(k, channels);
        lemma_mod_bound(k, channels);
        lemma_div_pos_is_pos(k, channels);
        assert(p < width * height) by (nonlinear_arith)
            requires
                k == channels * p + c,
                0 <= c < channels,
                k < width * height * channels,
                0 <= p,
                channels > 0,
        ;
        lemma_fundamental_div_mod(p, width);
        lemma_mod_bound(p, width);
        lemma_div_pos_is_pos(p, width);
        assert(y < height) by (nonlinear_arith)
            requires
                p == width * y + x,
                0 <= x < width,
                0 <= p < width * height,
                0 <= y,
                width > 0,
        ;
        assert((y * width + x) * channels + c == k) by (nonlinear_arith)
            requires
                k == channels * p + c,
                p == width * y + x,
        ;
    }

    /// A sample is, by definition, the byte of the flat array at its flat
    /// index.
    pub proof fn lemma_sample_is_data(img: Image, x: int, y: int, c: int)
        ensures
            img.spec_sample(x, y, c) == img.spec_data()[flat_index(
                img.spec_width() as int,
                img.spec_channels() as int,
                x,
                y,
                c,
            )],
    {
    }

    pub fn width(&self) -> (r: u32)
        ensures
            r == self.spec_width(),
    {
        self.width
    }

    pub fn height(&self) -> (r: u32)
        ensures
            r == self.spec_height(),
    {
        self.height
    }

    pub fn channels(&self) -> (r: u8)
        ensures
            r == self.spec_channels(),
    {
        self.channels
    }

    pub fn dimensions(&self) -> (r: (u32, u32))
        ensures
            r.0 == self.spec_width(),
            r.1 == self.spec_height(),
    {
        (self.width, self.height)
    }

    /// Borrows the flat sample array.
    pub fn data(&self) -> (r: &Vec<u8>)
        ensures
            r@ == self.spec_data(),
    {
        &self.data
    }

    /// Reads the value of channel `c` of the pixel at `(x, y)`.
    pub fn sample(&self, x: u32, y: u32, c: u8) -> (r: u8)
        requires
            x < self.spec_width(),
            y < self.spec_height(),
            c < self.spec_channels(),
        ensures
            r == self.spec_sample(x as int, y as int, c as int),
    {
        proof {
            use_type_invariant(self);
            let iw: int = self.width as int;
            let ih: int = self.height as int;
            let ic: int = self.channels as int;
            assert((y as int) * iw + (x as int) < ih * iw) by (nonlinear_arith)
                requires
                    0 <= (y as int) < ih,
                    0 <= (x as int) < iw,
            ;
            assert(((y as int) * iw + (x as int)) * ic + (c as int) < ih * iw * ic)
                by (nonlinear_arith)
                requires
                    0 <= (y as int) * iw + (x as int) < ih * iw,
                    0 <= (c as int) < ic,
            ;
            assert(ih * iw * ic == iw * ih * ic) by (nonlinear_arith);
            assert(0 <= ih * iw) by (nonlinear_arith)
                requires
                    0 <= ih,
                    0 <= iw,
            ;
            assert(ih * iw <= ih * iw * ic) by (nonlinear_arith)
                requires
                    0 <= ih * iw,
                    1 <= ic,
            ;
            assert(0 <= (y as int) * iw) by (nonlinear_arith)
                requires
                    0 <= (y as int),
                    0 <= iw,
            ;
            assert(0 <= ((y as int) * iw + (x as int)) * ic) by (nonlinear_arith)
                requires
                    0 <= (y as int) * iw + (x as int),
                    0 <= ic,
            ;
            vstd::std_specs::vec::axiom_spec_len(&self.data);
        }
        let idx: usize = ((y as usize) * (self.width as usize) + (x as usize)) * (
        self.channels as usize) + (c as usize);
        self.data[idx]
    }
}

} // verus!
