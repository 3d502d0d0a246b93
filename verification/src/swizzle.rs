//! The channel-swizzling engine.
//!
//! A swizzle call takes up to four optional channel sources and packs them
//! into a freshly allocated image with one output channel per slot. Every
//! declared channel is copied sample by sample; an undeclared slot is filled
//! with a default value: zero for a color channel, the maximum value for the
//! alpha-like last channel of a two- or four-channel output.

use crate::errors::ErrorKind;
use crate::raster::{flat_index, Image};
use vstd::arithmetic::div_mod::{
    lemma_fundamental_div_mod_converse_div, lemma_fundamental_div_mod_converse_mod,
};
use vstd::prelude::*;

verus! {

/// One input source of a swizzle: an image and the index of the channel to
/// read out of it.
#[derive(Clone, Copy)]
pub struct ChannelDescriptor<'a> {
    pub channel: u8,
    pub img: &'a Image,
}

impl<'a> ChannelDescriptor<'a> {
    /// Pairs an image with the channel index to read from it.
    pub fn from_image(img: &'a Image, channel: u8) -> (r: Result<ChannelDescriptor<'a>, ErrorKind>)
        ensures
            r matches Ok(d) && d.img == img && d.channel == channel,
    {
        Ok(ChannelDescriptor { channel, img })
    }
}

/// Slot `i` of `descs` holds a source.
pub open spec fn is_present(descs: Seq<Option<ChannelDescriptor>>, i: int) -> bool {
    0 <= i < descs.len() && descs[i] is Some
}

/// At least one slot holds a source.
pub open spec fn some_present(descs: Seq<Option<ChannelDescriptor>>) -> bool {
    exists|i: int| is_present(descs, i)
}

/// All present sources have the same dimensions.
pub open spec fn dims_agree(descs: Seq<Option<ChannelDescriptor>>) -> bool {
    forall|i: int, j: int| #![trigger is_present(descs, i), is_present(descs, j)]
        is_present(descs, i) && is_present(descs, j) ==> {
            &&& descs[i]->Some_0.img.spec_width() == descs[j]->Some_0.img.spec_width()
            &&& descs[i]->Some_0.img.spec_height() == descs[j]->Some_0.img.spec_height()
        }
}

/// Every present source asks for a channel its image actually has.
pub open spec fn channels_in_range(descs: Seq<Option<ChannelDescriptor>>) -> bool {
    forall|i: int| #[trigger] is_present(descs, i)
        ==> descs[i]->Some_0.channel < descs[i]->Some_0.img.spec_channels()
}

/// Every present source has dimensions `w` by `h`.
pub open spec fn all_dims(descs: Seq<Option<ChannelDescriptor>>, w: u32, h: u32) -> bool {
    forall|i: int| #[trigger] is_present(descs, i) ==> {
        &&& descs[i]->Some_0.img.spec_width() == w
        &&& descs[i]->Some_0.img.spec_height() == h
    }
}

/// The value an undeclared slot `i` receives in a `channels`-channel output:
/// zero, except the alpha-like last channel of a two- or four-channel image,
/// which is fully opaque.
pub open spec fn default_sample(channels: int, i: int) -> u8 {
    if (channels == 2 || channels == 4) && i == channels - 1 {
        255u8
    } else {
        0u8
    }
}

/// The value channel `i` of the output pixel at `(x, y)` must hold: the
/// source's sample where slot `i` is declared, the default otherwise.
pub open spec fn spec_swizzle_sample(
    descs: Seq<Option<ChannelDescriptor>>,
    x: int,
    y: int,
    i: int,
) -> u8 {
    match descs[i] {
        Some(d) => d.img.spec_sample(x, y, d.channel as int),
        None => default_sample(descs.len() as int, i),
    }
}

/// What every swizzle over the slots `descs` returns.
///
/// Success exactly when at least one source is present, all present sources
/// agree on dimensions and every requested channel exists; the output then
/// has one channel per slot, the common source dimensions, and every sample
/// pinned by [`spec_swizzle_sample`]. Otherwise the error states the first
/// failed condition, in that order.
pub open spec fn swizzle_post(
    descs: Seq<Option<ChannelDescriptor>>,
    r: Result<Image, ErrorKind>,
) -> bool {
    match r {
        Ok(out) => {
            &&& some_present(descs)
            &&& dims_agree(descs)
            &&& channels_in_range(descs)
            &&& out.spec_channels() == descs.len()
            &&& all_dims(descs, out.spec_width(), out.spec_height())
            &&& out.spec_data().len() == (out.spec_width() as int) * (out.spec_height() as int)
                * (descs.len() as int)
            &&& forall|x: int, y: int, c: int|
                0 <= x < out.spec_width() && 0 <= y < out.spec_height() && 0 <= c < descs.len()
                    ==> #[trigger] out.spec_sample(x, y, c) == spec_swizzle_sample(descs, x, y, c)
        },
        Err(e) => {
            &&& !(some_present(descs) && dims_agree(descs) && channels_in_range(descs))
            &&& e == (if !some_present(descs) {
                ErrorKind::EmptyDescriptor
            } else if !dims_agree(descs) {
                ErrorKind::InvalidSize
            } else {
                ErrorKind::Invalid
            })
        },
    }
}

/// Value of the flat output byte `k` of a swizzle over `descs` with output
/// width `width`.
pub open spec fn spec_swizzle_flat(
    descs: Seq<Option<ChannelDescriptor>>,
    width: int,
    k: int,
) -> u8 {
    let n = descs.len() as int;
    let p = k / n;
    spec_swizzle_sample(descs, p % width, p / width, k % n)
}

proof fn lemma_flat_decomp(w: int, n: int, x: int, y: int, i: int)
    requires
        0 <= x < w,
        0 <= i < n,
        0 <= y,
    ensures
        ((y * w + x) * n + i) / n == y * w + x,
        ((y * w + x) * n + i) % n == i,
        (y * w + x) / w == y,
        (y * w + x) % w == x,
{
    lemma_fundamental_div_mod_converse_div((y * w + x) * n + i, n, y * w + x, i);
    lemma_fundamental_div_mod_converse_mod((y * w + x) * n + i, n, y * w + x, i);
    lemma_fundamental_div_mod_converse_div(y * w + x, w, y, x);
    lemma_fundamental_div_mod_converse_mod(y * w + x, w, y, x);
}

fn default_value(n: usize, i: usize) -> (r: u8)
    ensures
        r == default_sample(n as int, i as int),
{
    if (n == 2 || n == 4) && i == n - 1 {
        255
    } else {
        0
    }
}

fn swizzle_core(descs: &Vec<Option<ChannelDescriptor>>) -> (r: Result<Image, ErrorKind>)
    requires
        1 <= descs@.len() <= 4,
    ensures
        swizzle_post(descs@, r),
{
    let n = descs.len();
    // Common dimensions of the present sources.
    let mut width: u32 = 0;
    let mut height: u32 = 0;
    let mut found: bool = false;
    let mut j: usize = 0;
    while j < n
        invariant
            0 <= j <= n,
            n == descs@.len(),
            1 <= n <= 4,
            found <==> exists|i: int| 0 <= i < j && is_present(descs@, i),
            forall|i: int| 0 <= i < j && #[trigger] is_present(descs@, i) ==> {
                &&& descs@[i]->Some_0.img.spec_width() == width
                &&& descs@[i]->Some_0.img.spec_height() == height
            },
        decreases n - j,
    {
        match &descs[j] {
            Some(d) => {
                proof {
                    assert(is_present(descs@, j as int));
                }
                let (dw, dh) = d.img.dimensions();
                if !found {
                    width = dw;
                    height = dh;
                    found = true;
                } else if dw != width || dh != height {
                    proof {
                        let i0 = choose|i: int| 0 <= i < j && is_present(descs@, i);
                        assert(is_present(descs@, i0));
                        assert(is_present(descs@, j as int));
                        assert(!dims_agree(descs@));
                        assert(some_present(descs@));
                    }
                    return Err(ErrorKind::InvalidSize);
                }
            },
            None => {
                proof {
                    assert(!is_present(descs@, j as int));
                }
            },
        }
        j += 1;
    }
    if !found {
        proof {
            assert(forall|i: int| !is_present(descs@, i));
        }
        return Err(ErrorKind::EmptyDescriptor);
    }
    proof {
        assert(all_dims(descs@, width, height));
        assert(dims_agree(descs@));
    }
    // Requested channels must exist in their sources.
    let mut j: usize = 0;
    while j < n
        invariant
            0 <= j <= n,
            n == descs@.len(),
            1 <= n <= 4,
            some_present(descs@),
            dims_agree(descs@),
            all_dims(descs@, width, height),
            forall|i: int| 0 <= i < j && #[trigger] is_present(descs@, i)
                ==> descs@[i]->Some_0.channel < descs@[i]->Some_0.img.spec_channels(),
        decreases n - j,
    {
        match &descs[j] {
            Some(d) => {
                if d.channel >= d.img.channels() {
                    proof {
                        assert(is_present(descs@, j as int));
                        assert(!channels_in_range(descs@));
                    }
                    return Err(ErrorKind::Invalid);
                }
            },
            None => {},
        }
        j += 1;
    }
    proof {
        assert(channels_in_range(descs@));
    }
    // Copy the samples row by row, pixel by pixel, slot by slot.
    let ghost iw: int = width as int;
    let ghost ih: int = height as int;
    let ghost ni: int = n as int;
    let mut data: Vec<u8> = Vec::new();
    let mut y: u32 = 0;
    proof {
        assert((0int) * iw * ni == 0) by (nonlinear_arith);
    }
    while y < height
        invariant
            0 <= y <= height,
            n == descs@.len(),
            1 <= n <= 4,
            iw == width as int,
            ih == height as int,
            ni == n as int,
            some_present(descs@),
            dims_agree(descs@),
            channels_in_range(descs@),
            all_dims(descs@, width, height),
            data@.len() == (y as int) * iw * ni,
            forall|k: int| 0 <= k < data@.len()
                ==> #[trigger] data@[k] == spec_swizzle_flat(descs@, iw, k),
        decreases height - y,
    {
        let mut x: u32 = 0;
        proof {
            assert((y as int) * iw * ni == ((y as int) * iw + 0) * ni) by (nonlinear_arith);
        }
        while x < width
            invariant
                0 <= x <= width,
                0 <= y < height,
                n == descs@.len(),
                1 <= n <= 4,
                iw == width as int,
                ih == height as int,
                ni == n as int,
                some_present(descs@),
                dims_agree(descs@),
                channels_in_range(descs@),
                all_dims(descs@, width, height),
                data@.len() == ((y as int) * iw + (x as int)) * ni,
                forall|k: int| 0 <= k < data@.len()
                    ==> #[trigger] data@[k] == spec_swizzle_flat(descs@, iw, k),
            decreases width - x,
        {
            let mut i: usize = 0;
            while i < n
                invariant
                    0 <= i <= n,
                    0 <= x < width,
                    0 <= y < height,
                    n == descs@.len(),
                    1 <= n <= 4,
                    iw == width as int,
                    ih == height as int,
                    ni == n as int,
                    some_present(descs@),
                    dims_agree(descs@),
                    channels_in_range(descs@),
                    all_dims(descs@, width, height),
                    data@.len() == ((y as int) * iw + (x as int)) * ni + (i as int),
                    forall|k: int| 0 <= k < data@.len()
                        ==> #[trigger] data@[k] == spec_swizzle_flat(descs@, iw, k),
                decreases n - i,
            {
                let v: u8 = match &descs[i] {
                    Some(d) => {
                        proof {
                            assert(is_present(descs@, i as int));
                        }
                        d.img.sample(x, y, d.channel)
                    },
                    None => default_value(n, i),
                };
                proof {
                    lemma_flat_decomp(iw, ni, x as int, y as int, i as int);
                    assert(v == spec_swizzle_flat(descs@, iw, ((y as int) * iw + (x as int)) * ni
                        + (i as int)));
                }
                data.push(v);
                i += 1;
            }
            proof {
                assert(((y as int) * iw + (x as int)) * ni + ni == ((y as int) * iw + ((
                x as int) + 1)) * ni) by (nonlinear_arith);
            }
            x += 1;
        }
        proof {
            assert(((y as int) * iw + iw) * ni == (((y as int) + 1) * iw + 0) * ni)
                by (nonlinear_arith);
            assert((((y as int) + 1) * iw + 0) * ni == ((y as int) + 1) * iw * ni)
                by (nonlinear_arith);
        }
        y += 1;
    }
    proof {
        assert(ih * iw * ni == iw * ih * ni) by (nonlinear_arith);
        assert((ih * iw + 0) * ni == ih * iw * ni) by (nonlinear_arith);
    }
    let out = Image::new_exact(width, height, n as u8, data);
    proof {
        assert forall|x: int, yy: int, c: int|
            0 <= x < out.spec_width() && 0 <= yy < out.spec_height() && 0 <= c < descs@.len()
            implies #[trigger] out.spec_sample(x, yy, c) == spec_swizzle_sample(
            descs@,
            x,
            yy,
            c,
        ) by {
            lemma_flat_decomp(iw, ni, x, yy, c);
            assert(0 <= (yy * iw + x) * ni + c < iw * ih * ni) by (nonlinear_arith)
                requires
                    0 <= x < iw,
                    0 <= yy < ih,
                    0 <= c < ni,
            ;
            assert(out.spec_sample(x, yy, c) == out.spec_data()[flat_index(iw, ni, x, yy, c)]);
            assert(out.spec_data()[(yy * iw + x) * ni + c] == spec_swizzle_flat(
                descs@,
                iw,
                (yy * iw + x) * ni + c,
            ));
        }
    }
    Ok(out)
}

/// Packs between one and four optional channel sources into an image with one
/// channel per slot. A call with more than four slots uses the first four,
/// as the four-channel output has no room for more.
pub fn to_dynamic(descriptors: &Vec<Option<ChannelDescriptor>>) -> (r: Result<Image, ErrorKind>)
    requires
        descriptors@.len() >= 1,
    ensures
        descriptors@.len() <= 4 ==> swizzle_post(descriptors@, r),
        descriptors@.len() > 4 ==> swizzle_post(descriptors@.take(4), r),
{
    if descriptors.len() <= 4 {
        swizzle_core(descriptors)
    } else {
        let mut first: Vec<Option<ChannelDescriptor>> = Vec::new();
        first.push(descriptors[0]);
        first.push(descriptors[1]);
        first.push(descriptors[2]);
        first.push(descriptors[3]);
        proof {
            assert(first@ =~= descriptors@.take(4));
        }
        swizzle_core(&first)
    }
}

/// Generates a single-channel grayscale image from one required descriptor.
pub fn to_luma<'a>(r: &ChannelDescriptor<'a>) -> (res: Result<Image, ErrorKind>)
    ensures
        swizzle_post(seq![Some(*r)], res),
{
    let mut v: Vec<Option<ChannelDescriptor>> = Vec::new();
    v.push(Some(*r));
    proof {
        assert(v@ =~= seq![Some(*r)]);
    }
    swizzle_core(&v)
}

/// Generates a two-channel grayscale-alpha image; a missing slot is filled
/// with its default value.
pub fn to_luma_a<'a>(
    r: &Option<ChannelDescriptor<'a>>,
    a: &Option<ChannelDescriptor<'a>>,
) -> (res: Result<Image, ErrorKind>)
    ensures
        swizzle_post(seq![*r, *a], res),
{
    let mut v: Vec<Option<ChannelDescriptor>> = Vec::new();
    v.push(*r);
    v.push(*a);
    proof {
        assert(v@ =~= seq![*r, *a]);
    }
    swizzle_core(&v)
}

/// Generates a three-channel image; missing slots are filled with their
/// default values.
pub fn to_rgb<'a>(
    r: &Option<ChannelDescriptor<'a>>,
    g: &Option<ChannelDescriptor<'a>>,
    b: &Option<ChannelDescriptor<'a>>,
) -> (res: Result<Image, ErrorKind>)
    ensures
        swizzle_post(seq![*r, *g, *b], res),
{
    let mut v: Vec<Option<ChannelDescriptor>> = Vec::new();
    v.push(*r);
    v.push(*g);
    v.push(*b);
    proof {
        assert(v@ =~= seq![*r, *g, *b]);
    }
    swizzle_core(&v)
}

/// Generates a four-channel image; missing slots are filled with their
/// default values, so a missing fourth slot stays fully opaque.
pub fn to_rgba<'a>(
    r: &Option<ChannelDescriptor<'a>>,
    g: &Option<ChannelDescriptor<'a>>,
    b: &Option<ChannelDescriptor<'a>>,
    a: &Option<ChannelDescriptor<'a>>,
) -> (res: Result<Image, ErrorKind>)
    ensures
        swizzle_post(seq![*r, *g, *b, *a], res),
{
    let mut v: Vec<Option<ChannelDescriptor>> = Vec::new();
    v.push(*r);
    v.push(*g);
    v.push(*b);
    v.push(*a);
    proof {
        assert(v@ =~= seq![*r, *g, *b, *a]);
    }
    swizzle_core(&v)
}

/// `i` is the position of the first `:` of `s`.
pub open spec fn is_first_colon(s: Seq<char>, i: int) -> bool {
    &&& 0 <= i < s.len()
    &&& s[i] == ':'
    &&& forall|j: int| 0 <= j < i ==> s[j] != ':'
}

/// `s` contains a `:`.
pub open spec fn has_colon(s: Seq<char>) -> bool {
    exists|i: int| is_first_colon(s, i)
}

/// Position of the first `:` of `s`.
pub open spec fn first_colon(s: Seq<char>) -> int {
    choose|i: int| is_first_colon(s, i)
}

/// `i` is the position of the first `:` of `s` at or after `from`.
pub open spec fn is_colon_from(s: Seq<char>, from: int, i: int) -> bool {
    &&& from <= i < s.len()
    &&& s[i] == ':'
    &&& forall|j: int| from <= j < i ==> s[j] != ':'
}

/// The second `:`-separated piece of `s`: what stands between the first `:`
/// and the next one, or the end.
pub open spec fn spec_channel_part(s: Seq<char>) -> Seq<char> {
    let start = first_colon(s) + 1;
    if exists|i: int| is_colon_from(s, start, i) {
        s.subrange(start, choose|i: int| is_colon_from(s, start, i))
    } else {
        s.subrange(start, s.len() as int)
    }
}

/// `c` is a decimal digit.
pub open spec fn is_digit(c: char) -> bool {
    48 <= c as int <= 57
}

/// Value of the decimal digit `c`.
pub open spec fn digit_val(c: char) -> int {
    c as int - 48
}

/// `s` is a non-empty string of decimal digits.
pub open spec fn all_digits(s: Seq<char>) -> bool {
    s.len() > 0 && forall|i: int| 0 <= i < s.len() ==> is_digit(#[trigger] s[i])
}

/// The number the digit string `s` denotes.
pub open spec fn digits_value(s: Seq<char>) -> int
    decreases s.len(),
{
    if s.len() == 0 {
        0
    } else {
        digits_value(s.drop_last()) * 10 + digit_val(s.last())
    }
}

/// `s` denotes a channel index: a digit string whose value fits in a byte.
pub open spec fn valid_channel(s: Seq<char>) -> bool {
    all_digits(s) && digits_value(s) <= 255
}

proof fn lemma_first_colon_unique(s: Seq<char>, i: int)
    requires
        is_first_colon(s, i),
    ensures
        has_colon(s),
        first_colon(s) == i,
{
    let i2 = first_colon(s);
    assert(is_first_colon(s, i2));
    if i2 < i {
        assert(s[i2] != ':');
        assert(false);
    }
    if i < i2 {
        assert(s[i] != ':');
        assert(false);
    }
}

proof fn lemma_colon_from_unique(s: Seq<char>, from: int, i: int)
    requires
        is_colon_from(s, from, i),
    ensures
        (choose|k: int| is_colon_from(s, from, k)) == i,
{
    let i2 = choose|k: int| is_colon_from(s, from, k);
    assert(is_colon_from(s, from, i2));
    if i2 < i {
        assert(s[i2] != ':');
        assert(false);
    }
    if i < i2 {
        assert(s[i] != ':');
        assert(false);
    }
}

/// A string of digits denotes a non-negative number.
proof fn lemma_digits_nonneg(s: Seq<char>)
    requires
        forall|i: int| 0 <= i < s.len() ==> is_digit(#[trigger] s[i]),
    ensures
        0 <= digits_value(s),
    decreases s.len(),
{
    if s.len() > 0 {
        lemma_digits_nonneg(s.drop_last());
    }
}

/// A digit string's prefixes denote values no larger than the whole string's.
proof fn lemma_digits_prefix(s: Seq<char>, j: int)
    requires
        all_digits(s),
        0 <= j <= s.len(),
    ensures
        digits_value(s.take(j)) <= digits_value(s),
    decreases s.len() - j,
{
    if j == s.len() {
        assert(s.take(j) =~= s);
    } else {
        lemma_digits_prefix(s, j + 1);
        assert(s.take(j + 1).drop_last() =~= s.take(j));
        assert(s.take(j + 1).last() == s[j]);
        assert(forall|i: int| 0 <= i < s.take(j).len() ==> is_digit(#[trigger] s.take(j)[i]));
        lemma_digits_nonneg(s.take(j));
    }
}

/// Splits a textual channel descriptor `path:channel` into the path and the
/// channel index. The text up to the first `:` is the path; the piece between
/// the first `:` and the next one, or the end, must be a decimal number that
/// fits in a byte. A text without `:` is rejected naming the text; a bad
/// number piece is rejected naming the number.
pub fn parse_description(input: &str) -> (r: Result<(String, u8), ErrorKind>)
    ensures
        match r {
            Ok(pc) => {
                &&& has_colon(input@)
                &&& pc.0@ == input@.subrange(0, first_colon(input@))
                &&& valid_channel(spec_channel_part(input@))
                &&& pc.1 as int == digits_value(spec_channel_part(input@))
            },
            Err(e) => {
                &&& !(has_colon(input@) && valid_channel(spec_channel_part(input@)))
                &&& match e {
                    ErrorKind::InvalidDescriptorString(m) => m@ == (if !has_colon(input@) {
                        input@
                    } else {
                        "failed to parse channel"@
                    }),
                    _ => false,
                }
            },
        },
{
    let n = input.unicode_len();
    // The first separator.
    let mut c1: usize = 0;
    let mut found: bool = false;
    let mut i: usize = 0;
    while i < n
        invariant
            0 <= i <= n,
            n == input@.len(),
            found ==> c1 < n && is_first_colon(input@, c1 as int),
            !found ==> forall|j: int| 0 <= j < i ==> input@[j] != ':',
        decreases n - i,
    {
        if !found && input.get_char(i) == ':' {
            found = true;
            c1 = i;
        }
        i += 1;
    }
    if !found {
        proof {
            assert(forall|i: int| !is_first_colon(input@, i));
        }
        return Err(ErrorKind::InvalidDescriptorString(input.to_owned()));
    }
    proof {
        lemma_first_colon_unique(input@, c1 as int);
    }
    let path = input.substring_char(0, c1).to_owned();
    // The channel piece: up to the next separator or the end.
    let mut c2: usize = n;
    let mut found2: bool = false;
    let mut i2: usize = c1 + 1;
    while i2 < n
        invariant
            c1 as int + 1 <= i2 as int <= n,
            c1 < n,
            n == input@.len(),
            found2 ==> c1 as int + 1 <= c2 as int && c2 < n && is_colon_from(
                input@,
                c1 as int + 1,
                c2 as int,
            ),
            !found2 ==> c2 == n && forall|j: int| c1 as int + 1 <= j < i2 as int ==> input@[j]
                != ':',
        decreases n - i2,
    {
        if !found2 && input.get_char(i2) == ':' {
            found2 = true;
            c2 = i2;
        }
        i2 += 1;
    }
    proof {
        if found2 {
            lemma_colon_from_unique(input@, c1 as int + 1, c2 as int);
        } else {
            assert(forall|i: int| !(#[trigger] is_colon_from(input@, c1 as int + 1, i)));
        }
        assert(spec_channel_part(input@) == input@.subrange(c1 as int + 1, c2 as int));
    }
    let part = input.substring_char(c1 + 1, c2);
    let ghost ps = part@;
    let m = part.unicode_len();
    if m == 0 {
        return Err(ErrorKind::InvalidDescriptorString("failed to parse channel".to_owned()));
    }
    let mut acc: u32 = 0;
    let mut j: usize = 0;
    while j < m
        invariant
            0 <= j <= m,
            0 < m == ps.len(),
            ps == part@,
            ps == spec_channel_part(input@),
            has_colon(input@),
            acc <= 255,
            acc as int == digits_value(ps.take(j as int)),
            forall|i: int| 0 <= i < j ==> is_digit(#[trigger] ps[i]),
        decreases m - j,
    {
        let c = part.get_char(j);
        let cu = c as u32;
        if cu < 48 || cu > 57 {
            proof {
                assert(!is_digit(ps[j as int]));
                assert(!all_digits(ps));
            }
            return Err(ErrorKind::InvalidDescriptorString("failed to parse channel".to_owned()));
        }
        let d: u32 = cu - 48;
        let next: u32 = acc * 10 + d;
        proof {
            assert(ps.take(j as int + 1).drop_last() =~= ps.take(j as int));
            assert(ps.take(j as int + 1).last() == ps[j as int]);
        }
        if next > 255 {
            proof {
                if all_digits(ps) {
                    lemma_digits_prefix(ps, j as int + 1);
                }
            }
            return Err(ErrorKind::InvalidDescriptorString("failed to parse channel".to_owned()));
        }
        acc = next;
        j += 1;
    }
    proof {
        assert(ps.take(m as int) =~= ps);
        assert(all_digits(ps));
    }
    Ok((path, acc as u8))
}

/// A swizzle over present, dimension-agreeing sources with valid channels
/// succeeds, and the output has exactly the common source dimensions.
pub proof fn lemma_swizzle_dimensions(
    descs: Seq<Option<ChannelDescriptor>>,
    r: Result<Image, ErrorKind>,
    i: int,
)
    requires
        swizzle_post(descs, r),
        is_present(descs, i),
        dims_agree(descs),
        channels_in_range(descs),
    ensures
        r is Ok,
        r->Ok_0.spec_width() == descs[i]->Some_0.img.spec_width(),
        r->Ok_0.spec_height() == descs[i]->Some_0.img.spec_height(),
{
    assert(some_present(descs));
}

/// A swizzle whose present sources disagree on dimensions reports the
/// dimension-mismatch error and returns no image.
pub proof fn lemma_swizzle_dimension_mismatch(
    descs: Seq<Option<ChannelDescriptor>>,
    r: Result<Image, ErrorKind>,
)
    requires
        swizzle_post(descs, r),
        !dims_agree(descs),
    ensures
        r == Result::<Image, ErrorKind>::Err(ErrorKind::InvalidSize),
{
    let (i, j): (int, int) = choose|i: int, j: int|
        is_present(descs, i) && is_present(descs, j) && !{
            &&& descs[i]->Some_0.img.spec_width() == descs[j]->Some_0.img.spec_width()
            &&& descs[i]->Some_0.img.spec_height() == descs[j]->Some_0.img.spec_height()
        };
    assert(is_present(descs, i));
    assert(some_present(descs));
}

/// A swizzle with no present source at all reports the empty-input error.
pub proof fn lemma_swizzle_empty(
    descs: Seq<Option<ChannelDescriptor>>,
    r: Result<Image, ErrorKind>,
)
    requires
        swizzle_post(descs, r),
        !some_present(descs),
    ensures
        r == Result::<Image, ErrorKind>::Err(ErrorKind::EmptyDescriptor),
{
}

/// Two results of one swizzle description are interchangeable: the same
/// error, or images that agree on dimensions, channel count, and every byte
/// of the sample array.
pub proof fn lemma_swizzle_deterministic(
    descs: Seq<Option<ChannelDescriptor>>,
    r1: Result<Image, ErrorKind>,
    r2: Result<Image, ErrorKind>,
)
    requires
        swizzle_post(descs, r1),
        swizzle_post(descs, r2),
    ensures
        r1 is Ok <==> r2 is Ok,
        r1 is Err ==> r1 == r2,
        r1 is Ok ==> {
            &&& r1->Ok_0.spec_width() == r2->Ok_0.spec_width()
            &&& r1->Ok_0.spec_height() == r2->Ok_0.spec_height()
            &&& r1->Ok_0.spec_channels() == r2->Ok_0.spec_channels()
            &&& r1->Ok_0.spec_data() == r2->Ok_0.spec_data()
        },
{
    if r1 is Ok && r2 is Ok {
        let a = r1->Ok_0;
        let b = r2->Ok_0;
        let i0 = choose|i: int| is_present(descs, i);
        assert(is_present(descs, i0));
        let w: int = a.spec_width() as int;
        let h: int = a.spec_height() as int;
        let ni: int = descs.len() as int;
        assert(b.spec_width() == w && b.spec_height() == h);
        assert forall|k: int| 0 <= k < a.spec_data().len() implies a.spec_data()[k]
            == b.spec_data()[k] by {
            Image::lemma_flat_index_decompose(w, h, ni, k);
            let c: int = k % ni;
            let x: int = (k / ni) % w;
            let yy: int = (k / ni) / w;
            Image::lemma_sample_is_data(a, x, yy, c);
            Image::lemma_sample_is_data(b, x, yy, c);
            assert(a.spec_sample(x, yy, c) == spec_swizzle_sample(descs, x, yy, c));
            assert(b.spec_sample(x, yy, c) == spec_swizzle_sample(descs, x, yy, c));
        }
        assert(a.spec_data() =~= b.spec_data());
    }
}

} // verus!
