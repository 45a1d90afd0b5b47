//! RGB rasters and their interleaved byte form.

use vstd::prelude::*;

verus! {

/// Why a raster could not be built: the subpixels do not come in threes, or
/// the pixels do not fill the stated width and height.
#[derive(Clone, Copy, Debug, PartialEq, Eq)]
pub struct MalformedPixelData;

/// What an [`RgbImage`] stands for.
pub struct ImageView {
    /// True of the value that stands for "no frame yet", and of no other.
    pub unset: bool,
    pub width: nat,
    pub height: nat,
    /// The pixels, row after row.
    pub pixels: Seq<[u8; 3]>,
}

impl ImageView {
    /// The pixels fill the raster, and the unset value has no extent.
    pub open spec fn wf(self) -> bool {
        &&& self.pixels.len() == self.width * self.height
        &&& self.unset ==> self.width == 0 && self.height == 0
    }

    pub open spec fn is_empty(self) -> bool {
        self.pixels.len() == 0
    }

    /// The value that stands for "no frame yet".
    pub open spec fn unset_value() -> ImageView {
        ImageView { unset: true, width: 0, height: 0, pixels: Seq::empty() }
    }
}

/// The channel bytes of `pixels`, pixel after pixel, red first.
pub open spec fn interleave(pixels: Seq<[u8; 3]>) -> Seq<u8> {
    Seq::new(3 * pixels.len(), |i: int| pixels[i / 3][i % 3])
}

/// The pixels that `bytes` spell out, three bytes to a pixel; bytes left
/// over at the end belong to no pixel.
pub open spec fn group_pixels(bytes: Seq<u8>) -> Seq<[u8; 3]> {
    Seq::new((bytes.len() / 3) as nat, |k: int| [bytes[3 * k], bytes[3 * k + 1], bytes[3 * k + 2]])
}

/// The raster of `pixels` with the given extent, if they fill it.
pub open spec fn from_pixels_spec(pixels: Seq<[u8; 3]>, height: nat, width: nat) -> Result<
    ImageView,
    MalformedPixelData,
> {
    if pixels.len() == width * height {
        Ok(ImageView { unset: false, width, height, pixels })
    } else {
        Err(MalformedPixelData)
    }
}

/// The raster that the interleaved `bytes` describe: they must come in
/// threes, and the pixels must fill the given extent.
pub open spec fn from_rgb_spec(bytes: Seq<u8>, width: nat, height: nat) -> Result<
    ImageView,
    MalformedPixelData,
> {
    if bytes.len() % 3 == 0 {
        from_pixels_spec(group_pixels(bytes), height, width)
    } else {
        Err(MalformedPixelData)
    }
}

/// Grouping undoes interleaving.
pub proof fn lemma_group_interleave(pixels: Seq<[u8; 3]>)
    ensures
        interleave(pixels).len() == 3 * pixels.len(),
        group_pixels(interleave(pixels)) == pixels,
{
    let back = group_pixels(interleave(pixels));
    assert forall|k: int| 0 <= k < pixels.len() implies back[k] == pixels[k] by {
        let p = pixels[k];
        let q = back[k];
        assert(q[0] == p[0] && q[1] == p[1] && q[2] == p[2]);
        assert(q =~= p);
    }
    assert(back =~= pixels);
}

/// Interleaving undoes grouping, for bytes that come in threes.
pub proof fn lemma_interleave_group(bytes: Seq<u8>)
    requires
        bytes.len() % 3 == 0,
    ensures
        interleave(group_pixels(bytes)) == bytes,
{
    let again = interleave(group_pixels(bytes));
    assert forall|i: int| 0 <= i < bytes.len() implies again[i] == bytes[i] by {
        let p = group_pixels(bytes)[i / 3];
        assert(p[0] == bytes[3 * (i / 3)]);
        assert(p[1] == bytes[3 * (i / 3) + 1]);
        assert(p[2] == bytes[3 * (i / 3) + 2]);
    }
    assert(again =~= bytes);
}

/// Two pixel sequences with the same interleaved bytes are the same.
pub proof fn lemma_interleave_injective(a: Seq<[u8; 3]>, b: Seq<[u8; 3]>)
    requires
        interleave(a) == interleave(b),
    ensures
        a == b,
{
    lemma_group_interleave(a);
    lemma_group_interleave(b);
}

/// A raster written out as interleaved bytes and read back with its own
/// width and height is the raster itself. This holds of every raster that was
/// built from pixels; the unset value reads back as a capture of no extent.
pub proof fn lemma_round_trip(image: ImageView)
    requires
        image.wf(),
        !image.unset,
    ensures
        from_rgb_spec(interleave(image.pixels), image.width, image.height) == Ok::<
            ImageView,
            MalformedPixelData,
        >(image),
{
    lemma_group_interleave(image.pixels);
}

/// Reading interleaved bytes fails exactly when they do not come in threes
/// or the pixels do not fill the stated extent; nothing is cut off or filled
/// in to make them fit.
pub proof fn lemma_malformed_rejected(bytes: Seq<u8>, width: nat, height: nat)
    ensures
        from_rgb_spec(bytes, width, height) is Err <==> (bytes.len() % 3 != 0 || bytes.len() / 3
            != width * height),
        from_rgb_spec(bytes, width, height) matches Ok(image) ==> image.wf() && interleave(
            image.pixels,
        ) == bytes,
{
    if bytes.len() % 3 == 0 {
        lemma_interleave_group(bytes);
    }
}

/// An RGB raster: `width * height` pixels of three channel bytes each, row
/// after row. A raster does not change once it is built.
#[derive(Debug, PartialEq, Eq)]
pub struct RgbImage {
    data: Vec<[u8; 3]>,
    width: u32,
    height: u32,
    unset: bool,
}

impl View for RgbImage {
    type V = ImageView;

    closed spec fn view(&self) -> ImageView {
        ImageView {
            unset: self.unset,
            width: self.width as nat,
            height: self.height as nat,
            pixels: self.data@,
        }
    }
}

/// What the outcome of building a raster stands for.
pub open spec fn built_view(built: Result<RgbImage, MalformedPixelData>) -> Result<
    ImageView,
    MalformedPixelData,
> {
    match built {
        Ok(image) => Ok(image@),
        Err(e) => Err(e),
    }
}

impl Clone for RgbImage {
    fn clone(&self) -> (copy: RgbImage)
        ensures
            copy@ == self@,
    {
        proof {
            use_type_invariant(self);
        }
        let mut data: Vec<[u8; 3]> = Vec::new();
        let mut k: usize = 0;
        while k < self.data.len()
            invariant
                k <= self.data@.len(),
                data@ == self.data@.take(k as int),
            decreases self.data@.len() - k,
        {
            data.push(self.data[k]);
            assert(data@ =~= self.data@.take(k + 1));
            k += 1;
        }
        assert(data@ =~= self.data@);
        RgbImage { data, width: self.width, height: self.height, unset: self.unset }
    }
}

impl RgbImage {
    /// Every raster is well formed.
    #[verifier::type_invariant]
    pub open spec fn well_formed(self) -> bool {
        self@.wf()
    }

    /// The value that stands for "no frame yet": no pixels, no extent, and
    /// told apart from a capture of no extent by [`RgbImage::is_unset`].
    pub fn new() -> (image: RgbImage)
        ensures
            image@ == ImageView::unset_value(),
    {
        RgbImage { data: Vec::new(), width: 0, height: 0, unset: true }
    }

    /// The raster of `data` with the given extent. Fails unless the pixels
    /// fill it.
    pub fn from_pixels(data: Vec<[u8; 3]>, height: u32, width: u32) -> (built: Result<
        RgbImage,
        MalformedPixelData,
    >)
        ensures
            built_view(built) == from_pixels_spec(data@, height as nat, width as nat),
    {
        assert(width * height <= u64::MAX) by (nonlinear_arith)
            requires
                width <= u32::MAX,
                height <= u32::MAX,
        ;
        let wanted: u64 = (width as u64) * (height as u64);
        if data.len() as u64 == wanted {
            Ok(RgbImage { data, width, height, unset: false })
        } else {
            Err(MalformedPixelData)
        }
    }

    /// The raster that the interleaved subpixels `data` describe, red, green
    /// and blue of the first pixel first. Fails unless the subpixels come in
    /// threes and the pixels fill the given extent.
    pub fn from_rgb(data: Vec<u8>, width: u32, height: u32) -> (built: Result<
        RgbImage,
        MalformedPixelData,
    >)
        ensures
            built_view(built) == from_rgb_spec(data@, width as nat, height as nat),
    {
        if data.len() % 3 != 0 {
            return Err(MalformedPixelData);
        }
        let count: usize = data.len() / 3;
        let mut pixels: Vec<[u8; 3]> = Vec::new();
        let mut k: usize = 0;
        while k < count
            invariant
                3 * count == data@.len(),
                data@.len() <= usize::MAX,
                k <= count,
                pixels@.len() == k,
                forall|j: int| 0 <= j < k ==> pixels@[j] == group_pixels(data@)[j],
            decreases count - k,
        {
            let pixel: [u8; 3] = [data[3 * k], data[3 * k + 1], data[3 * k + 2]];
            assert(pixel =~= group_pixels(data@)[k as int]);
            pixels.push(pixel);
            k += 1;
        }
        assert(pixels@ =~= group_pixels(data@));
        RgbImage::from_pixels(pixels, height, width)
    }

    /// The channel bytes of the raster, pixel after pixel in row-major
    /// order: what [`RgbImage::from_rgb`] reads back.
    pub fn as_vec_u8(&self) -> (bytes: Vec<u8>)
        ensures
            bytes@ == interleave(self@.pixels),
    {
        let mut output: Vec<u8> = Vec::new();
        let mut k: usize = 0;
        while k < self.data.len()
            invariant
                k <= self.data@.len(),
                output@.len() == 3 * k,
                forall|i: int| 0 <= i < 3 * k ==> output@[i] == self.data@[i / 3][i % 3],
            decreases self.data@.len() - k,
        {
            let pixel: [u8; 3] = self.data[k];
            output.push(pixel[0]);
            output.push(pixel[1]);
            output.push(pixel[2]);
            k += 1;
        }
        assert(output@ =~= interleave(self.data@));
        output
    }

    /// True if the raster has no pixels.
    pub fn is_empty(&self) -> (empty: bool)
        ensures
            empty == self@.is_empty(),
    {
        self.data.len() == 0
    }

    /// True of the value that stands for "no frame yet", and of no other.
    pub fn is_unset(&self) -> (unset: bool)
        ensures
            unset == self@.unset,
    {
        self.unset
    }

    pub fn width(&self) -> (width: u32)
        ensures
            width == self@.width,
    {
        self.width
    }

    pub fn height(&self) -> (height: u32)
        ensures
            height == self@.height,
    {
        self.height
    }

    /// The pixels, row after row.
    pub fn data(&self) -> (pixels: &Vec<[u8; 3]>)
        ensures
            pixels@ == self@.pixels,
    {
        &self.data
    }
}

} // verus!
