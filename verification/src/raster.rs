//! The working raster: a decoded image of the `image` crate, opaque to the
//! verifier, carried beside its pixel dimensions as plain values. The two
//! pixel operations the pyramid needs — resampling a level and cropping a
//! tile — are wrappers around the `image` crate.

use vstd::prelude::*;

verus! {

#[verifier::external_type_specification]
#[verifier::external_body]
pub struct ExDynamicImage(image::DynamicImage);

/// A raster and its recorded dimensions. The image value itself is opaque;
/// the logic works on the recorded `width` and `height`.
pub struct Raster {
    pub image: image::DynamicImage,
    pub width: u32,
    pub height: u32,
}

impl Raster {
    /// Relies on `image::imageops::resize`, which samples the image down
    /// (or up) to a buffer of exactly the requested dimensions; the
    /// triangle (bilinear-family) filter is used for level transitions.
    #[verifier::external_body]
    pub fn resample(&self, width: u32, height: u32) -> (r: Raster)
        requires
            1 <= width,
            1 <= height,
        ensures
            r.width == width,
            r.height == height,
    {
        let buf = image::imageops::resize(
            &self.image,
            width,
            height,
            image::imageops::FilterType::Triangle,
        );
        Raster { image: image::DynamicImage::ImageRgba8(buf), width, height }
    }

    /// Relies on `image::DynamicImage::crop_imm`, which returns exactly the
    /// requested rectangle whenever that rectangle lies inside the image's
    /// bounds.
    #[verifier::external_body]
    pub fn crop(&self, left: u32, upper: u32, width: u32, height: u32) -> (r: Raster)
        requires
            left + width <= self.width,
            upper + height <= self.height,
            1 <= width,
            1 <= height,
        ensures
            r.width == width,
            r.height == height,
    {
        Raster { image: self.image.crop_imm(left, upper, width, height), width, height }
    }
}

} // verus!
