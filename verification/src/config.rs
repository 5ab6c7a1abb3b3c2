//! What is refused before a render starts, so that nothing fails in the
//! middle of one.
use crate::fixed::quotient;
use crate::fixed::Fixed;
use crate::fixed::ONE_RAW;
use vstd::prelude::*;

verus! {

/// Why a scene or the settings of a render are refused.
#[derive(Clone, Copy, Debug, PartialEq, Eq, Structural)]
pub enum ConfigError {
    /// The image has no columns or no rows.
    EmptyImage,
    /// No sample is taken for a pixel.
    NoSamples,
    /// A sphere's radius is negative.
    NegativeRadius,
    /// A metal's fuzz lies outside `[0, 1]`.
    FuzzOutOfRange,
}

/// The size of the image and the effort spent on each pixel.
#[derive(Clone, Copy, Debug, PartialEq, Eq, Structural)]
pub struct RenderSettings {
    pub image_width: i32,
    pub image_height: i32,
    pub samples_per_pixel: i32,
    pub max_depth: i32,
}

impl RenderSettings {
    /// The image is not empty and every pixel gets a sample.
    pub open spec fn wf(self) -> bool {
        self.image_width > 0 && self.image_height > 0 && self.samples_per_pixel > 0
    }

    /// The settings, if the image is not empty and every pixel gets a sample.
    /// A `max_depth` under one is accepted: it gives a black image.
    pub fn new(image_width: i32, image_height: i32, samples_per_pixel: i32, max_depth: i32) -> (res:
        Result<RenderSettings, ConfigError>)
        ensures
            res is Ok <==> image_width > 0 && image_height > 0 && samples_per_pixel > 0,
            res matches Ok(settings) ==> settings.wf() && settings == (RenderSettings {
                image_width,
                image_height,
                samples_per_pixel,
                max_depth,
            }),
            res == Err::<RenderSettings, ConfigError>(ConfigError::EmptyImage) <==> image_width <= 0
                || image_height <= 0,
            res == Err::<RenderSettings, ConfigError>(ConfigError::NoSamples) <==> image_width > 0
                && image_height > 0 && samples_per_pixel <= 0,
    {
        if image_width <= 0 || image_height <= 0 {
            Err(ConfigError::EmptyImage)
        } else if samples_per_pixel <= 0 {
            Err(ConfigError::NoSamples)
        } else {
            Ok(RenderSettings { image_width, image_height, samples_per_pixel, max_depth })
        }
    }

    /// The number of rows of an image with `image_width` columns and the
    /// given ratio of width to height, rounded toward zero.
    pub fn height_for(image_width: i32, aspect_ratio: Fixed) -> (rows: i32)
        ensures
            rows == quotient(Fixed::whole(image_width as int).over(aspect_ratio)@, ONE_RAW as int),
    {
        Fixed::from_int(image_width).div(aspect_ratio).to_int()
    }
}

} // verus!
