//! Images shown on a toast.

use vstd::prelude::*;

verus! {

/// Where an image is placed.
#[derive(Debug, Clone, Copy, PartialEq, Eq, Structural)]
pub enum ImagePlacement {
    /// In place of the app logo.
    AppLogoOverride,
    /// As the hero image.
    Hero,
}

impl ImagePlacement {
    /// The attribute value naming this placement.
    pub fn as_str(&self) -> (r: &'static str)
        ensures
            r@ == match self {
                ImagePlacement::AppLogoOverride => "appLogoOverride"@,
                ImagePlacement::Hero => "hero"@,
            },
    {
        match self {
            ImagePlacement::AppLogoOverride => "appLogoOverride",
            ImagePlacement::Hero => "hero",
        }
    }
}

/// How an image is cropped.
#[derive(Debug, Clone, Copy, PartialEq, Eq, Structural)]
pub enum ImageHintCrop {
    Circle,
}

impl ImageHintCrop {
    /// The attribute value naming this crop.
    pub fn as_str(&self) -> (r: &'static str)
        ensures
            r@ == "circle"@,
    {
        "circle"
    }
}

/// One image: the URL it is loaded from and how it is shown.
#[derive(Debug)]
pub struct Image {
    /// Source URL as text; a local file is named by its absolute path URL.
    pub src: Vec<u8>,
    pub placement: Option<ImagePlacement>,
    pub hint_crop: Option<ImageHintCrop>,
    pub alt: Option<Vec<u8>>,
}

impl Image {
    /// An image loaded from the given URL text.
    pub fn new(src: Vec<u8>) -> (r: Self)
        ensures
            r.src@ == src@,
            r.placement is None,
            r.hint_crop is None,
            r.alt is None,
    {
        Image { src, placement: None, hint_crop: None, alt: None }
    }

    /// The placement of the image.
    pub fn with_placement(self, placement: ImagePlacement) -> (r: Self)
        ensures
            r == (Image { placement: Some(placement), ..self }),
    {
        Image { placement: Some(placement), ..self }
    }

    /// The cropping of the image.
    pub fn with_hint_crop(self, crop: ImageHintCrop) -> (r: Self)
        ensures
            r == (Image { hint_crop: Some(crop), ..self }),
    {
        Image { hint_crop: Some(crop), ..self }
    }

    /// The alternative text of the image.
    pub fn with_alt(self, alt: Vec<u8>) -> (r: Self)
        ensures
            r == (Image { alt: Some(alt), ..self }),
    {
        Image { alt: Some(alt), ..self }
    }
}

} // verus!
