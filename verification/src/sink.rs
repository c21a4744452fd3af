//! What an extraction hands out: the decoded images, in the order in which
//! they are met, and the failure that ended it, if one did.

use vstd::prelude::*;
use crate::error::ExtractError;
use crate::raster::{Raster, RasterView};

verus! {

/// What a decoded image is: its place in its bank and its raster.
pub ghost struct BankImageView {
    pub position: int,
    pub raster: RasterView,
}

/// A decoded image with its place in the image bank it came from; the first
/// image of a bank has place 0.
#[derive(Debug, PartialEq, Eq)]
pub struct BankImage {
    pub position: u32,
    pub raster: Raster,
}

impl View for BankImage {
    type V = BankImageView;

    open spec fn view(&self) -> BankImageView {
        BankImageView { position: self.position as int, raster: self.raster@ }
    }
}

impl Clone for BankImage {
    fn clone(&self) -> (copy: Self)
        ensures
            copy@ == self@,
    {
        BankImage { position: self.position, raster: self.raster.clone() }
    }
}

/// What a sequence of decoded images is.
pub open spec fn image_views(images: Seq<BankImage>) -> Seq<BankImageView> {
    images.map_values(|image: BankImage| image@)
}

/// The outcome of a walk: the images decoded on the way and, where the walk
/// failed, the reason. The images decoded before a failure are part of the
/// outcome.
pub ghost struct Outcome {
    pub images: Seq<BankImageView>,
    pub failure: Option<ExtractError>,
}

impl Outcome {
    /// The walk came to its end and met no image.
    pub open spec fn complete() -> Outcome {
        Outcome { images: Seq::empty(), failure: None }
    }

    /// The walk failed before it met an image.
    pub open spec fn failed(reason: ExtractError) -> Outcome {
        Outcome { images: Seq::empty(), failure: Some(reason) }
    }

    /// This outcome, with `images` decoded before it.
    pub open spec fn after(self, images: Seq<BankImageView>) -> Outcome {
        Outcome { images: images + self.images, failure: self.failure }
    }

    /// What the caller is told.
    pub open spec fn as_result(self) -> Result<(), ExtractError> {
        match self.failure {
            None => Ok(()),
            Some(reason) => Err(reason),
        }
    }
}

/// An image pushed to a sink is one more view at the end of its views.
pub proof fn lemma_views_of_push(images: Seq<BankImage>, image: BankImage)
    ensures
        image_views(images.push(image)) == image_views(images).push(image@),
{
    assert(image_views(images.push(image)) =~= image_views(images).push(image@));
}

} // verus!
