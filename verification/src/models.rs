//! Records of pixel images and animations as the database stores them, and
//! the command-line arguments.

use vstd::prelude::*;

verus! {

/// A stored pixel image.
pub struct PixelImage {
    pub id: i32,
    pub name: String,
    pub description: String,
    pub owner_id: i32,
    pub width: i32,
    pub height: i32,
    pub pixelwidth: i32,
    pub guid: String,
}

/// The description of a pixel image to create.
pub struct PixelImageDesc {
    pub name: String,
    pub description: String,
    pub width: i32,
    pub height: i32,
    pub pixelwidth: i32,
}

impl PixelImageDesc {
    /// The description of a copy of an image under a new name: same
    /// description, size and pixel width.
    pub fn duplicate_of(image: &PixelImage, name: String) -> (d: Self)
        ensures
            d.name == name,
            d.description == image.description,
            d.width == image.width,
            d.height == image.height,
            d.pixelwidth == image.pixelwidth,
    {
        PixelImageDesc {
            name: name,
            description: image.description.clone(),
            width: image.width,
            height: image.height,
            pixelwidth: image.pixelwidth,
        }
    }
}

/// A stored animation.
pub struct Animation {
    pub id: i32,
    pub name: String,
    pub description: String,
    pub width: i32,
    pub height: i32,
    pub length: i32,
    pub guid: String,
}

/// A limb of a stored animation.
pub struct AnimationLimb {
    pub id: i32,
    pub animation_id: i32,
    pub name: String,
    pub color: String,
    pub parent: String,
}

/// The description of an animation to create.
pub struct AnimationDesc {
    pub name: String,
    pub description: String,
    pub width: i32,
    pub height: i32,
    pub length: i32,
}

/// The command-line arguments: debug mode and the port to serve on.
pub struct Args {
    pub debug: bool,
    pub port: u16,
}

} // verus!
