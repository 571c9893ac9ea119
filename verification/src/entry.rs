//! The values the cache holds: a decoded, downscaled pixel buffer together
//! with its dimensions, its rotation, and an optional render handle supplied
//! by the rendering collaborator.

use vstd::prelude::*;
use crate::geometry::{valid_rotation, spec_next_rotation, next_rotation, MAX_DISPLAY_EDGE};

verus! {

/// A decoded and downscaled image as the pipeline hands it over: RGBA bytes,
/// four per pixel, with both edges within the display bound.
pub struct LoadedImage {
    pub pixels: Vec<u8>,
    pub width: u32,
    pub height: u32,
}

impl LoadedImage {
    pub open spec fn wf(self) -> bool {
        &&& self.pixels@.len() == 4 * self.width * self.height
        &&& 1 <= self.width <= MAX_DISPLAY_EDGE
        &&& 1 <= self.height <= MAX_DISPLAY_EDGE
    }
}

/// One resident cache entry: the pixel buffer, a rotation in whole quarter
/// turns, and the opaque handle of an uploaded texture, if one exists. The
/// handle is invalidated whenever the rotation changes.
#[derive(Clone)]
pub struct CacheEntry {
    pub pixels: Vec<u8>,
    pub width: u32,
    pub height: u32,
    pub rotation: u32,
    pub texture: Option<u64>,
}

impl CacheEntry {
    pub open spec fn wf(self) -> bool {
        &&& self.pixels@.len() == 4 * self.width * self.height
        &&& valid_rotation(self.rotation)
    }

    /// A fresh entry for a newly decoded image: rotation zero, no texture.
    pub fn new(pixels: Vec<u8>, width: u32, height: u32) -> (e: CacheEntry)
        requires
            pixels@.len() == 4 * width * height,
        ensures
            e == (CacheEntry {
                pixels: pixels,
                width: width,
                height: height,
                rotation: 0,
                texture: None,
            }),
            e.wf(),
    {
        CacheEntry { pixels, width, height, rotation: 0, texture: None }
    }

    /// The entry after one clockwise quarter turn: rotation advanced, any
    /// attached texture handle dropped, pixels untouched.
    pub open spec fn rotated(self) -> CacheEntry {
        CacheEntry {
            rotation: (spec_next_rotation(self.rotation)) as u32,
            texture: None,
            ..self
        }
    }

    /// Applies one clockwise quarter turn in place.
    pub fn rotate(&mut self)
        requires
            old(self).wf(),
        ensures
            *final(self) == old(self).rotated(),
            final(self).wf(),
    {
        self.rotation = next_rotation(self.rotation);
        self.texture = None;
    }

    /// Records the handle of a texture uploaded by the rendering collaborator.
    pub fn set_texture(&mut self, handle: u64)
        requires
            old(self).wf(),
        ensures
            *final(self) == (CacheEntry { texture: Some(handle), ..*old(self) }),
            final(self).wf(),
    {
        self.texture = Some(handle);
    }
}

/// Four quarter turns return an entry's rotation to its original value,
/// whatever else it holds.
pub proof fn lemma_four_rotations_identity(e: CacheEntry)
    requires
        e.wf(),
    ensures
        e.rotated().rotated().rotated().rotated().rotation == e.rotation,
{
}

/// A `LoadedImage` wrapped into a fresh cache entry.
pub open spec fn entry_of(img: LoadedImage) -> CacheEntry {
    CacheEntry {
        pixels: img.pixels,
        width: img.width,
        height: img.height,
        rotation: 0,
        texture: None,
    }
}

/// What the driving loop should display for the current selection.
pub enum DisplayState {
    /// The entry is resident: its pixels, plus the dimensions it occupies on
    /// screen once its rotation is applied.
    Loaded { entry: CacheEntry, display_width: u32, display_height: u32 },
    /// A decode for the current path is still in flight.
    Loading,
    /// Nothing is resident or in flight for the current path.
    Empty,
}

} // verus!
