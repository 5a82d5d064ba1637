//! What the store keeps of one image, and what that costs.
use crate::images::size::{max_i32, min_i32, ISize};
use vstd::prelude::*;

verus! {

/// A picture that a painter can draw, with its size in pixels. The picture
/// itself, of type `I`, is only carried.
pub struct Texture<I> {
    pub image: I,
    pub size: ISize,
}

/// The bytes of a texture that may be absent.
pub open spec fn texture_cost<I>(texture: Option<Texture<I>>) -> nat {
    match texture {
        Some(t) => t.size.rgba_cost(),
        None => 0,
    }
}

/// Encoded raster kept in RAM, with optional GPU tiers:
/// - `display`: the shape at 100% zoom (eager, small)
/// - `full`: native resolution (lazy, for deep zoom)
pub struct RasterStored<I> {
    pub raw: Vec<u8>,
    pub native: ISize,
    pub display: Option<Texture<I>>,
    pub display_side: i32,
    pub full: Option<Texture<I>>,
}

/// A raster as a mathematical value.
#[verifier::ext_equal]
pub struct RasterView<I> {
    pub raw: Seq<u8>,
    pub native: ISize,
    pub display: Option<Texture<I>>,
    pub display_side: int,
    pub full: Option<Texture<I>>,
}

/// What it takes to make the display tier of a raster cover a side.
#[derive(PartialEq, Eq, Structural, Clone, Copy, Debug)]
pub enum DisplayPlan {
    /// Nothing: it covers the side, or no GPU is there to decode for.
    Keep,
    /// The full tier has to become the display tier.
    Promote,
    /// The picture has to be decoded to at most this side; 0: at native size.
    Decode { max_side: i32 },
}

impl<I> RasterView<I> {
    /// Encoded bytes and resident tiers.
    pub open spec fn cost(self) -> nat {
        self.raw.len() + texture_cost(self.display) + texture_cost(self.full)
    }

    /// A side is recorded only for a display tier that is there.
    pub open spec fn sound(self) -> bool {
        self.display_side > 0 ==> self.display is Some
    }

    /// The tiers are what they are recorded as: the longer side of the display
    /// tier is the side it is recorded to cover, and the full tier has the
    /// native size.
    pub open spec fn true_tiers(self) -> bool {
        &&& self.display is Some ==> self.display->0.size.spec_longest() == self.display_side
        &&& self.full is Some ==> self.full->0.size == self.native
    }

    /// The display tier is there and large enough for `needed` pixels.
    pub open spec fn covers(self, needed: int) -> bool {
        self.display is Some && self.display_side > 0 && needed <= self.display_side
    }

    /// The side that the display tier should cover when `side` is asked for:
    /// no more than the picture has.
    pub open spec fn display_target(self, side: int) -> int {
        crate::images::size::larger(
            crate::images::size::smaller(side, self.native.spec_longest()),
            1,
        )
    }

    /// `side` can be covered by nothing less than the picture at native size.
    pub open spec fn wants_native(self, side: int) -> bool {
        self.display_target(side) >= self.native.spec_longest()
    }

    /// What it takes to make the display tier cover `side`.
    pub open spec fn display_plan(self, gpu: bool, side: int) -> DisplayPlan {
        if self.display_side >= self.display_target(side) {
            DisplayPlan::Keep
        } else if self.wants_native(side) && self.full is Some {
            DisplayPlan::Promote
        } else if !gpu {
            DisplayPlan::Keep
        } else if self.wants_native(side) {
            DisplayPlan::Decode { max_side: 0 }
        } else {
            DisplayPlan::Decode { max_side: self.display_target(side) as i32 }
        }
    }

    /// With `texture`, decoded to cover `side`, as the display tier. A display
    /// tier of native size leaves no use for a full tier.
    pub open spec fn with_display(self, side: int, texture: Texture<I>) -> Self {
        if self.wants_native(side) {
            RasterView {
                display: Some(texture),
                display_side: self.native.spec_longest(),
                full: None,
                ..self
            }
        } else {
            RasterView {
                display: Some(texture),
                display_side: self.display_target(side),
                ..self
            }
        }
    }

    /// With the full tier in place of the display tier.
    pub open spec fn promoted(self) -> Self {
        RasterView {
            display: self.full,
            display_side: self.native.spec_longest(),
            full: None,
            ..self
        }
    }

    /// The tier to paint `needed` pixels with: the display tier where that is
    /// enough, else the full tier, else whatever is there.
    pub open spec fn tier_for(self, needed: int) -> Option<Texture<I>> {
        if self.covers(needed) || self.full is None {
            self.display
        } else {
            self.full
        }
    }
}

impl<I> RasterStored<I> {
    pub open spec fn view(&self) -> RasterView<I> {
        RasterView {
            raw: self.raw@,
            native: self.native,
            display: self.display,
            display_side: self.display_side as int,
            full: self.full,
        }
    }

    /// A raster with no tier resident.
    pub fn encoded(raw: Vec<u8>, native: ISize) -> (raster: Self)
        ensures
            raster@ == encoded_raster::<I>(raw@, native),
    {
        RasterStored { raw, native, display: None, display_side: 0, full: None }
    }

    /// Encoded bytes and resident tiers.
    pub fn retained_bytes(&self) -> (bytes: usize)
        requires
            self@.cost() <= usize::MAX,
        ensures
            bytes == self@.cost(),
    {
        let mut bytes: usize = self.raw.len();
        if let Some(texture) = &self.display {
            bytes = bytes + texture.size.rgba_bytes();
        }
        if let Some(texture) = &self.full {
            bytes = bytes + texture.size.rgba_bytes();
        }
        bytes
    }

    /// The display tier is there and large enough for `needed` pixels.
    pub fn display_covers(&self, needed: i32) -> (covers: bool)
        ensures
            covers == self@.covers(needed as int),
    {
        self.display.is_some() && self.display_side > 0 && needed <= self.display_side
    }

    /// What it takes to make the display tier cover `side`.
    pub fn display_plan(&self, gpu: bool, side: i32) -> (plan: DisplayPlan)
        ensures
            plan == self@.display_plan(gpu, side as int),
    {
        let native_side: i32 = self.native.longest();
        let target: i32 = max_i32(min_i32(side, native_side), 1);
        if self.display_side >= target {
            return DisplayPlan::Keep;
        }
        if target >= native_side && self.full.is_some() {
            return DisplayPlan::Promote;
        }
        if !gpu {
            return DisplayPlan::Keep;
        }
        if target >= native_side {
            DisplayPlan::Decode { max_side: 0 }
        } else {
            DisplayPlan::Decode { max_side: target }
        }
    }

    /// Makes `texture`, decoded to cover `side`, the display tier.
    pub fn set_display(&mut self, side: i32, texture: Texture<I>)
        ensures
            final(self)@ == old(self)@.with_display(side as int, texture),
    {
        let native_side: i32 = self.native.longest();
        let target: i32 = max_i32(min_i32(side, native_side), 1);
        self.display = Some(texture);
        if target >= native_side {
            self.display_side = native_side;
            self.full = None;
        } else {
            self.display_side = target;
        }
    }

    /// Makes the full tier the display tier.
    pub fn promote_full(&mut self)
        ensures
            final(self)@ == old(self)@.promoted(),
    {
        self.display = self.full.take();
        self.display_side = self.native.longest();
    }

    /// The tier to paint `needed` pixels with.
    pub fn tier(&self, needed: i32) -> (texture: Option<&Texture<I>>)
        ensures
            match texture {
                Some(t) => self@.tier_for(needed as int) == Some(*t),
                None => self@.tier_for(needed as int) is None,
            },
    {
        if self.display_covers(needed) || self.full.is_none() {
            self.display.as_ref()
        } else {
            self.full.as_ref()
        }
    }
}

/// A raster of which only the encoded bytes are there.
pub open spec fn encoded_raster<I>(raw: Seq<u8>, native: ISize) -> RasterView<I> {
    RasterView { raw, native, display: None, display_side: 0, full: None }
}

/// One stored image.
pub enum StoredImage<I, D> {
    Raster(RasterStored<I>),
    /// A single GPU texture, often from a texture that was there already.
    Gpu(Texture<I>),
    /// A vector document with its size, of type `D`, which is only carried;
    /// and a lazy raster for painters that need a texture.
    Svg { dom: D, raster: Option<Texture<I>> },
    /// Encoded bytes not yet classified.
    Raw(Vec<u8>),
}

/// A stored image as a mathematical value.
#[verifier::ext_equal]
pub enum ImageView<I, D> {
    Raster(RasterView<I>),
    Gpu(Texture<I>),
    Svg { dom: D, raster: Option<Texture<I>> },
    Raw(Seq<u8>),
}

impl<I, D> ImageView<I, D> {
    /// What the image is charged with, where `charged` is what it was charged
    /// with before: encoded bytes and resident textures, except that a vector
    /// document stays at what it was.
    pub open spec fn cost(self, charged: nat) -> nat {
        match self {
            ImageView::Raster(r) => r.cost(),
            ImageView::Gpu(t) => t.size.rgba_cost(),
            ImageView::Svg { .. } => charged,
            ImageView::Raw(raw) => raw.len(),
        }
    }

    /// A texture is resident.
    pub open spec fn paintable(self) -> bool {
        match self {
            ImageView::Raster(r) => r.display is Some || r.full is Some,
            ImageView::Gpu(_) => true,
            ImageView::Svg { raster, .. } => raster is Some,
            ImageView::Raw(_) => false,
        }
    }
}

impl<I, D> StoredImage<I, D> {
    pub open spec fn view(&self) -> ImageView<I, D> {
        match *self {
            StoredImage::Raster(r) => ImageView::Raster(r@),
            StoredImage::Gpu(t) => ImageView::Gpu(t),
            StoredImage::Svg { dom, raster } => ImageView::Svg { dom, raster },
            StoredImage::Raw(raw) => ImageView::Raw(raw@),
        }
    }

    /// What the image is charged with, `charged` being what it was before.
    pub fn retained_bytes(&self, charged: usize) -> (bytes: usize)
        requires
            self@.cost(charged as nat) <= usize::MAX,
        ensures
            bytes == self@.cost(charged as nat),
    {
        match self {
            StoredImage::Raster(r) => r.retained_bytes(),
            StoredImage::Gpu(t) => t.size.rgba_bytes(),
            StoredImage::Svg { .. } => charged,
            StoredImage::Raw(raw) => raw.len(),
        }
    }
}

/// A stored image with its place in the budget and in the order of use.
pub struct StoredEntry<I, D> {
    pub image: StoredImage<I, D>,
    /// Approximate retained cost: encoded bytes and resident GPU RGBA.
    pub bytes: usize,
    /// When it was last used, by the clock of the store.
    pub last_used: u64,
}

/// An entry as a mathematical value.
#[verifier::ext_equal]
pub struct EntryView<I, D> {
    pub image: ImageView<I, D>,
    pub bytes: nat,
    pub last_used: nat,
}

impl<I, D> StoredEntry<I, D> {
    pub open spec fn view(&self) -> EntryView<I, D> {
        EntryView {
            image: self.image@,
            bytes: self.bytes as nat,
            last_used: self.last_used as nat,
        }
    }
}

} // verus!
