//! The image store as a mathematical value, and what each operation makes of
//! it.
use crate::images::entries::ImageKey;
use crate::images::entry::{
    encoded_raster, texture_cost, DisplayPlan, EntryView, ImageView, RasterView, Texture,
};
use crate::images::error::StoreError;
use crate::images::size::{delivers, larger, smaller, ISize};
use crate::uuid::Uuid;
use vstd::prelude::*;

verus! {

/// What painting an image waits for.
#[derive(PartialEq, Eq, Structural, Clone, Copy, Debug)]
pub enum DrawStep {
    /// Nothing more: the texture to paint with can be read.
    Done,
    /// The native size of the encoded bytes.
    NativeSize,
    /// The picture, decoded to at most `max_side` (0: at native size), for
    /// the display tier.
    Display { max_side: i32 },
    /// The picture, decoded at native size, for the full tier.
    Full,
    /// The vector document, rasterized.
    Rasterize,
}

/// What reading an image at whatever resolution waits for.
#[derive(PartialEq, Eq, Structural, Clone, Copy, Debug)]
pub enum FetchStep {
    /// Nothing more: the texture can be read.
    Done,
    /// The picture, decoded at native size.
    Decode,
    /// The vector document, rasterized.
    Rasterize,
}

/// What adding an image waits for.
#[derive(PartialEq, Eq, Structural, Clone, Copy, Debug)]
pub enum AddStep {
    /// Nothing more: the image is stored.
    Done,
    /// The image was stored before; its display tier has to be decoded to at
    /// most `max_side` (0: at native size).
    Display { max_side: i32 },
    /// The encoded bytes, read as a vector document.
    ParseSvg,
    /// The native size of the encoded bytes.
    NativeSize,
    /// The picture, decoded to fit `eager_side`.
    Decode { eager_side: i32 },
}

/// What a lookup waits for, and at which key.
#[derive(PartialEq, Eq, Clone, Copy, Debug)]
pub enum GetStep {
    /// The image is there: it is looked up as for painting at any zoom.
    Draw(ImageKey, DrawStep),
    /// There may be a thumbnail.
    Fetch(ImageKey, FetchStep),
}

/// What making an image for the CPU waits for.
#[derive(PartialEq, Eq, Clone, Copy, Debug)]
pub enum CpuStep {
    /// The texture that this lookup gives, copied back from the GPU.
    CopyBack(GetStep),
    /// What is stored at the key, decoded or rasterized on the CPU.
    Decode(ImageKey),
    /// Nothing: there is no image.
    Nothing,
}

/// What an image for the CPU is made from.
pub enum CpuSource<'a, I, D> {
    /// Encoded bytes, to be decoded.
    Encoded(&'a Vec<u8>),
    /// A vector document, to be rasterized.
    Document(&'a D),
    /// A texture, to be taken as it is.
    Resident(&'a Texture<I>),
    /// Nothing: there is no image.
    Nothing,
}

/// `a + b`, or the largest `usize` where that is less.
pub open spec fn saturating_sum(a: nat, b: nat) -> nat {
    if a + b > usize::MAX {
        usize::MAX as nat
    } else {
        a + b
    }
}

/// `a - b`, or 0 where that is more.
pub open spec fn saturating_difference(a: nat, b: nat) -> nat {
    if a < b {
        0
    } else {
        (a - b) as nat
    }
}

/// What all entries together are charged with.
pub open spec fn charged<I, D>(images: Map<ImageKey, EntryView<I, D>>) -> nat
    decreases images.dom().len(),
    when images.dom().finite()
{
    if images.dom().len() == 0 {
        0
    } else {
        let key = images.dom().choose();
        images[key].bytes + charged(images.remove(key))
    }
}

/// The side that a new image is decoded to right away: a thumbnail at its
/// native size, another image at `display_side`; 0: not at all.
pub open spec fn eager_side(is_thumbnail: bool, native: ISize, display_side: Option<i32>) -> int {
    if is_thumbnail {
        native.spec_longest()
    } else {
        match display_side {
            Some(side) => larger(side as int, 0),
            None => 0,
        }
    }
}

/// The state of an image store.
#[verifier::ext_equal]
pub struct StoreView<I, D> {
    /// The entries, by key.
    pub images: Map<ImageKey, EntryView<I, D>>,
    /// What the store counts itself as retaining.
    pub total_bytes: nat,
    /// The clock by which uses are ordered.
    pub tick: nat,
    /// A GPU is there to decode for.
    pub gpu: bool,
}

impl<I, D> StoreView<I, D> {
    /// Every entry was last used at a time of its own, not after now; a
    /// raster and unclassified bytes are charged with what they cost, and a
    /// side that the display tier of a raster is recorded to cover goes with
    /// such a tier. The count and the clock are machine integers.
    pub open spec fn wf(self) -> bool {
        &&& self.total_bytes <= usize::MAX
        &&& self.tick <= u64::MAX
        &&& self.images.dom().finite()
        &&& forall|key: ImageKey| #[trigger]
            self.images.contains_key(key) ==> self.images[key].last_used <= self.tick
        &&& forall|a: ImageKey, b: ImageKey|
            #![trigger self.images.contains_key(a), self.images.contains_key(b)]
            self.images.contains_key(a) && self.images.contains_key(b) && a != b
                ==> self.images[a].last_used != self.images[b].last_used
        &&& forall|key: ImageKey| #[trigger]
            self.images.contains_key(key) ==> (self.images[key].image matches ImageView::Raster(r)
                ==> r.cost() == self.images[key].bytes && r.cost() <= usize::MAX && r.sound())
        &&& forall|key: ImageKey| #[trigger]
            self.images.contains_key(key) ==> (self.images[key].image matches ImageView::Raw(raw)
                ==> self.images[key].bytes == raw.len())
    }

    /// No entry but `key` was used at the present time of the clock.
    pub open spec fn unused_now(self, key: ImageKey) -> bool {
        forall|other: ImageKey| #[trigger]
            self.images.contains_key(other) && other != key ==> self.images[other].last_used
                < self.tick
    }

    /// The store counts what its entries are charged with.
    pub open spec fn accounted(self) -> bool {
        self.total_bytes == charged(self.images)
    }

    /// The tiers of every raster are what they are recorded as.
    pub open spec fn true_tiers(self) -> bool {
        forall|key: ImageKey| #[trigger]
            self.images.contains_key(key) ==> (self.images[key].image matches ImageView::Raster(r)
                ==> r.true_tiers())
    }

    /// What was decoded for the display tier at `key`, if anything, has the
    /// size that was asked for.
    pub open spec fn display_delivered(
        self,
        key: ImageKey,
        side: int,
        decoded: Option<Texture<I>>,
    ) -> bool {
        match (self.raster(key), self.display_wanted(key, side), decoded) {
            (Some(r), Some(max_side), Some(t)) => delivers(r.native, max_side as int, t.size),
            _ => true,
        }
    }

    /// What was decoded of a raster at `key` without a limit, if anything, has
    /// its native size.
    pub open spec fn full_delivered(self, key: ImageKey, decoded: Option<Texture<I>>) -> bool {
        match (self.raster(key), decoded) {
            (Some(r), Some(t)) => delivers(r.native, 0, t.size),
            _ => true,
        }
    }

    /// The raster at `key`, if there is one.
    pub open spec fn raster(self, key: ImageKey) -> Option<RasterView<I>> {
        if self.images.contains_key(key) {
            match self.images[key].image {
                ImageView::Raster(r) => Some(r),
                _ => None,
            }
        } else {
            None
        }
    }

    /// The encoded, unclassified bytes at `key`, if such are there.
    pub open spec fn raw(self, key: ImageKey) -> Option<Seq<u8>> {
        if self.images.contains_key(key) {
            match self.images[key].image {
                ImageView::Raw(raw) => Some(raw),
                _ => None,
            }
        } else {
            None
        }
    }

    /// The clock, one further.
    pub open spec fn ticked(self) -> Self {
        StoreView { tick: self.tick + 1, ..self }
    }

    /// `key` as used now.
    pub open spec fn marked(self, key: ImageKey) -> Self {
        StoreView {
            images: self.images.insert(
                key,
                EntryView { last_used: self.tick, ..self.images[key] },
            ),
            ..self
        }
    }

    /// `key` as used now, at a new time.
    pub open spec fn touched(self, key: ImageKey) -> Self {
        self.ticked().marked(key)
    }

    /// A new entry, used now, at a new time.
    pub open spec fn inserted(self, key: ImageKey, image: ImageView<I, D>, bytes: nat) -> Self {
        StoreView {
            images: self.images.insert(
                key,
                EntryView { image, bytes, last_used: self.tick + 1 },
            ),
            total_bytes: self.total_bytes + bytes,
            tick: self.tick + 1,
            ..self
        }
    }

    /// Without the entry at `key`.
    pub open spec fn removed(self, key: ImageKey) -> Self {
        StoreView {
            images: self.images.remove(key),
            total_bytes: saturating_difference(self.total_bytes, self.images[key].bytes),
            ..self
        }
    }

    /// Another image at `key`, charged and used as the one before.
    pub open spec fn with_image(self, key: ImageKey, image: ImageView<I, D>) -> Self {
        StoreView {
            images: self.images.insert(key, EntryView { image, ..self.images[key] }),
            ..self
        }
    }

    /// `key` charged anew for what it holds.
    pub open spec fn recharged(self, key: ImageKey) -> Self {
        if self.images.contains_key(key) {
            let entry = self.images[key];
            let bytes = entry.image.cost(entry.bytes);
            StoreView {
                images: self.images.insert(key, EntryView { bytes, ..entry }),
                total_bytes: saturating_sum(
                    saturating_difference(self.total_bytes, entry.bytes),
                    bytes,
                ),
                ..self
            }
        } else {
            self
        }
    }

    /// Another raster at `key`, charged for what it holds.
    pub open spec fn with_raster(self, key: ImageKey, raster: RasterView<I>) -> Self {
        self.with_image(key, ImageView::Raster(raster)).recharged(key)
    }

    /// A single texture at `key`, charged for what it holds.
    pub open spec fn with_texture(self, key: ImageKey, texture: Texture<I>) -> Self {
        self.with_image(key, ImageView::Gpu(texture)).recharged(key)
    }

    /// Where the display tier at `key` has to grow to cover `side`: the side
    /// to decode to (0: native size). `None` where nothing has to be decoded.
    pub open spec fn display_wanted(self, key: ImageKey, side: int) -> Option<i32> {
        match self.raster(key) {
            Some(r) => match r.display_plan(self.gpu, side) {
                DisplayPlan::Decode { max_side } => Some(max_side),
                _ => None,
            },
            None => None,
        }
    }

    /// After what can be done without decoding to make the display tier at
    /// `key` cover `side`.
    pub open spec fn display_ensured(self, key: ImageKey, side: int) -> Self {
        match self.raster(key) {
            Some(r) => if r.display_plan(self.gpu, side) == DisplayPlan::Promote {
                self.with_raster(key, r.promoted())
            } else {
                self
            },
            None => self,
        }
    }

    /// After the decoding that was wanted for the display tier at `key`.
    pub open spec fn display_installed(
        self,
        key: ImageKey,
        side: int,
        decoded: Option<Texture<I>>,
    ) -> Self {
        match (self.raster(key), decoded) {
            (Some(r), Some(texture)) => if self.display_wanted(key, side) is Some {
                self.with_raster(key, r.with_display(side, texture))
            } else {
                self
            },
            _ => self,
        }
    }

    /// A picture decoded for the display tier at `key` leaves a raster whose
    /// cost is a value of type `usize`.
    pub open spec fn display_fits(
        self,
        key: ImageKey,
        side: int,
        decoded: Option<Texture<I>>,
    ) -> bool {
        match (self.raster(key), decoded) {
            (Some(r), Some(texture)) => r.with_display(side, texture).cost() <= usize::MAX,
            _ => true,
        }
    }

    /// The full tier at `key` is absent and can be decoded.
    pub open spec fn full_wanted(self, key: ImageKey) -> bool {
        self.raster(key) matches Some(r) && r.full is None && self.gpu
    }

    /// After the decoding of the full tier at `key`.
    pub open spec fn full_installed(self, key: ImageKey, decoded: Option<Texture<I>>) -> Self {
        match (self.raster(key), decoded) {
            (Some(r), Some(_)) => if self.full_wanted(key) {
                self.with_raster(key, RasterView { full: decoded, ..r })
            } else {
                self
            },
            _ => self,
        }
    }

    /// A picture decoded for the full tier at `key` leaves a raster whose
    /// cost is a value of type `usize`.
    pub open spec fn full_fits(self, key: ImageKey, decoded: Option<Texture<I>>) -> bool {
        match (self.raster(key), decoded) {
            (Some(r), Some(_)) => RasterView { full: decoded, ..r }.cost() <= usize::MAX,
            _ => true,
        }
    }

    /// A picture decoded because reading `key` waited for it leaves an image
    /// whose cost is a value of type `usize`.
    pub open spec fn fetch_fits(self, key: ImageKey, decoded: Option<Texture<I>>) -> bool {
        &&& self.full_fits(key, decoded)
        &&& self.raw(key) is Some ==> texture_cost(decoded) <= usize::MAX
    }

    /// Without the full tier at `key`, where the display tier is enough for
    /// `needed` pixels.
    pub open spec fn full_dropped(self, key: ImageKey, needed: int) -> Self {
        match self.raster(key) {
            Some(r) => if r.full is Some && r.covers(needed) {
                self.with_raster(key, RasterView { full: None, ..r })
            } else {
                self
            },
            None => self,
        }
    }

    /// `after` is what is left of this store when it evicts down to `budget`:
    /// the entries used longest ago go first, and no more of them than the
    /// budget asks for.
    pub open spec fn evicts_to(self, budget: nat, after: Self) -> bool {
        &&& after.tick == self.tick
        &&& after.gpu == self.gpu
        &&& after.images.submap_of(self.images)
        &&& after.accounted()
        &&& after.total_bytes <= budget
        &&& forall|gone: ImageKey, kept: ImageKey|
            #![trigger self.images.contains_key(gone), after.images.contains_key(kept)]
            self.evicted(after, gone) && after.images.contains_key(kept)
                ==> self.images[gone].last_used < self.images[kept].last_used
        &&& forall|last: ImageKey|
            #![trigger self.images.contains_key(last)]
            self.evicted(after, last) && (forall|gone: ImageKey| #[trigger]
                self.evicted(after, gone) ==> self.images[gone].last_used
                    <= self.images[last].last_used) ==> after.total_bytes
                + self.images[last].bytes > budget
    }

    /// `key` is here and no longer in `after`.
    pub open spec fn evicted(self, after: Self, key: ImageKey) -> bool {
        self.images.contains_key(key) && !after.images.contains_key(key)
    }

    /// The start of storing an image at `key`.
    pub open spec fn add(self, key: ImageKey, display_side: Option<i32>) -> (Self, AddStep) {
        if !self.images.contains_key(key) {
            (self, AddStep::ParseSvg)
        } else {
            match display_side {
                Some(side) if side > 0 => match self.display_wanted(key, side as int) {
                    Some(max_side) => (self, AddStep::Display { max_side }),
                    None => (self.display_ensured(key, side as int), AddStep::Done),
                },
                _ => (self, AddStep::Done),
            }
        }
    }

    /// Storing the image `data` at `key` after it was read as a vector
    /// document.
    pub open spec fn add_svg(self, key: ImageKey, data: Seq<u8>, svg: Option<D>) -> (
        Self,
        AddStep,
    ) {
        match svg {
            Some(dom) => (
                self.inserted(key, ImageView::Svg { dom, raster: None }, data.len()),
                AddStep::Done,
            ),
            None => if self.gpu {
                (self, AddStep::NativeSize)
            } else {
                (self.inserted(key, ImageView::Raw(data), data.len()), AddStep::Done)
            },
        }
    }

    /// Storing the image `data` at `key` after it was sized.
    pub open spec fn add_sized(
        self,
        key: ImageKey,
        data: Seq<u8>,
        display_side: Option<i32>,
        native: Option<ISize>,
    ) -> (Self, AddStep) {
        match native {
            Some(native) => {
                let eager = eager_side(key.1, native, display_side);
                if eager > 0 {
                    (self, AddStep::Decode { eager_side: eager as i32 })
                } else {
                    (self.added_raster(key, data, native, 0, None), AddStep::Done)
                }
            },
            None => (self.inserted(key, ImageView::Raw(data), data.len()), AddStep::Done),
        }
    }

    /// A new raster, with what was decoded for it, to at most `target_side`,
    /// as its display tier.
    pub open spec fn new_raster(
        raw: Seq<u8>,
        native: ISize,
        target_side: int,
        decoded: Option<Texture<I>>,
    ) -> RasterView<I> {
        RasterView {
            display: decoded,
            display_side: if decoded is Some {
                smaller(target_side, native.spec_longest())
            } else {
                0
            },
            ..encoded_raster(raw, native)
        }
    }

    /// With a new raster at `key`.
    pub open spec fn added_raster(
        self,
        key: ImageKey,
        raw: Seq<u8>,
        native: ISize,
        target_side: int,
        decoded: Option<Texture<I>>,
    ) -> Self {
        let raster = Self::new_raster(raw, native, target_side, decoded);
        self.inserted(key, ImageView::Raster(raster), raster.cost())
    }

    /// The key to paint `id` from: the image, else its thumbnail.
    pub open spec fn draw_key(self, id: Uuid) -> Option<ImageKey> {
        if self.images.contains_key((id, false)) {
            Some((id, false))
        } else if self.images.contains_key((id, true)) {
            Some((id, true))
        } else {
            None
        }
    }

    /// The start of reading `key` at whatever resolution: where it holds no
    /// texture and a GPU is there, one has to be made first.
    pub open spec fn fetch(self, key: ImageKey) -> (Self, FetchStep) {
        let s = self.ticked();
        if !s.images.contains_key(key) {
            (s, FetchStep::Done)
        } else if s.images[key].image.paintable() {
            (s.marked(key), FetchStep::Done)
        } else if !s.gpu {
            (s, FetchStep::Done)
        } else if s.images[key].image is Svg {
            (s, FetchStep::Rasterize)
        } else {
            (s, FetchStep::Decode)
        }
    }

    /// After the decoding that reading `key` waited for: a raster has its
    /// full tier, unclassified bytes have become a texture and are charged as
    /// such. Where the decoding failed, all stays as it was.
    pub open spec fn fetch_decoded(self, key: ImageKey, decoded: Option<Texture<I>>) -> Self {
        if !self.images.contains_key(key) || decoded is None
            || self.images[key].image.paintable() {
            self
        } else {
            match self.images[key].image {
                ImageView::Raster(r) => self.with_raster(
                    key,
                    RasterView { full: decoded, ..r },
                ).marked(key),
                ImageView::Raw(_) => self.with_texture(key, decoded->0).marked(key),
                _ => self,
            }
        }
    }

    /// After the rasterizing that was waited for at `key`.
    pub open spec fn rasterized(self, key: ImageKey, raster: Option<Texture<I>>) -> Self {
        if !self.images.contains_key(key) {
            self
        } else {
            match self.images[key].image {
                ImageView::Svg { dom, raster: None } => self.with_image(
                    key,
                    ImageView::Svg { dom, raster },
                ).marked(key),
                _ => self,
            }
        }
    }

    /// The last stage of painting `key`: it is used now. A vector document
    /// is read like one that is not painted.
    pub open spec fn draw_end(self, key: ImageKey) -> (Self, DrawStep) {
        if !self.images.contains_key(key) {
            (self, DrawStep::Done)
        } else if self.images[key].image is Svg {
            match self.fetch(key) {
                (s, FetchStep::Rasterize) => (s, DrawStep::Rasterize),
                (s, _) => (s, DrawStep::Done),
            }
        } else {
            (self.touched(key), DrawStep::Done)
        }
    }

    /// The stage of painting `key` at which it has its full tier if `needed`
    /// pixels ask for that, and has lost it if they do not.
    pub open spec fn draw_full(self, key: ImageKey, needed: int) -> (Self, DrawStep) {
        match self.raster(key) {
            Some(r) => if r.covers(needed) {
                self.full_dropped(key, needed).draw_end(key)
            } else if self.full_wanted(key) {
                (self, DrawStep::Full)
            } else {
                self.draw_end(key)
            },
            None => self.draw_end(key),
        }
    }

    /// The stage of painting `key` at which its display tier covers
    /// `display_side`, where that is over 0.
    pub open spec fn draw_display(self, key: ImageKey, display_side: int, needed: int) -> (
        Self,
        DrawStep,
    ) {
        if display_side > 0 {
            match self.display_wanted(key, display_side) {
                Some(max_side) => (self, DrawStep::Display { max_side }),
                None => self.display_ensured(key, display_side).draw_full(key, needed),
            }
        } else {
            self.draw_full(key, needed)
        }
    }

    /// The start of painting `key`: unclassified bytes have to be sized first.
    pub open spec fn draw(self, key: ImageKey, display_side: int, needed: int) -> (
        Self,
        DrawStep,
    ) {
        if self.raw(key) is Some {
            (self, DrawStep::NativeSize)
        } else {
            self.draw_display(key, display_side, needed)
        }
    }

    /// The unclassified bytes at `key` entered anew: as a raster where they
    /// have a native size, else as they were.
    pub open spec fn sized(self, key: ImageKey, native: Option<ISize>) -> Self {
        match (self.raw(key), native) {
            (Some(raw), Some(native)) => self.removed(key).inserted(
                key,
                ImageView::Raster(encoded_raster(raw, native)),
                raw.len(),
            ),
            (Some(raw), None) => self.removed(key).inserted(
                key,
                ImageView::Raw(raw),
                raw.len(),
            ),
            (None, _) => self,
        }
    }

    /// Painting `key` after its bytes were sized.
    pub open spec fn draw_sized(
        self,
        key: ImageKey,
        display_side: int,
        needed: int,
        native: Option<ISize>,
    ) -> (Self, DrawStep) {
        if native is Some && self.raw(key) is Some {
            self.sized(key, native).draw_display(key, display_side, needed)
        } else {
            (self.sized(key, native), DrawStep::Done)
        }
    }

    /// The texture to paint `needed` pixels of `key` with.
    pub open spec fn drawn(self, key: ImageKey, needed: int) -> Option<Texture<I>> {
        if self.images.contains_key(key) {
            match self.images[key].image {
                ImageView::Raster(r) => r.tier_for(needed),
                ImageView::Gpu(texture) => Some(texture),
                ImageView::Svg { raster, .. } => raster,
                ImageView::Raw(_) => None,
            }
        } else {
            None
        }
    }

    /// The texture at `key`, at the highest resolution that is there.
    pub open spec fn fetched(self, key: ImageKey) -> Option<Texture<I>> {
        if self.images.contains_key(key) {
            match self.images[key].image {
                ImageView::Raster(r) => if r.full is Some {
                    r.full
                } else {
                    r.display
                },
                ImageView::Gpu(texture) => Some(texture),
                ImageView::Svg { raster, .. } => raster,
                ImageView::Raw(_) => None,
            }
        } else {
            None
        }
    }

    /// The start of looking up `id` for painting without a zoom.
    pub open spec fn get(self, id: Uuid) -> (Self, GetStep) {
        if self.images.contains_key((id, false)) {
            let (s, step) = self.draw((id, false), 0, i32::MAX as int);
            (s, GetStep::Draw((id, false), step))
        } else {
            let (s, step) = self.fetch((id, true));
            (s, GetStep::Fetch((id, true), step))
        }
    }

    /// The start of making an image of `id` for the CPU.
    pub open spec fn cpu_image(self, id: Uuid) -> (Self, CpuStep) {
        if self.gpu {
            let (s, get) = self.get(id);
            (s, CpuStep::CopyBack(get))
        } else {
            match self.draw_key(id) {
                Some(key) => (self.touched(key), CpuStep::Decode(key)),
                None => (self, CpuStep::Nothing),
            }
        }
    }

    /// Where no image for the CPU could be made from `key`.
    pub open spec fn cpu_image_after(self, key: ImageKey) -> (Self, CpuStep) {
        if !key.1 && self.images.contains_key((key.0, true)) {
            (self.touched((key.0, true)), CpuStep::Decode((key.0, true)))
        } else {
            (self, CpuStep::Nothing)
        }
    }

    /// The vector document at `key`.
    pub open spec fn document(self, key: ImageKey) -> Option<D> {
        if self.images.contains_key(key) {
            match self.images[key].image {
                ImageView::Svg { dom, .. } => Some(dom),
                _ => None,
            }
        } else {
            None
        }
    }

    /// The use of `id` that asks for its vector document, and that document.
    pub open spec fn svg(self, id: Uuid) -> (Self, Option<D>) {
        match self.draw_key(id) {
            Some(key) => (self.touched(key), self.document(key)),
            None => (self, None),
        }
    }

    /// A picture of a texture has to be made before it can be stored at `key`.
    pub open spec fn texture_needed(self, key: ImageKey) -> Result<bool, StoreError> {
        if self.images.contains_key(key) {
            Ok(false)
        } else if self.gpu {
            Ok(true)
        } else {
            Err(StoreError::NoGpuContext)
        }
    }

    /// Storing a texture of so many bytes at `key` once a picture of it was to
    /// be made.
    pub open spec fn add_texture(
        self,
        key: ImageKey,
        bytes: nat,
        texture: Option<Texture<I>>,
    ) -> (Self, Result<(), StoreError>) {
        match texture {
            Some(t) => (self.inserted(key, ImageView::Gpu(t), bytes), Ok(())),
            None => (self, Err(StoreError::TextureImport)),
        }
    }

    /// The encoded bytes at `key`.
    pub open spec fn encoded(self, key: ImageKey) -> Option<Seq<u8>> {
        if self.images.contains_key(key) {
            match self.images[key].image {
                ImageView::Raster(r) => Some(r.raw),
                ImageView::Raw(raw) => Some(raw),
                _ => None,
            }
        } else {
            None
        }
    }
}

} // verus!
