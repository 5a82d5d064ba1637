//! The image store.
use crate::images::accounting::{
    lemma_charged_insert, lemma_inserted, lemma_marked, lemma_removed, lemma_touched,
    lemma_with_image, lemma_with_raster, lemma_with_texture,
};
use crate::images::entries::{Entries, ImageKey};
use crate::images::entry::{
    texture_cost, DisplayPlan, EntryView, ImageView, RasterStored, RasterView, StoredEntry,
    StoredImage, Texture,
};
use crate::images::error::StoreError;
use crate::images::model::{
    charged, AddStep, CpuSource, CpuStep, DrawStep, FetchStep, GetStep, StoreView,
};
use crate::images::order::sort_by_last_used;
use crate::images::size::{max_i32, min_i32, ISize};
use crate::uuid::Uuid;
use vstd::prelude::*;
use vstd::slice::slice_to_vec;

verus! {

/// The images that shapes are filled with.
///
/// The store decides; whoever holds it decodes, rasterizes and talks to the
/// GPU. An operation that needs such work says so in what it returns, and the
/// caller hands the outcome back to the method that goes on from there.
pub struct ImageStore<I, D> {
    images: Entries<I, D>,
    total_bytes: usize,
    tick: u64,
    gpu: bool,
}

impl<I, D> ImageStore<I, D> {
    pub closed spec fn view(&self) -> StoreView<I, D> {
        StoreView {
            images: self.images@,
            total_bytes: self.total_bytes as nat,
            tick: self.tick as nat,
            gpu: self.gpu,
        }
    }

    /// An empty store beside a GPU.
    pub fn new() -> (store: Self)
        ensures
            store@ == (StoreView {
                images: Map::<ImageKey, EntryView<I, D>>::empty(),
                total_bytes: 0,
                tick: 0,
                gpu: true,
            }),
            store@.wf(),
            store@.accounted(),
            store@.true_tiers(),
    {
        ImageStore { images: Entries::with_capacity(2048), total_bytes: 0, tick: 0, gpu: true }
    }

    /// An empty store where there is no GPU: images are kept as encoded bytes
    /// and decoded on the CPU when they are painted.
    pub fn new_without_gpu() -> (store: Self)
        ensures
            store@ == (StoreView {
                images: Map::<ImageKey, EntryView<I, D>>::empty(),
                total_bytes: 0,
                tick: 0,
                gpu: false,
            }),
            store@.wf(),
            store@.accounted(),
            store@.true_tiers(),
    {
        ImageStore { images: Entries::with_capacity(16), total_bytes: 0, tick: 0, gpu: false }
    }

    /// Bumps the clock and returns the new time.
    fn next_tick(&mut self) -> (tick: u64)
        requires
            old(self)@.tick < u64::MAX,
        ensures
            final(self)@ == old(self)@.ticked(),
            tick == final(self)@.tick,
    {
        self.tick = self.tick + 1;
        self.tick
    }

    /// Enters an image that is not there yet.
    fn insert_entry(&mut self, key: ImageKey, image: StoredImage<I, D>, bytes: usize)
        requires
            old(self)@.tick < u64::MAX,
            old(self)@.total_bytes + bytes <= usize::MAX,
        ensures
            final(self)@ == old(self)@.inserted(key, image@, bytes as nat),
    {
        let last_used: u64 = self.next_tick();
        self.total_bytes = self.total_bytes + bytes;
        self.images.insert(key, StoredEntry { image, bytes, last_used });
    }

    /// Charges `key` anew for what it holds.
    fn recompute_entry_bytes(&mut self, key: ImageKey)
        requires
            old(self)@.images.contains_key(key) ==> old(self)@.images[key].image.cost(
                old(self)@.images[key].bytes,
            ) <= usize::MAX,
        ensures
            final(self)@ == old(self)@.recharged(key),
    {
        if let Some(mut entry) = self.images.remove(key) {
            let bytes: usize = entry.image.retained_bytes(entry.bytes);
            self.total_bytes = self.total_bytes.saturating_sub(entry.bytes).saturating_add(bytes);
            entry.bytes = bytes;
            self.images.insert(key, entry);
        }
        assert(self@.images =~= old(self)@.recharged(key).images);
    }

    /// Marks `key` as used now.
    fn mark(&mut self, key: ImageKey)
        requires
            old(self)@.images.contains_key(key),
        ensures
            final(self)@ == old(self)@.marked(key),
    {
        if let Some(mut entry) = self.images.remove(key) {
            entry.last_used = self.tick;
            self.images.insert(key, entry);
        }
        assert(self@.images =~= old(self)@.marked(key).images);
    }

    pub fn contains(&self, id: &Uuid, is_thumbnail: bool) -> (found: bool)
        ensures
            found == self@.images.contains_key((*id, is_thumbnail)),
    {
        self.images.contains_key((*id, is_thumbnail))
    }

    /// The clock can go on for another operation.
    pub fn has_time(&self) -> (ok: bool)
        ensures
            ok == (self@.tick + 1 < u64::MAX),
    {
        self.tick < u64::MAX - 1
    }

    /// The store can count `bytes` and `texture` on top of what it retains.
    pub fn has_room(&self, bytes: usize, texture: &Option<Texture<I>>) -> (ok: bool)
        ensures
            ok == (self@.total_bytes + bytes + texture_cost(*texture) <= usize::MAX),
    {
        let rgba: u128 = match texture {
            Some(texture) => texture.size.wide_rgba_bytes(),
            None => 0,
        };
        self.total_bytes as u128 + bytes as u128 + rgba <= usize::MAX as u128
    }

    /// Grows or creates the display tier at `key` so that it covers at least
    /// `side` pixels (capped to native), as far as that takes no decoding.
    /// Else it returns the side to decode to, 0 for native size, and the
    /// outcome goes to [`Self::install_display`].
    pub fn ensure_display_side(&mut self, key: ImageKey, side: i32) -> (decode: Option<i32>)
        requires
            old(self)@.wf(),
        ensures
            final(self)@ == old(self)@.display_ensured(key, side as int),
            decode == old(self)@.display_wanted(key, side as int),
            final(self)@.wf(),
            old(self)@.accounted() ==> final(self)@.accounted(),
    {
        let plan = match self.images.get(key) {
            Some(entry) => match &entry.image {
                StoredImage::Raster(raster) => raster.display_plan(self.gpu, side),
                _ => DisplayPlan::Keep,
            },
            None => DisplayPlan::Keep,
        };
        match plan {
            DisplayPlan::Keep => None,
            DisplayPlan::Decode { max_side } => Some(max_side),
            DisplayPlan::Promote => {
                if let Some(mut entry) = self.images.remove(key) {
                    if let StoredImage::Raster(raster) = &mut entry.image {
                        raster.promote_full();
                    }
                    self.images.insert(key, entry);
                }
                proof {
                    let r = old(self)@.raster(key)->0;
                    assert(self@.images =~= old(self)@.with_image(
                        key,
                        ImageView::Raster(r.promoted()),
                    ).images);
                    lemma_with_raster(old(self)@, key, r.promoted());
                }
                self.recompute_entry_bytes(key);
                None
            },
        }
    }

    /// Takes what was decoded because [`Self::ensure_display_side`] asked for
    /// it; `None` if the decoding failed.
    pub fn install_display(&mut self, key: ImageKey, side: i32, decoded: Option<Texture<I>>)
        requires
            old(self)@.wf(),
            old(self)@.display_fits(key, side as int, decoded),
        ensures
            final(self)@ == old(self)@.display_installed(key, side as int, decoded),
            final(self)@.wf(),
            old(self)@.accounted() && charged(final(self)@.images) <= usize::MAX
                ==> final(self)@.accounted(),
    {
        let texture = match decoded {
            Some(texture) => texture,
            None => {
                return;
            },
        };
        let wanted: bool = match self.images.get(key) {
            Some(entry) => match &entry.image {
                StoredImage::Raster(raster) => match raster.display_plan(self.gpu, side) {
                    DisplayPlan::Decode { .. } => true,
                    _ => false,
                },
                _ => false,
            },
            None => false,
        };
        if !wanted {
            return;
        }
        if let Some(mut entry) = self.images.remove(key) {
            if let StoredImage::Raster(raster) = &mut entry.image {
                raster.set_display(side, texture);
            }
            self.images.insert(key, entry);
        }
        proof {
            let r = old(self)@.raster(key)->0.with_display(side as int, texture);
            assert(self@.images =~= old(self)@.with_image(key, ImageView::Raster(r)).images);
            lemma_with_raster(old(self)@, key, r);
        }
        self.recompute_entry_bytes(key);
    }

    /// Takes what was decoded for the full tier at `key`; `None` if the
    /// decoding failed.
    fn install_full(&mut self, key: ImageKey, decoded: Option<Texture<I>>)
        requires
            old(self)@.wf(),
            old(self)@.full_fits(key, decoded),
        ensures
            final(self)@ == old(self)@.full_installed(key, decoded),
            final(self)@.wf(),
            old(self)@.accounted() && charged(final(self)@.images) <= usize::MAX
                ==> final(self)@.accounted(),
    {
        if decoded.is_none() || !self.wants_full(key) {
            return;
        }
        if let Some(mut entry) = self.images.remove(key) {
            if let StoredImage::Raster(raster) = &mut entry.image {
                raster.full = decoded;
            }
            self.images.insert(key, entry);
        }
        proof {
            let r = RasterView { full: decoded, ..old(self)@.raster(key)->0 };
            assert(self@.images =~= old(self)@.with_image(key, ImageView::Raster(r)).images);
            lemma_with_raster(old(self)@, key, r);
        }
        self.recompute_entry_bytes(key);
    }

    /// The full tier at `key` is absent and can be decoded.
    fn wants_full(&self, key: ImageKey) -> (wanted: bool)
        ensures
            wanted == self@.full_wanted(key),
    {
        match self.images.get(key) {
            Some(entry) => match &entry.image {
                StoredImage::Raster(raster) => raster.full.is_none() && self.gpu,
                _ => false,
            },
            None => false,
        }
    }

    /// Drops the full tier at `key` where a display tier still covers the
    /// request, and only there: it could be all that there is to paint with.
    fn drop_full_if_unneeded(&mut self, key: ImageKey, needed_side: i32)
        requires
            old(self)@.wf(),
        ensures
            final(self)@ == old(self)@.full_dropped(key, needed_side as int),
            final(self)@.wf(),
            old(self)@.accounted() ==> final(self)@.accounted(),
    {
        let should_drop: bool = match self.images.get(key) {
            Some(entry) => match &entry.image {
                StoredImage::Raster(raster) => raster.full.is_some() && raster.display_covers(
                    needed_side,
                ),
                _ => false,
            },
            None => false,
        };
        if !should_drop {
            return;
        }
        if let Some(mut entry) = self.images.remove(key) {
            if let StoredImage::Raster(raster) = &mut entry.image {
                raster.full = None;
            }
            self.images.insert(key, entry);
        }
        proof {
            let r = RasterView { full: None, ..old(self)@.raster(key)->0 };
            assert(self@.images =~= old(self)@.with_image(key, ImageView::Raster(r)).images);
            lemma_with_raster(old(self)@, key, r);
        }
        self.recompute_entry_bytes(key);
    }

    /// Starts to read `key` at whatever resolution is there. Where a texture
    /// has to be made first, the outcome goes to [`Self::fetch_decoded`] or
    /// [`Self::rasterized`]. At the end [`Self::fetched`] has the texture.
    fn get_internal(&mut self, key: ImageKey) -> (step: FetchStep)
        requires
            old(self)@.wf(),
            old(self)@.tick < u64::MAX,
        ensures
            (final(self)@, step) == old(self)@.fetch(key),
            final(self)@.wf(),
            old(self)@.accounted() ==> final(self)@.accounted(),
            step != FetchStep::Done ==> final(self)@.unused_now(key),
    {
        let _ = self.next_tick();
        let (paintable, svg): (bool, bool) = match self.images.get(key) {
            Some(entry) => match &entry.image {
                StoredImage::Raster(raster) => (
                    raster.display.is_some() || raster.full.is_some(),
                    false,
                ),
                StoredImage::Gpu(_) => (true, false),
                StoredImage::Svg { raster, .. } => (raster.is_some(), true),
                StoredImage::Raw(_) => (false, false),
            },
            None => {
                return FetchStep::Done;
            },
        };
        proof {
            lemma_touched(old(self)@, key);
        }
        if paintable {
            self.mark(key);
            FetchStep::Done
        } else if !self.gpu {
            FetchStep::Done
        } else if svg {
            FetchStep::Rasterize
        } else {
            FetchStep::Decode
        }
    }

    /// Takes what was decoded because a lookup asked for it; `None` if the
    /// decoding failed.
    pub fn fetch_decoded(&mut self, key: ImageKey, decoded: Option<Texture<I>>)
        requires
            old(self)@.wf(),
            old(self)@.unused_now(key),
            old(self)@.fetch_fits(key, decoded),
        ensures
            final(self)@ == old(self)@.fetch_decoded(key, decoded),
            final(self)@.wf(),
            old(self)@.accounted() && charged(final(self)@.images) <= usize::MAX
                ==> final(self)@.accounted(),
    {
        let texture = match decoded {
            Some(texture) => texture,
            None => {
                return;
            },
        };
        let (raster, raw): (bool, bool) = match self.images.get(key) {
            Some(entry) => match &entry.image {
                StoredImage::Raster(raster) => (
                    raster.display.is_none() && raster.full.is_none(),
                    false,
                ),
                StoredImage::Raw(_) => (false, true),
                _ => (false, false),
            },
            None => (false, false),
        };
        if raster {
            if let Some(mut entry) = self.images.remove(key) {
                if let StoredImage::Raster(raster) = &mut entry.image {
                    raster.full = Some(texture);
                }
                self.images.insert(key, entry);
            }
            proof {
                let r = RasterView { full: decoded, ..old(self)@.raster(key)->0 };
                assert(self@.images =~= old(self)@.with_image(key, ImageView::Raster(r)).images);
                lemma_with_raster(old(self)@, key, r);
            }
            self.recompute_entry_bytes(key);
            proof {
                lemma_marked(self@, key);
                lemma_charged_insert(
                    self@.images,
                    key,
                    EntryView { last_used: self@.tick, ..self@.images[key] },
                );
            }
            self.mark(key);
        } else if raw {
            if let Some(mut entry) = self.images.remove(key) {
                entry.image = StoredImage::Gpu(texture);
                self.images.insert(key, entry);
            }
            proof {
                let image = ImageView::Gpu(texture);
                assert(self@.images =~= old(self)@.with_image(key, image).images);
                lemma_with_texture(old(self)@, key, texture);
            }
            self.recompute_entry_bytes(key);
            proof {
                lemma_marked(self@, key);
                lemma_charged_insert(
                    self@.images,
                    key,
                    EntryView { last_used: self@.tick, ..self@.images[key] },
                );
            }
            self.mark(key);
        }
    }

    /// Takes what was rasterized because a lookup asked for it; `None` if the
    /// rasterizing failed.
    pub fn rasterized(&mut self, key: ImageKey, raster: Option<Texture<I>>)
        requires
            old(self)@.wf(),
            old(self)@.unused_now(key),
        ensures
            final(self)@ == old(self)@.rasterized(key, raster),
            final(self)@.wf(),
            old(self)@.accounted() ==> final(self)@.accounted(),
    {
        let waiting: bool = match self.images.get(key) {
            Some(entry) => match &entry.image {
                StoredImage::Svg { raster, .. } => raster.is_none(),
                _ => false,
            },
            None => false,
        };
        if !waiting {
            return;
        }
        let ghost image = match old(self)@.images[key].image {
            ImageView::Svg { dom, .. } => ImageView::Svg { dom, raster },
            other => other,
        };
        if let Some(mut entry) = self.images.remove(key) {
            entry.image = match entry.image {
                StoredImage::Svg { dom, .. } => StoredImage::Svg { dom, raster },
                other => other,
            };
            self.images.insert(key, entry);
        }
        proof {
            assert(self@.images =~= old(self)@.with_image(key, image).images);
            lemma_with_image(old(self)@, key, image);
            lemma_marked(self@, key);
        }
        self.mark(key);
    }

    /// The last stage of painting `key`.
    fn draw_end(&mut self, key: ImageKey) -> (step: DrawStep)
        requires
            old(self)@.wf(),
            old(self)@.tick < u64::MAX,
        ensures
            (final(self)@, step) == old(self)@.draw_end(key),
            final(self)@.wf(),
            old(self)@.accounted() ==> final(self)@.accounted(),
            step == DrawStep::Rasterize ==> final(self)@.unused_now(key),
    {
        let svg: bool = match self.images.get(key) {
            Some(entry) => match &entry.image {
                StoredImage::Svg { .. } => true,
                _ => false,
            },
            None => {
                return DrawStep::Done;
            },
        };
        if svg {
            match self.get_internal(key) {
                FetchStep::Rasterize => DrawStep::Rasterize,
                _ => DrawStep::Done,
            }
        } else {
            proof {
                lemma_touched(old(self)@, key);
            }
            let _ = self.next_tick();
            self.mark(key);
            DrawStep::Done
        }
    }

    /// The stage of painting `key` at which its full tier comes or goes.
    fn draw_full(&mut self, key: ImageKey, needed_side: i32) -> (step: DrawStep)
        requires
            old(self)@.wf(),
            old(self)@.tick < u64::MAX,
        ensures
            (final(self)@, step) == old(self)@.draw_full(key, needed_side as int),
            final(self)@.wf(),
            old(self)@.accounted() ==> final(self)@.accounted(),
            step == DrawStep::Rasterize ==> final(self)@.unused_now(key),
    {
        let use_full: bool = match self.images.get(key) {
            Some(entry) => match &entry.image {
                StoredImage::Raster(raster) => !raster.display_covers(needed_side),
                _ => false,
            },
            None => false,
        };
        if use_full {
            if self.wants_full(key) {
                return DrawStep::Full;
            }
        } else {
            self.drop_full_if_unneeded(key, needed_side);
        }
        self.draw_end(key)
    }

    /// The stage of painting `key` at which its display tier grows.
    fn draw_display(&mut self, key: ImageKey, display_side: i32, needed_side: i32) -> (step:
        DrawStep)
        requires
            old(self)@.wf(),
            old(self)@.tick < u64::MAX,
        ensures
            (final(self)@, step) == old(self)@.draw_display(
                key,
                display_side as int,
                needed_side as int,
            ),
            final(self)@.wf(),
            old(self)@.accounted() ==> final(self)@.accounted(),
            step == DrawStep::Rasterize ==> final(self)@.unused_now(key),
    {
        if display_side > 0 {
            if let Some(max_side) = self.ensure_display_side(key, display_side) {
                return DrawStep::Display { max_side };
            }
        }
        self.draw_full(key, needed_side)
    }

    /// Starts to paint `id`, of which `display_side` pixels show at 100% zoom
    /// and `needed_side` at the zoom of the view. Returns `None` if it is not
    /// stored; else the key it is painted from and what that waits for: the
    /// outcome goes to [`Self::draw_native_size`],
    /// [`Self::draw_display_decoded`], [`Self::draw_full_decoded`] or
    /// [`Self::rasterized`]. At the end [`Self::drawn`] has the texture.
    pub fn get_for_draw(&mut self, id: &Uuid, display_side: i32, needed_side: i32) -> (draw: Option<
        (ImageKey, DrawStep),
    >)
        requires
            old(self)@.wf(),
            old(self)@.tick < u64::MAX,
        ensures
            match old(self)@.draw_key(*id) {
                Some(key) => {
                    &&& draw matches Some((k, step))
                    &&& k == key
                    &&& (final(self)@, step) == old(self)@.draw(
                        key,
                        display_side as int,
                        needed_side as int,
                    )
                    &&& step == DrawStep::Rasterize ==> final(self)@.unused_now(key)
                },
                None => draw is None && final(self)@ == old(self)@,
            },
            final(self)@.wf(),
            old(self)@.accounted() ==> final(self)@.accounted(),
    {
        let key: ImageKey = if self.images.contains_key((*id, false)) {
            (*id, false)
        } else if self.images.contains_key((*id, true)) {
            (*id, true)
        } else {
            return None;
        };
        let raw: bool = match self.images.get(key) {
            Some(entry) => match &entry.image {
                StoredImage::Raw(_) => true,
                _ => false,
            },
            None => false,
        };
        if raw {
            Some((key, DrawStep::NativeSize))
        } else {
            let step = self.draw_display(key, display_side, needed_side);
            Some((key, step))
        }
    }

    /// Goes on painting `key` with the native size of its bytes; `None` if
    /// they could not be read: then they stay, and stay charged.
    pub fn draw_native_size(
        &mut self,
        key: ImageKey,
        display_side: i32,
        needed_side: i32,
        native: Option<ISize>,
    ) -> (step: DrawStep)
        requires
            old(self)@.wf(),
            old(self)@.tick + 1 < u64::MAX,
        ensures
            (final(self)@, step) == old(self)@.draw_sized(
                key,
                display_side as int,
                needed_side as int,
                native,
            ),
            final(self)@.wf(),
            old(self)@.accounted() ==> final(self)@.accounted(),
            step == DrawStep::Rasterize ==> final(self)@.unused_now(key),
    {
        let raw: bool = match self.images.get(key) {
            Some(entry) => match &entry.image {
                StoredImage::Raw(_) => true,
                _ => false,
            },
            None => false,
        };
        if !raw {
            return DrawStep::Done;
        }
        proof {
            lemma_removed(old(self)@, key);
        }
        if let Some(entry) = self.images.remove(key) {
            self.total_bytes = self.total_bytes.saturating_sub(entry.bytes);
            assert(self@ == old(self)@.removed(key));
            if let StoredImage::Raw(raw) = entry.image {
                let retained: usize = raw.len();
                match native {
                    Some(native) => {
                        let image = StoredImage::Raster(RasterStored::encoded(raw, native));
                        proof {
                            lemma_inserted(self@, key, image@, retained as nat);
                        }
                        self.insert_entry(key, image, retained);
                        return self.draw_display(key, display_side, needed_side);
                    },
                    None => {
                        let image = StoredImage::Raw(raw);
                        proof {
                            lemma_inserted(self@, key, image@, retained as nat);
                        }
                        self.insert_entry(key, image, retained);
                    },
                }
            }
        }
        DrawStep::Done
    }

    /// Goes on painting `key` with what was decoded for its display tier;
    /// `None` if the decoding failed.
    pub fn draw_display_decoded(
        &mut self,
        key: ImageKey,
        display_side: i32,
        needed_side: i32,
        decoded: Option<Texture<I>>,
    ) -> (step: DrawStep)
        requires
            old(self)@.wf(),
            old(self)@.tick < u64::MAX,
            old(self)@.display_fits(key, display_side as int, decoded),
        ensures
            (final(self)@, step) == old(self)@.display_installed(
                key,
                display_side as int,
                decoded,
            ).draw_full(key, needed_side as int),
            final(self)@.wf(),
            old(self)@.accounted() && charged(
                old(self)@.display_installed(key, display_side as int, decoded).images,
            ) <= usize::MAX ==> final(self)@.accounted(),
            step == DrawStep::Rasterize ==> final(self)@.unused_now(key),
    {
        self.install_display(key, display_side, decoded);
        self.draw_full(key, needed_side)
    }

    /// Goes on painting `key` with what was decoded for its full tier; `None`
    /// if the decoding failed: then it is painted with what there is.
    pub fn draw_full_decoded(&mut self, key: ImageKey, decoded: Option<Texture<I>>) -> (step:
        DrawStep)
        requires
            old(self)@.wf(),
            old(self)@.tick < u64::MAX,
            old(self)@.full_fits(key, decoded),
        ensures
            (final(self)@, step) == old(self)@.full_installed(key, decoded).draw_end(key),
            final(self)@.wf(),
            old(self)@.accounted() && charged(old(self)@.full_installed(key, decoded).images)
                <= usize::MAX ==> final(self)@.accounted(),
            step == DrawStep::Rasterize ==> final(self)@.unused_now(key),
    {
        self.install_full(key, decoded);
        self.draw_end(key)
    }

    /// The texture to paint `needed_side` pixels of `key` with.
    pub fn drawn(&self, key: ImageKey, needed_side: i32) -> (texture: Option<&Texture<I>>)
        ensures
            match texture {
                Some(t) => self@.drawn(key, needed_side as int) == Some(*t),
                None => self@.drawn(key, needed_side as int) is None,
            },
    {
        match self.images.get(key) {
            Some(entry) => match &entry.image {
                StoredImage::Raster(raster) => raster.tier(needed_side),
                StoredImage::Gpu(texture) => Some(texture),
                StoredImage::Svg { raster, .. } => raster.as_ref(),
                StoredImage::Raw(_) => None,
            },
            None => None,
        }
    }

    /// The texture at `key`, at the highest resolution that is there.
    pub fn fetched(&self, key: ImageKey) -> (texture: Option<&Texture<I>>)
        ensures
            match texture {
                Some(t) => self@.fetched(key) == Some(*t),
                None => self@.fetched(key) is None,
            },
    {
        match self.images.get(key) {
            Some(entry) => match &entry.image {
                StoredImage::Raster(raster) => if raster.full.is_some() {
                    raster.full.as_ref()
                } else {
                    raster.display.as_ref()
                },
                StoredImage::Gpu(texture) => Some(texture),
                StoredImage::Svg { raster, .. } => raster.as_ref(),
                StoredImage::Raw(_) => None,
            },
            None => None,
        }
    }

    /// Starts to look up `id` for painting without a zoom: the image at
    /// native size where that can be had, else its thumbnail. Goes on like
    /// [`Self::get_for_draw`] with 0 for the display side and the largest
    /// `i32` for the needed one, or, for a thumbnail, with
    /// [`Self::fetch_decoded`] or [`Self::rasterized`] up to
    /// [`Self::fetched`].
    pub fn get(&mut self, id: &Uuid) -> (get: GetStep)
        requires
            old(self)@.wf(),
            old(self)@.tick < u64::MAX,
        ensures
            (final(self)@, get) == old(self)@.get(*id),
            final(self)@.wf(),
            old(self)@.accounted() ==> final(self)@.accounted(),
            get matches GetStep::Draw(key, DrawStep::Rasterize) ==> final(self)@.unused_now(key),
            get matches GetStep::Fetch(key, step) ==> step != FetchStep::Done
                ==> final(self)@.unused_now(key),
    {
        if self.images.contains_key((*id, false)) {
            if let Some((key, step)) = self.get_for_draw(id, 0, i32::MAX) {
                return GetStep::Draw(key, step);
            }
        }
        let key: ImageKey = (*id, true);
        let step = self.get_internal(key);
        GetStep::Fetch(key, step)
    }

    /// Starts to make an image of `id` for the CPU. With a GPU it is looked up
    /// and copied back; without, it is made from what is stored, and
    /// [`Self::cpu_decode_failed`] goes on if that fails.
    pub fn get_cpu_image(&mut self, id: &Uuid) -> (step: CpuStep)
        requires
            old(self)@.wf(),
            old(self)@.tick < u64::MAX,
        ensures
            (final(self)@, step) == old(self)@.cpu_image(*id),
            final(self)@.wf(),
            old(self)@.accounted() ==> final(self)@.accounted(),
            step matches CpuStep::CopyBack(GetStep::Draw(key, DrawStep::Rasterize))
                ==> final(self)@.unused_now(key),
            step matches CpuStep::CopyBack(GetStep::Fetch(key, fetch)) ==> fetch != FetchStep::Done
                ==> final(self)@.unused_now(key),
    {
        if self.gpu {
            return CpuStep::CopyBack(self.get(id));
        }
        if self.touch((*id, false)) {
            CpuStep::Decode((*id, false))
        } else if self.touch((*id, true)) {
            CpuStep::Decode((*id, true))
        } else {
            CpuStep::Nothing
        }
    }

    /// Goes on where no image for the CPU could be made from `key`: an image
    /// that cannot be decoded may have a thumbnail that can.
    pub fn cpu_decode_failed(&mut self, key: ImageKey) -> (step: CpuStep)
        requires
            old(self)@.wf(),
            old(self)@.tick < u64::MAX,
        ensures
            (final(self)@, step) == old(self)@.cpu_image_after(key),
            final(self)@.wf(),
            old(self)@.accounted() ==> final(self)@.accounted(),
    {
        if !key.1 && self.touch((key.0, true)) {
            CpuStep::Decode((key.0, true))
        } else {
            CpuStep::Nothing
        }
    }

    /// What an image for the CPU is made from at `key`: its encoded bytes, else
    /// its vector document, else its texture.
    pub fn cpu_source(&self, key: ImageKey) -> (source: CpuSource<'_, I, D>)
        ensures
            match source {
                CpuSource::Encoded(bytes) => self@.encoded(key) == Some(bytes@),
                CpuSource::Document(dom) => {
                    &&& self@.encoded(key) is None
                    &&& self@.document(key) == Some(*dom)
                },
                CpuSource::Resident(texture) => {
                    &&& self@.encoded(key) is None
                    &&& self@.document(key) is None
                    &&& self@.fetched(key) == Some(*texture)
                },
                CpuSource::Nothing => !self@.images.contains_key(key),
            },
    {
        match self.images.get(key) {
            Some(entry) => match &entry.image {
                StoredImage::Raster(raster) => CpuSource::Encoded(&raster.raw),
                StoredImage::Raw(raw) => CpuSource::Encoded(raw),
                StoredImage::Svg { dom, .. } => CpuSource::Document(dom),
                StoredImage::Gpu(texture) => CpuSource::Resident(texture),
            },
            None => CpuSource::Nothing,
        }
    }

    /// Marks `key` as used now, if it is stored.
    fn touch(&mut self, key: ImageKey) -> (found: bool)
        requires
            old(self)@.wf(),
            old(self)@.tick < u64::MAX,
        ensures
            found == old(self)@.images.contains_key(key),
            final(self)@ == (if found {
                old(self)@.touched(key)
            } else {
                old(self)@
            }),
            final(self)@.wf(),
            old(self)@.accounted() ==> final(self)@.accounted(),
    {
        if self.images.contains_key(key) {
            proof {
                lemma_touched(old(self)@, key);
            }
            let _ = self.next_tick();
            self.mark(key);
            true
        } else {
            false
        }
    }

    /// The vector document of `id`, for painters that draw it directly so that
    /// it stays crisp at any zoom. Counts as a use, whatever `id` is.
    pub fn get_svg(&mut self, id: &Uuid) -> (dom: Option<&D>)
        requires
            old(self)@.wf(),
            old(self)@.tick < u64::MAX,
        ensures
            match old(self)@.draw_key(*id) {
                Some(key) => {
                    &&& final(self)@ == old(self)@.touched(key)
                    &&& match old(self)@.images[key].image {
                        ImageView::Svg { dom: d, .. } => dom == Some(&d),
                        _ => dom is None,
                    }
                },
                None => dom is None && final(self)@ == old(self)@,
            },
            final(self)@ == old(self)@.svg(*id).0,
            match dom {
                Some(d) => old(self)@.svg(*id).1 == Some(*d),
                None => old(self)@.svg(*id).1 is None,
            },
            final(self)@.wf(),
            old(self)@.accounted() ==> final(self)@.accounted(),
    {
        let key: ImageKey = if self.touch((*id, false)) {
            (*id, false)
        } else if self.touch((*id, true)) {
            (*id, true)
        } else {
            return None;
        };
        self.document(key)
    }

    /// The vector document at `key`.
    pub fn document(&self, key: ImageKey) -> (dom: Option<&D>)
        ensures
            match self@.document(key) {
                Some(d) => dom == Some(&d),
                None => dom is None,
            },
    {
        match self.images.get(key) {
            Some(entry) => match &entry.image {
                StoredImage::Svg { dom, .. } => Some(dom),
                _ => None,
            },
            None => None,
        }
    }

    /// The encoded bytes at `key`.
    pub fn encoded(&self, key: ImageKey) -> (bytes: Option<&Vec<u8>>)
        ensures
            match bytes {
                Some(b) => self@.encoded(key) == Some(b@),
                None => self@.encoded(key) is None,
            },
    {
        match self.images.get(key) {
            Some(entry) => match &entry.image {
                StoredImage::Raster(raster) => Some(&raster.raw),
                StoredImage::Raw(raw) => Some(raw),
                _ => None,
            },
            None => None,
        }
    }

    /// Starts to store an image. Of one that is stored already only the
    /// display tier can grow, to cover `display_side` (the shape at 100% zoom);
    /// what is decoded for that goes to [`Self::install_display`]. Another one
    /// goes on with [`Self::add_svg`].
    pub fn add(&mut self, id: Uuid, is_thumbnail: bool, display_side: Option<i32>) -> (step:
        AddStep)
        requires
            old(self)@.wf(),
        ensures
            (final(self)@, step) == old(self)@.add((id, is_thumbnail), display_side),
            final(self)@.wf(),
            old(self)@.accounted() ==> final(self)@.accounted(),
    {
        let key: ImageKey = (id, is_thumbnail);
        if !self.images.contains_key(key) {
            return AddStep::ParseSvg;
        }
        if let Some(side) = display_side {
            if side > 0 {
                if let Some(max_side) = self.ensure_display_side(key, side) {
                    return AddStep::Display { max_side };
                }
            }
        }
        AddStep::Done
    }

    /// Goes on storing an image with `svg`, its bytes read as a vector
    /// document; `None` if they are no such document. Then, with a GPU, its
    /// size is needed by [`Self::add_sized`]; without, the bytes are kept
    /// until they are decoded on the CPU.
    pub fn add_svg(&mut self, key: ImageKey, image_data: &[u8], svg: Option<D>) -> (step: AddStep)
        requires
            old(self)@.wf(),
            !old(self)@.images.contains_key(key),
            old(self)@.tick < u64::MAX,
            old(self)@.total_bytes + image_data@.len() <= usize::MAX,
        ensures
            (final(self)@, step) == old(self)@.add_svg(key, image_data@, svg),
            final(self)@.wf(),
            old(self)@.accounted() ==> final(self)@.accounted(),
    {
        let bytes: usize = image_data.len();
        match svg {
            Some(dom) => {
                let image = StoredImage::Svg { dom, raster: None };
                proof {
                    lemma_inserted(self@, key, image@, bytes as nat);
                }
                self.insert_entry(key, image, bytes);
                AddStep::Done
            },
            None => if self.gpu {
                AddStep::NativeSize
            } else {
                let image = StoredImage::Raw(slice_to_vec(image_data));
                proof {
                    lemma_inserted(self@, key, image@, bytes as nat);
                }
                self.insert_entry(key, image, bytes);
                AddStep::Done
            },
        }
    }

    /// Goes on storing an image with the native size of its bytes; `None` if
    /// they could not be read: then they are kept as they are. A thumbnail is
    /// small and decoded at once, another image if the side it shows at is
    /// known: that is [`Self::add_decoded`]. One that is not decoded at once
    /// is stored without a tier.
    pub fn add_sized(
        &mut self,
        key: ImageKey,
        image_data: &[u8],
        display_side: Option<i32>,
        native: Option<ISize>,
    ) -> (step: AddStep)
        requires
            old(self)@.wf(),
            !old(self)@.images.contains_key(key),
            old(self)@.tick < u64::MAX,
            old(self)@.total_bytes + image_data@.len() <= usize::MAX,
        ensures
            (final(self)@, step) == old(self)@.add_sized(key, image_data@, display_side, native),
            final(self)@.wf(),
            old(self)@.accounted() ==> final(self)@.accounted(),
    {
        let bytes: usize = image_data.len();
        let native: ISize = match native {
            Some(native) => native,
            None => {
                let image = StoredImage::Raw(slice_to_vec(image_data));
                proof {
                    lemma_inserted(self@, key, image@, bytes as nat);
                }
                self.insert_entry(key, image, bytes);
                return AddStep::Done;
            },
        };
        let eager_side: i32 = if key.1 {
            native.longest()
        } else {
            match display_side {
                Some(side) => max_i32(side, 0),
                None => 0,
            }
        };
        if eager_side > 0 {
            return AddStep::Decode { eager_side };
        }
        let raster = RasterStored::encoded(slice_to_vec(image_data), native);
        proof {
            lemma_inserted(self@, key, ImageView::Raster(raster@), bytes as nat);
        }
        self.insert_entry(key, StoredImage::Raster(raster), bytes);
        AddStep::Done
    }

    /// Ends storing an image of size `native` with what was decoded to at most
    /// `target_side`; `None` if the decoding failed. It becomes the display
    /// tier: the full tier is for a larger decode, later.
    pub fn add_decoded(
        &mut self,
        key: ImageKey,
        image_data: &[u8],
        native: ISize,
        target_side: i32,
        decoded: Option<Texture<I>>,
    )
        requires
            old(self)@.wf(),
            !old(self)@.images.contains_key(key),
            old(self)@.tick < u64::MAX,
            old(self)@.total_bytes + StoreView::<I, D>::new_raster(
                image_data@,
                native,
                target_side as int,
                decoded,
            ).cost() <= usize::MAX,
        ensures
            final(self)@ == old(self)@.added_raster(
                key,
                image_data@,
                native,
                target_side as int,
                decoded,
            ),
            final(self)@.wf(),
            old(self)@.accounted() ==> final(self)@.accounted(),
    {
        let mut raster: RasterStored<I> = RasterStored::encoded(slice_to_vec(image_data), native);
        if decoded.is_some() {
            raster.display = decoded;
            raster.display_side = min_i32(target_side, native.longest());
        }
        let retained: usize = raster.retained_bytes();
        proof {
            lemma_inserted(self@, key, ImageView::Raster(raster@), retained as nat);
        }
        self.insert_entry(key, StoredImage::Raster(raster), retained);
    }

    /// Starts to store a texture that is on the GPU already: `true` if a
    /// picture of it is needed by [`Self::add_texture`], `false` if the image
    /// is stored.
    pub fn add_image_from_gl_texture(&self, id: Uuid, is_thumbnail: bool) -> (needed: Result<
        bool,
        StoreError,
    >)
        ensures
            needed == (if self@.images.contains_key((id, is_thumbnail)) {
                Ok(false)
            } else if self@.gpu {
                Ok(true)
            } else {
                Err(StoreError::NoGpuContext)
            }),
            needed == self@.texture_needed((id, is_thumbnail)),
    {
        if self.images.contains_key((id, is_thumbnail)) {
            return Ok(false);
        }
        if !self.gpu {
            return Err(StoreError::NoGpuContext);
        }
        Ok(true)
    }

    /// Ends storing a texture of `width` times `height` pixels with the
    /// picture made of it; `None` if none could be made.
    pub fn add_texture(
        &mut self,
        key: ImageKey,
        width: i32,
        height: i32,
        texture: Option<Texture<I>>,
    ) -> (stored: Result<(), StoreError>)
        requires
            old(self)@.wf(),
            !old(self)@.images.contains_key(key),
            old(self)@.tick < u64::MAX,
            texture is Some ==> old(self)@.total_bytes + (width as usize) * (height as usize) * 4
                <= usize::MAX,
        ensures
            match texture {
                Some(t) => {
                    &&& stored == Ok::<(), StoreError>(())
                    &&& final(self)@ == old(self)@.inserted(
                        key,
                        ImageView::Gpu(t),
                        ((width as usize) * (height as usize) * 4) as nat,
                    )
                },
                None => {
                    &&& stored == Err::<(), StoreError>(StoreError::TextureImport)
                    &&& final(self)@ == old(self)@
                },
            },
            (final(self)@, stored) == old(self)@.add_texture(
                key,
                ((width as usize) * (height as usize) * 4) as nat,
                texture,
            ),
            final(self)@.wf(),
            old(self)@.accounted() ==> final(self)@.accounted(),
    {
        let texture = match texture {
            Some(texture) => texture,
            None => {
                return Err(StoreError::TextureImport);
            },
        };
        assert(0 <= (width as usize) * (height as usize) <= (width as usize) * (height as usize)
            * 4) by (nonlinear_arith)
            requires
                0 <= (width as usize),
                0 <= (height as usize),
        ;
        let bytes: usize = (width as usize) * (height as usize) * 4;
        let image = StoredImage::Gpu(texture);
        proof {
            lemma_inserted(self@, key, image@, bytes as nat);
        }
        self.insert_entry(key, image, bytes);
        Ok(())
    }

    /// Evicts the images that were not used for longest until the store
    /// retains at most `max_bytes`, and returns how many that were. Meant to
    /// be called between paints, so that an image never disappears under a
    /// running one; a later request simply adds an evicted image again.
    pub fn evict_to_budget(&mut self, max_bytes: usize) -> (evicted: usize)
        requires
            old(self)@.wf(),
            old(self)@.accounted(),
        ensures
            old(self)@.evicts_to(max_bytes as nat, final(self)@),
            evicted + final(self)@.images.dom().len() == old(self)@.images.dom().len(),
            old(self)@.total_bytes <= max_bytes ==> final(self)@ == old(self)@,
            final(self)@.wf(),
    {
        if self.total_bytes <= max_bytes {
            return 0;
        }
        let ghost images = self@.images;
        let keys = self.images.keys();
        let mut uses: Vec<(u64, ImageKey)> = Vec::new();
        for i in 0..keys.len()
            invariant
                self@ == old(self)@,
                keys@.to_set() == images.dom(),
                images == self@.images,
                uses@.len() == i,
                forall|j: int| 0 <= j < i ==> (#[trigger] uses@[j]).1 == keys@[j],
                forall|j: int|
                    0 <= j < i ==> (#[trigger] uses@[j]).0 == images[keys@[j]].last_used,
        {
            assert(keys@.to_set().contains(keys@[i as int]));
            if let Some(entry) = self.images.get(keys[i]) {
                uses.push((entry.last_used, keys[i]));
            }
        }
        let ghost unsorted = uses@;
        sort_by_last_used(&mut uses);
        proof {
            lemma_sorted_uses(images, keys@, unsorted, uses@);
        }
        let mut evicted: usize = 0;
        let mut i: usize = 0;
        while i < uses.len() && self.total_bytes > max_bytes
            invariant
                i <= uses@.len(),
                evicted == i,
                old(self)@.wf(),
                images == old(self)@.images,
                lists_by_use(images, uses@),
                self@.wf(),
                self@.accounted(),
                self@.tick == old(self)@.tick,
                self@.gpu == old(self)@.gpu,
                self@.images == images.remove_keys(first_keys(uses@, i as int)),
                self@.images.dom().len() + i == images.dom().len(),
                i > 0 ==> self@.total_bytes + images[uses@[i - 1].1].bytes > max_bytes,
            decreases uses@.len() - i,
        {
            let key: ImageKey = uses[i].1;
            proof {
                assert(images.contains_key(uses@[i as int].1));
                assert(!first_keys(uses@, i as int).contains(key));
                lemma_removed(self@, key);
                assert(self@.images.remove(key) =~= images.remove_keys(
                    first_keys(uses@, i + 1),
                ));
            }
            let ghost before = self@;
            if let Some(entry) = self.images.remove(key) {
                self.total_bytes = self.total_bytes - entry.bytes;
                evicted = evicted + 1;
            }
            assert(self@ == before.removed(key));
            i = i + 1;
        }
        proof {
            lemma_evicted(old(self)@, self@, uses@, i as int, max_bytes as nat);
        }
        evicted
    }
}

/// `uses` lists the entries, each once, the one used longest ago first.
spec fn lists_by_use<I, D>(
    images: Map<ImageKey, EntryView<I, D>>,
    uses: Seq<(u64, ImageKey)>,
) -> bool {
    &&& forall|i: int|
        0 <= i < uses.len() ==> images.contains_key((#[trigger] uses[i]).1)
            && images[uses[i].1].last_used == uses[i].0
    &&& forall|i: int, j: int|
        0 <= i < j < uses.len() ==> (#[trigger] uses[i]).0 < (#[trigger] uses[j]).0
    &&& forall|key: ImageKey| #[trigger]
        images.contains_key(key) ==> exists|i: int| 0 <= i < uses.len() && uses[i].1 == key
}

/// Sorting the uses by time lists the entries by use.
proof fn lemma_sorted_uses<I, D>(
    images: Map<ImageKey, EntryView<I, D>>,
    keys: Seq<ImageKey>,
    unsorted: Seq<(u64, ImageKey)>,
    uses: Seq<(u64, ImageKey)>,
)
    requires
        keys.no_duplicates(),
        keys.to_set() == images.dom(),
        forall|a: ImageKey, b: ImageKey|
            #![trigger images.contains_key(a), images.contains_key(b)]
            images.contains_key(a) && images.contains_key(b) && a != b ==> images[a].last_used
                != images[b].last_used,
        unsorted.len() == keys.len(),
        forall|i: int| 0 <= i < keys.len() ==> (#[trigger] unsorted[i]).1 == keys[i],
        forall|i: int|
            0 <= i < keys.len() ==> (#[trigger] unsorted[i]).0 == images[keys[i]].last_used,
        uses.to_multiset() == unsorted.to_multiset(),
        forall|i: int, j: int| 0 <= i <= j < uses.len() ==> uses[i].0 <= uses[j].0,
    ensures
        lists_by_use(images, uses),
{
    broadcast use vstd::seq_lib::group_to_multiset_ensures;

    assert(unsorted.no_duplicates()) by {
        assert forall|i: int, j: int|
            0 <= i < unsorted.len() && 0 <= j < unsorted.len() && i != j implies unsorted[i]
            != unsorted[j] by {
            assert(keys[i] != keys[j]);
        }
    }
    unsorted.lemma_multiset_has_no_duplicates();
    uses.lemma_multiset_has_no_duplicates_conv();
    assert forall|i: int| 0 <= i < uses.len() implies images.contains_key((#[trigger] uses[i]).1)
        && images[uses[i].1].last_used == uses[i].0 by {
        assert(uses.contains(uses[i]));
        assert(unsorted.to_multiset().contains(uses[i]));
        assert(unsorted.contains(uses[i]));
        let j = choose|j: int| 0 <= j < unsorted.len() && unsorted[j] == uses[i];
        assert(keys.to_set().contains(keys[j]));
    }
    assert forall|i: int, j: int| 0 <= i < j < uses.len() implies (#[trigger] uses[i]).0 < (
    #[trigger] uses[j]).0 by {
        assert(uses[i] != uses[j]);
        assert(images.contains_key(uses[i].1) && images.contains_key(uses[j].1));
    }
    assert forall|key: ImageKey| #[trigger] images.contains_key(key) implies exists|i: int|
        0 <= i < uses.len() && uses[i].1 == key by {
        assert(keys.to_set().contains(key));
        let j = choose|j: int| 0 <= j < keys.len() && keys[j] == key;
        assert(unsorted.contains(unsorted[j]));
        assert(uses.to_multiset().contains(unsorted[j]));
        assert(uses.contains(unsorted[j]));
        let i = choose|i: int| 0 <= i < uses.len() && uses[i] == unsorted[j];
        assert(uses[i].1 == key);
    }
}

/// What is left when the first `n` uses went and the budget was met.
proof fn lemma_evicted<I, D>(
    before: StoreView<I, D>,
    after: StoreView<I, D>,
    uses: Seq<(u64, ImageKey)>,
    n: int,
    budget: nat,
)
    requires
        before.wf(),
        lists_by_use(before.images, uses),
        0 <= n <= uses.len(),
        after.tick == before.tick,
        after.gpu == before.gpu,
        after.wf(),
        after.accounted(),
        after.images == before.images.remove_keys(first_keys(uses, n)),
        n == uses.len() || after.total_bytes <= budget,
        n > 0 ==> after.total_bytes + before.images[uses[n - 1].1].bytes > budget,
    ensures
        before.evicts_to(budget, after),
{
    if n == uses.len() {
        assert(after.images.dom() =~= Set::empty()) by {
            assert forall|key: ImageKey| !after.images.dom().contains(key) by {
                if before.images.contains_key(key) {
                    let i = choose|i: int| 0 <= i < uses.len() && uses[i].1 == key;
                    assert(first_keys(uses, n).contains(uses[i].1));
                }
            }
        }
    }
    assert forall|gone: ImageKey, kept: ImageKey|
        #![trigger before.images.contains_key(gone), after.images.contains_key(kept)]
        before.evicted(after, gone) && after.images.contains_key(
            kept,
        ) implies before.images[gone].last_used < before.images[kept].last_used by {
        assert(first_keys(uses, n).contains(gone));
        let i = choose|i: int| 0 <= i < n && (#[trigger] uses[i]).1 == gone;
        let j = choose|j: int| 0 <= j < uses.len() && uses[j].1 == kept;
        if j < n {
            assert(first_keys(uses, n).contains(uses[j].1));
        }
        assert(uses[i].0 < uses[j].0);
    }
    assert forall|last: ImageKey|
        #![trigger before.images.contains_key(last)]
        before.evicted(after, last) && (forall|gone: ImageKey| #[trigger]
            before.evicted(after, gone) ==> before.images[gone].last_used
                <= before.images[last].last_used) implies after.total_bytes
        + before.images[last].bytes > budget by {
        assert(first_keys(uses, n).contains(last));
        let i = choose|i: int| 0 <= i < n && (#[trigger] uses[i]).1 == last;
        assert(first_keys(uses, n).contains(uses[n - 1].1));
        assert(before.evicted(after, uses[n - 1].1));
        if i < n - 1 {
            assert(uses[i].0 < uses[n - 1].0);
        }
    }
}

/// The keys of the first `n` uses.
spec fn first_keys(uses: Seq<(u64, ImageKey)>, n: int) -> Set<ImageKey> {
    Set::new(|key: ImageKey| exists|i: int| 0 <= i < n && (#[trigger] uses[i]).1 == key)
}

} // verus!
