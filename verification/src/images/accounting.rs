//! How single changes of the store bear on its invariant and on what it
//! counts itself as retaining.
use crate::images::entries::ImageKey;
use crate::images::entry::{EntryView, ImageView, RasterView, Texture};
use crate::images::model::{charged, StoreView};
use vstd::prelude::*;

verus! {

/// What the entries are charged with is one entry and the others.
pub proof fn lemma_charged_remove<I, D>(images: Map<ImageKey, EntryView<I, D>>, key: ImageKey)
    requires
        images.dom().finite(),
        images.contains_key(key),
    ensures
        charged(images) == images[key].bytes + charged(images.remove(key)),
    decreases images.dom().len(),
{
    let first = images.dom().choose();
    if first != key {
        lemma_charged_remove(images.remove(first), key);
        lemma_charged_remove(images.remove(key), first);
        assert(images.remove(first).remove(key) =~= images.remove(key).remove(first));
    }
}

/// An entry put at `key` takes the place of what was charged there.
pub proof fn lemma_charged_insert<I, D>(
    images: Map<ImageKey, EntryView<I, D>>,
    key: ImageKey,
    entry: EntryView<I, D>,
)
    requires
        images.dom().finite(),
    ensures
        images.contains_key(key) ==> charged(images.insert(key, entry)) + images[key].bytes
            == charged(images) + entry.bytes,
        !images.contains_key(key) ==> charged(images.insert(key, entry)) == charged(images)
            + entry.bytes,
{
    lemma_charged_remove(images.insert(key, entry), key);
    if images.contains_key(key) {
        lemma_charged_remove(images, key);
        assert(images.insert(key, entry).remove(key) =~= images.remove(key));
    } else {
        assert(images.insert(key, entry).remove(key) =~= images);
    }
}

/// A use changes neither the invariant nor the count.
pub proof fn lemma_marked<I, D>(s: StoreView<I, D>, key: ImageKey)
    requires
        s.wf(),
        s.images.contains_key(key),
        s.unused_now(key),
    ensures
        s.marked(key).wf(),
        s.accounted() ==> s.marked(key).accounted(),
{
    let entry = EntryView { last_used: s.tick, ..s.images[key] };
    lemma_charged_insert(s.images, key, entry);
}

/// A use at a new time changes neither the invariant nor the count.
pub proof fn lemma_touched<I, D>(s: StoreView<I, D>, key: ImageKey)
    requires
        s.wf(),
        s.tick < u64::MAX,
        s.images.contains_key(key),
    ensures
        s.ticked().wf(),
        s.ticked().unused_now(key),
        s.touched(key).wf(),
        s.accounted() ==> s.touched(key).accounted(),
{
    lemma_marked(s.ticked(), key);
}

/// Another raster keeps the invariant, and the count unless that would be
/// over what a `usize` holds.
pub proof fn lemma_with_raster<I, D>(s: StoreView<I, D>, key: ImageKey, raster: RasterView<I>)
    requires
        s.wf(),
        s.images.contains_key(key),
        raster.cost() <= usize::MAX,
        raster.sound(),
    ensures
        s.with_raster(key, raster).wf(),
        s.accounted() && charged(s.with_raster(key, raster).images) <= usize::MAX
            ==> s.with_raster(key, raster).accounted(),
        s.accounted() && raster.cost() <= s.images[key].bytes
            ==> s.with_raster(key, raster).accounted(),
        s.unused_now(key) ==> s.with_raster(key, raster).unused_now(key),
{
    let image = ImageView::Raster(raster);
    let entry = EntryView { image, bytes: raster.cost(), ..s.images[key] };
    assert(s.with_raster(key, raster).images =~= s.images.insert(key, entry));
    lemma_charged_insert(s.images, key, entry);
    lemma_charged_remove(s.images, key);
}

/// A single texture keeps the invariant, and the count unless that would be
/// over what a `usize` holds.
pub proof fn lemma_with_texture<I, D>(s: StoreView<I, D>, key: ImageKey, texture: Texture<I>)
    requires
        s.wf(),
        s.images.contains_key(key),
    ensures
        s.with_texture(key, texture).wf(),
        s.accounted() && charged(s.with_texture(key, texture).images) <= usize::MAX
            ==> s.with_texture(key, texture).accounted(),
        s.unused_now(key) ==> s.with_texture(key, texture).unused_now(key),
{
    let image = ImageView::Gpu(texture);
    let entry = EntryView { image, bytes: texture.size.rgba_cost(), ..s.images[key] };
    assert(s.with_texture(key, texture).images =~= s.images.insert(key, entry));
    lemma_charged_insert(s.images, key, entry);
    lemma_charged_remove(s.images, key);
}

/// Another state of a vector document keeps the invariant and the count.
pub proof fn lemma_with_image<I, D>(s: StoreView<I, D>, key: ImageKey, image: ImageView<I, D>)
    requires
        s.wf(),
        s.images.contains_key(key),
        image is Svg,
    ensures
        s.with_image(key, image).wf(),
        s.accounted() ==> s.with_image(key, image).accounted(),
        s.unused_now(key) ==> s.with_image(key, image).unused_now(key),
{
    lemma_charged_insert(s.images, key, EntryView { image, ..s.images[key] });
}

/// A new entry keeps the invariant and the count.
pub proof fn lemma_inserted<I, D>(
    s: StoreView<I, D>,
    key: ImageKey,
    image: ImageView<I, D>,
    bytes: nat,
)
    requires
        s.wf(),
        s.tick < u64::MAX,
        s.total_bytes + bytes <= usize::MAX,
        !s.images.contains_key(key),
        image matches ImageView::Raster(r) ==> r.cost() == bytes && bytes <= usize::MAX
            && r.sound(),
        image matches ImageView::Raw(raw) ==> raw.len() == bytes,
    ensures
        s.inserted(key, image, bytes).wf(),
        s.accounted() ==> s.inserted(key, image, bytes).accounted(),
{
    let entry = EntryView { image, bytes, last_used: s.tick + 1 };
    lemma_charged_insert(s.images, key, entry);
}

/// Taking an entry out keeps the invariant and the count.
pub proof fn lemma_removed<I, D>(s: StoreView<I, D>, key: ImageKey)
    requires
        s.wf(),
        s.images.contains_key(key),
    ensures
        s.removed(key).wf(),
        s.accounted() ==> s.removed(key).accounted(),
        s.accounted() ==> s.images[key].bytes <= s.total_bytes,
{
    lemma_charged_remove(s.images, key);
}

} // verus!
