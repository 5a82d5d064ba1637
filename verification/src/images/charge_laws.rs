//! What images are charged with, what adding one stores, and what goes when a
//! budget is met, case by case.
use crate::images::accounting::{lemma_charged_insert, lemma_charged_remove};
use crate::images::entries::ImageKey;
use crate::images::entry::{EntryView, ImageView, RasterView, Texture};
use crate::images::error::StoreError;
use crate::images::laws::{lemma_charged_submap, lemma_used_last};
use crate::images::model::{charged, AddStep, CpuStep, StoreView};
use crate::images::size::{fitted, lemma_nearest, needs_no_scaling, proportional, ISize};
use crate::uuid::Uuid;
use vstd::prelude::*;

verus! {

/// An RGBA texture takes four bytes for each pixel; one without pixels takes
/// none. A longer side is one of the two and no shorter than either.
pub proof fn law_pixels_take_four_bytes(size: ISize)
    ensures
        size.width >= 0 && size.height >= 0 ==> size.rgba_cost() == 4 * (size.width * size.height),
        size.width <= 0 || size.height <= 0 ==> size.rgba_cost() == 0,
        size.spec_longest() == size.width || size.spec_longest() == size.height,
        size.spec_longest() >= size.width && size.spec_longest() >= size.height,
{
    let (w, h) = (size.width as int, size.height as int);
    if w >= 0 && h >= 0 {
        assert(w * h * 4 == 4 * (w * h)) by (nonlinear_arith);
        assert(w * h >= 0) by (nonlinear_arith)
            requires
                w >= 0,
                h >= 0,
        ;
        assert(size.rgba_cost() == w * h * 4);
    }
    if w <= 0 || h <= 0 {
        assert(0 * h == 0 && w * 0 == 0 && 0int * 0 == 0) by (nonlinear_arith);
        assert(size.rgba_cost() == 0) by {
            if w <= 0 {
                let m = if h >= 0 {
                    h
                } else {
                    0
                };
                assert(0 * m * 4 == 0) by (nonlinear_arith);
            } else {
                assert(w * 0 * 4 == 0) by (nonlinear_arith);
            }
        }
    }
}

/// A picture that is within the limit, or that has none, is decoded as it is.
/// Another one is decoded at its width and height times the limit over its
/// longer side, each within half a pixel, or at one pixel where that is less.
pub proof fn law_decoded_size_keeps_the_proportions(native: ISize, max_side: int, scaled: ISize)
    ensures
        max_side <= 0 ==> fitted(native, max_side, scaled) == native,
        native.width <= max_side && native.height <= max_side ==> fitted(native, max_side, scaled)
            == native,
        max_side > 0 && (native.width > max_side || native.height > max_side) ==> {
            let size = fitted(native, max_side, scaled);
            let longer = native.spec_longest();
            &&& size.width == scaled.width || (size.width == 1 && scaled.width < 1)
            &&& size.height == scaled.height || (size.height == 1 && scaled.height < 1)
            &&& size.width >= 1 && size.height >= 1
            &&& proportional(native, max_side, scaled) ==> {
                &&& (2 * scaled.width - 1) * longer <= 2 * (native.width * max_side) < (2
                    * scaled.width + 1) * longer
                &&& (2 * scaled.height - 1) * longer <= 2 * (native.height * max_side) < (2
                    * scaled.height + 1) * longer
            }
        },
{
    if max_side > 0 && native.spec_longest() > max_side {
        lemma_nearest(native.width * max_side, native.spec_longest());
        lemma_nearest(native.height * max_side, native.spec_longest());
    }
}

/// In every state of the store a raster is charged with its encoded bytes and
/// with the bytes of each tier that is resident, and unclassified bytes with
/// their number.
pub proof fn law_images_are_charged_for_what_they_hold<I, D>(s: StoreView<I, D>, key: ImageKey)
    requires
        s.wf(),
        s.images.contains_key(key),
    ensures
        s.images[key].image matches ImageView::Raster(r) ==> {
            let display = match r.display {
                Some(t) => t.size.rgba_cost(),
                None => 0,
            };
            let full = match r.full {
                Some(t) => t.size.rgba_cost(),
                None => 0,
            };
            s.images[key].bytes == r.raw.len() + display + full
        },
        s.images[key].image matches ImageView::Raw(raw) ==> s.images[key].bytes == raw.len(),
        s.images[key].last_used <= s.tick,
        s.total_bytes <= usize::MAX,
{
}

/// Charging an image anew goes by what it holds: encoded bytes by their number,
/// textures by their pixels. Only a vector document keeps the charge that it
/// had, whether it is rasterized or not.
pub proof fn law_charge_goes_by_what_is_held<I, D>(
    s: StoreView<I, D>,
    key: ImageKey,
    before: nat,
    image: ImageView<I, D>,
)
    ensures
        image matches ImageView::Svg { .. } ==> image.cost(before) == before,
        image matches ImageView::Raw(raw) ==> image.cost(before) == raw.len(),
        image matches ImageView::Gpu(t) ==> image.cost(before) == t.size.rgba_cost(),
        image matches ImageView::Raster(r) ==> image.cost(before) == r.raw.len() + (
        match r.display {
            Some(t) => t.size.rgba_cost(),
            None => 0,
        }) + (match r.full {
            Some(t) => t.size.rgba_cost(),
            None => 0,
        }),
        !s.images.contains_key(key) ==> s.recharged(key) == s,
        s.images.contains_key(key) ==> {
            let after = s.recharged(key);
            &&& after.images[key].bytes == s.images[key].image.cost(s.images[key].bytes)
            &&& after.images[key].image == s.images[key].image
            &&& after.images[key].last_used == s.images[key].last_used
            &&& after.images.remove(key) == s.images.remove(key)
            &&& after.tick == s.tick && after.gpu == s.gpu
        },
{
    assert(s.recharged(key).images.remove(key) =~= s.images.remove(key));
}

/// What the entries are charged with together is a sum: nothing for none, and
/// one more entry adds its own charge.
pub proof fn law_charges_add_up<I, D>(
    images: Map<ImageKey, EntryView<I, D>>,
    key: ImageKey,
    entry: EntryView<I, D>,
)
    requires
        images.dom().finite(),
    ensures
        charged(Map::<ImageKey, EntryView<I, D>>::empty()) == 0,
        !images.contains_key(key) ==> charged(images.insert(key, entry)) == charged(images)
            + entry.bytes,
        images.contains_key(key) ==> charged(images) == charged(images.remove(key))
            + images[key].bytes,
{
    lemma_charged_insert(images, key, entry);
    if images.contains_key(key) {
        lemma_charged_remove(images, key);
    }
}

/// A store counts nothing but what its entries are charged with: taking one
/// out of a store that counts right leaves a count that is less by its charge.
pub proof fn law_count_is_the_sum_of_charges<I, D>(s: StoreView<I, D>, key: ImageKey)
    requires
        s.accounted(),
        s.images.dom().finite(),
    ensures
        s.images.dom() == Set::<ImageKey>::empty() ==> s.total_bytes == 0,
        s.images.contains_key(key) ==> {
            &&& s.images[key].bytes <= s.total_bytes
            &&& s.total_bytes - s.images[key].bytes == charged(s.images.remove(key))
        },
{
    if s.images.contains_key(key) {
        lemma_charged_remove(s.images, key);
    }
}

/// A vector document is charged with the bytes it was added from, whatever
/// is done with it afterwards, so that an eviction to fewer bytes takes it.
pub proof fn law_document_is_charged_with_its_bytes<I, D>(
    s: StoreView<I, D>,
    key: ImageKey,
    data: Seq<u8>,
    dom: D,
    display_side: int,
    needed: int,
    raster: Option<Texture<I>>,
    budget: nat,
    after: StoreView<I, D>,
)
    requires
        s.images.dom().finite(),
        !s.images.contains_key(key),
    ensures
        ({
            let stored = s.add_svg(key, data, Some(dom)).0;
            let painted = stored.draw(key, display_side, needed).0;
            let drawn = painted.rasterized(key, raster);
            &&& stored.images[key].bytes == data.len()
            &&& stored.total_bytes == s.total_bytes + data.len()
            &&& painted.images[key].bytes == data.len()
            &&& painted.total_bytes == s.total_bytes + data.len()
            &&& drawn.images[key].bytes == data.len()
            &&& drawn.total_bytes == s.total_bytes + data.len()
            &&& budget < data.len() && stored.evicts_to(budget, after) ==> !after.images.contains_key(
                key,
            )
        }),
{
    let stored = s.add_svg(key, data, Some(dom)).0;
    if budget < data.len() && stored.evicts_to(budget, after) {
        law_large_images_are_evicted(stored, budget, after, key);
    }
}

/// An image that is charged with more than the budget is evicted.
pub proof fn law_large_images_are_evicted<I, D>(
    s: StoreView<I, D>,
    budget: nat,
    after: StoreView<I, D>,
    key: ImageKey,
)
    requires
        s.images.dom().finite(),
        s.evicts_to(budget, after),
        s.images.contains_key(key),
        s.images[key].bytes > budget,
    ensures
        !after.images.contains_key(key),
{
    if after.images.contains_key(key) {
        assert(after.images.dom().contains(key) && s.images.dom().contains(key));
        assert(after.images.dom().subset_of(s.images.dom()));
        vstd::set_lib::lemma_set_subset_finite(s.images.dom(), after.images.dom());
        lemma_charged_remove(after.images, key);
    }
}

/// Eviction keeps within the budget and changes no entry that it keeps, none
/// that it keeps was used before one that goes, and nothing goes in vain: with
/// the one that went last, the store would be over its budget.
pub proof fn law_eviction_takes_the_oldest_and_no_more<I, D>(
    s: StoreView<I, D>,
    budget: nat,
    after: StoreView<I, D>,
)
    requires
        s.wf(),
        s.accounted(),
        s.evicts_to(budget, after),
    ensures
        after.total_bytes <= budget,
        after.total_bytes == charged(after.images),
        after.tick == s.tick && after.gpu == s.gpu,
        forall|key: ImageKey| #[trigger]
            after.images.contains_key(key) ==> s.images.contains_key(key) && after.images[key]
                == s.images[key],
        forall|gone: ImageKey, kept: ImageKey|
            #![trigger s.images.contains_key(gone), after.images.contains_key(kept)]
            s.images.contains_key(gone) && !after.images.contains_key(gone)
                && after.images.contains_key(kept) ==> s.images[gone].last_used
                < s.images[kept].last_used,
        s.total_bytes <= budget ==> after == s,
        s.images.dom() != after.images.dom() ==> exists|last: ImageKey|
            #![trigger s.images.contains_key(last)]
            {
                &&& s.images.contains_key(last) && !after.images.contains_key(last)
                &&& after.total_bytes + s.images[last].bytes > budget
                &&& forall|gone: ImageKey| #[trigger]
                    s.images.contains_key(gone) && !after.images.contains_key(gone)
                        ==> s.images[gone].last_used <= s.images[last].last_used
            },
{
    assert forall|key: ImageKey| #[trigger] after.images.contains_key(
        key,
    ) implies s.images.contains_key(key) && after.images[key] == s.images[key] by {
        assert(after.images.dom().contains(key));
        assert(s.images.dom().contains(key));
    }
    assert(after.images.dom().subset_of(s.images.dom()));
    let gone = s.images.dom().difference(after.images.dom());
    if gone.len() == 0 {
        assert(gone =~= Set::<ImageKey>::empty());
        assert forall|key: ImageKey| s.images.dom().contains(key) implies #[trigger]
            after.images.dom().contains(key) by {
            if !after.images.dom().contains(key) {
                assert(gone.contains(key));
            }
        }
        assert(s.images.dom() =~= after.images.dom());
        assert(after.images =~= s.images);
    } else {
        let last = lemma_used_last(s.images, gone);
        assert(s.evicted(after, last));
        assert forall|k: ImageKey| #[trigger] s.evicted(after, k) implies s.images[k].last_used
            <= s.images[last].last_used by {
            assert(gone.contains(k));
        }
        assert(s.images.contains_key(last));
        assert(after.total_bytes + s.images[last].bytes > budget);
        assert forall|k: ImageKey| #[trigger]
            s.images.contains_key(k) && !after.images.contains_key(
            k,
        ) implies s.images[k].last_used <= s.images[last].last_used by {
            assert(gone.contains(k));
        }
        assert(after.images.submap_of(s.images.remove(last)));
        lemma_charged_remove(s.images, last);
        lemma_charged_submap(after.images, s.images.remove(last));
    }
}

/// An image that is not stored is read as a vector document first. One that is
/// stays what it is, but for a raster whose display tier is smaller than both
/// the side asked for and the picture: that has to be decoded, or can be had
/// from the full tier.
pub proof fn law_adding_starts_with_the_document<I, D>(
    s: StoreView<I, D>,
    key: ImageKey,
    display_side: Option<i32>,
)
    ensures
        !s.images.contains_key(key) ==> s.add(key, display_side) == (s, AddStep::ParseSvg),
        s.images.contains_key(key) && (display_side is None || display_side->0 <= 0) ==> s.add(
            key,
            display_side,
        ) == (s, AddStep::Done),
        s.images.contains_key(key) && !(s.images[key].image is Raster) ==> s.add(key, display_side)
            == (s, AddStep::Done),
        s.images.contains_key(key) && display_side is Some && display_side->0 > 0 ==> (
        s.images[key].image matches ImageView::Raster(r) ==> (r.native.width >= 1 || r.native.height
            >= 1) ==> {
            let side = display_side->0;
            let (w, h) = (r.native.width, r.native.height);
            let too_small = r.display_side < side && (r.display_side < w || r.display_side < h);
            let whole = side >= w && side >= h;
            let (after, step) = s.add(key, display_side);
            let q = after.images[key].image->Raster_0;
            &&& !too_small ==> (after, step) == (s, AddStep::Done)
            &&& too_small && whole && r.full is Some ==> {
                &&& step == AddStep::Done
                &&& after.images[key].image is Raster
                &&& q.raw == r.raw && q.native == r.native
                &&& q.display == r.full && q.full is None
                &&& q.display_side >= w && q.display_side >= h
                &&& q.display_side == w || q.display_side == h
            }
            &&& too_small && !(whole && r.full is Some) && !s.gpu ==> (after, step) == (
                s,
                AddStep::Done,
            )
            &&& too_small && !whole && s.gpu ==> (after, step) == (
                s,
                AddStep::Display { max_side: side },
            )
            &&& too_small && whole && r.full is None && s.gpu ==> (after, step) == (
                s,
                AddStep::Display { max_side: 0 },
            )
        }),
{
}

/// A new entry is there as it was given, charged as told and used at a new
/// time; the store counts its charge, and the other entries stay.
pub proof fn law_new_entry<I, D>(
    s: StoreView<I, D>,
    key: ImageKey,
    image: ImageView<I, D>,
    bytes: nat,
)
    ensures
        ({
            let after = s.inserted(key, image, bytes);
            &&& after.images[key].image == image
            &&& after.images[key].bytes == bytes
            &&& after.images[key].last_used == s.tick + 1
            &&& after.images.remove(key) == s.images.remove(key)
            &&& after.images.contains_key(key)
            &&& after.tick == s.tick + 1
            &&& after.total_bytes == s.total_bytes + bytes
            &&& after.gpu == s.gpu
        }),
{
    let after = s.inserted(key, image, bytes);
    assert(after.images.remove(key) =~= s.images.remove(key));
}

/// What is read as a vector document is stored as one, not yet rasterized.
/// What is not is kept as it is where there is no GPU, and sized where there
/// is one. Either is charged with its bytes.
pub proof fn law_added_document<I, D>(s: StoreView<I, D>, key: ImageKey, data: Seq<u8>, dom: D)
    ensures
        s.add_svg(key, data, Some(dom)).1 == AddStep::Done,
        ({
            let after = s.add_svg(key, data, Some(dom)).0;
            &&& after.images[key].image == (ImageView::<I, D>::Svg { dom, raster: None })
            &&& after.images[key].bytes == data.len()
            &&& after.images[key].last_used == s.tick + 1
            &&& after.images.remove(key) == s.images.remove(key)
            &&& after.tick == s.tick + 1
            &&& after.total_bytes == s.total_bytes + data.len()
        }),
        s.gpu ==> s.add_svg(key, data, None) == (s, AddStep::NativeSize),
        !s.gpu ==> {
            let (after, step) = s.add_svg(key, data, None);
            &&& step == AddStep::Done
            &&& after.images[key].image == ImageView::<I, D>::Raw(data)
            &&& after.images[key].bytes == data.len()
            &&& after.images[key].last_used == s.tick + 1
            &&& after.images.remove(key) == s.images.remove(key)
            &&& after.tick == s.tick + 1
            &&& after.total_bytes == s.total_bytes + data.len()
        },
{
    law_new_entry(s, key, ImageView::Svg { dom, raster: None }, data.len());
    law_new_entry(s, key, ImageView::<I, D>::Raw(data), data.len());
}

/// A picture of known size is decoded at once if it is a thumbnail, and then at
/// its native size, or if the side it shows at is known, and then to that side.
/// Any other is stored as encoded bytes without a tier, and so is what has no
/// known size, unclassified; both are charged with their bytes.
pub proof fn law_added_picture_is_decoded_at_once<I, D>(
    s: StoreView<I, D>,
    key: ImageKey,
    data: Seq<u8>,
    display_side: Option<i32>,
    native: ISize,
)
    ensures
        ({
            let (after, step) = s.add_sized(key, data, display_side, Some(native));
            let longer = if native.width >= native.height {
                native.width
            } else {
                native.height
            };
            &&& key.1 && longer > 0 ==> {
                &&& after == s
                &&& step == (AddStep::Decode { eager_side: longer })
                &&& needs_no_scaling(native, longer as int)
            }
            &&& !key.1 && display_side is Some && display_side->0 > 0 ==> {
                &&& after == s
                &&& step == (AddStep::Decode { eager_side: display_side->0 })
            }
            &&& (key.1 && longer <= 0) || (!key.1 && (display_side is None || display_side->0
                <= 0)) ==> {
                &&& step == AddStep::Done
                &&& after.images[key].image == ImageView::<I, D>::Raster(
                    RasterView { raw: data, native, display: None, display_side: 0, full: None },
                )
                &&& after.images[key].bytes == data.len()
                &&& after.images[key].last_used == s.tick + 1
                &&& after.images.remove(key) == s.images.remove(key)
                &&& after.tick == s.tick + 1
                &&& after.total_bytes == s.total_bytes + data.len()
            }
        }),
        ({
            let (after, step) = s.add_sized(key, data, display_side, None);
            &&& step == AddStep::Done
            &&& after.images[key].image == ImageView::<I, D>::Raw(data)
            &&& after.images[key].bytes == data.len()
            &&& after.images[key].last_used == s.tick + 1
            &&& after.images.remove(key) == s.images.remove(key)
            &&& after.tick == s.tick + 1
            &&& after.total_bytes == s.total_bytes + data.len()
        }),
{
    let raster = RasterView { raw: data, native, display: None, display_side: 0, full: None };
    law_new_entry(s, key, ImageView::<I, D>::Raster(raster), data.len());
    law_new_entry(s, key, ImageView::<I, D>::Raw(data), data.len());
}

/// A picture that was decoded at once has that as its display tier, for the
/// side it was decoded to or the longer one of the picture, whichever is less,
/// and no full tier. It is charged with its bytes and with the tier.
pub proof fn law_added_picture_has_a_display_tier<I, D>(
    s: StoreView<I, D>,
    key: ImageKey,
    data: Seq<u8>,
    native: ISize,
    target_side: int,
    texture: Texture<I>,
)
    ensures
        ({
            let after = s.added_raster(key, data, native, target_side, Some(texture));
            let r = after.images[key].image->Raster_0;
            &&& after.images[key].image is Raster
            &&& r.raw == data && r.native == native
            &&& r.display == Some(texture) && r.full is None
            &&& target_side < native.width || target_side < native.height ==> r.display_side
                == target_side
            &&& target_side >= native.width && target_side >= native.height ==> {
                &&& r.display_side == native.width || r.display_side == native.height
                &&& r.display_side >= native.width && r.display_side >= native.height
            }
            &&& after.images[key].bytes == data.len() + texture.size.rgba_cost()
            &&& after.total_bytes == s.total_bytes + data.len() + texture.size.rgba_cost()
            &&& after.images[key].last_used == s.tick + 1
            &&& after.images.remove(key) == s.images.remove(key)
            &&& after.tick == s.tick + 1
        }),
        ({
            let after = s.added_raster(key, data, native, target_side, None);
            &&& after.images[key].image == ImageView::<I, D>::Raster(
                RasterView { raw: data, native, display: None, display_side: 0, full: None },
            )
            &&& after.images[key].bytes == data.len()
            &&& after.total_bytes == s.total_bytes + data.len()
            &&& after.images[key].last_used == s.tick + 1
            &&& after.images.remove(key) == s.images.remove(key)
            &&& after.tick == s.tick + 1
        }),
{
    let some = s.added_raster(key, data, native, target_side, Some(texture));
    let none = s.added_raster(key, data, native, target_side, None);
    assert(some.images.remove(key) =~= s.images.remove(key));
    assert(none.images.remove(key) =~= s.images.remove(key));
}

/// Without a GPU an image for the CPU is made from whatever is stored, of any
/// kind: the image, else its thumbnail; there is none only where neither is
/// stored. If the image fails, its thumbnail is next, and nothing after that.
/// With a GPU the image is looked up and copied back.
pub proof fn law_cpu_image_is_made_from_what_is_stored<I, D>(
    s: StoreView<I, D>,
    id: Uuid,
    key: ImageKey,
)
    ensures
        s.gpu ==> s.cpu_image(id) == (s.get(id).0, CpuStep::CopyBack(s.get(id).1)),
        !s.gpu && s.images.contains_key((id, false)) ==> {
            let (after, step) = s.cpu_image(id);
            &&& step == CpuStep::Decode((id, false))
            &&& after.images == s.images.insert(
                (id, false),
                EntryView { last_used: s.tick + 1, ..s.images[(id, false)] },
            )
            &&& after.tick == s.tick + 1 && after.total_bytes == s.total_bytes && !after.gpu
        },
        !s.gpu && !s.images.contains_key((id, false)) && s.images.contains_key((id, true)) ==> {
            let (after, step) = s.cpu_image(id);
            &&& step == CpuStep::Decode((id, true))
            &&& after.images == s.images.insert(
                (id, true),
                EntryView { last_used: s.tick + 1, ..s.images[(id, true)] },
            )
            &&& after.tick == s.tick + 1 && after.total_bytes == s.total_bytes && !after.gpu
        },
        !s.gpu && !s.images.contains_key((id, false)) && !s.images.contains_key((id, true))
            ==> s.cpu_image(id) == (s, CpuStep::Nothing),
        !key.1 && s.images.contains_key((key.0, true)) ==> {
            let (after, step) = s.cpu_image_after(key);
            &&& step == CpuStep::Decode((key.0, true))
            &&& after.images == s.images.insert(
                (key.0, true),
                EntryView { last_used: s.tick + 1, ..s.images[(key.0, true)] },
            )
            &&& after.tick == s.tick + 1 && after.total_bytes == s.total_bytes
        },
        key.1 || !s.images.contains_key((key.0, true)) ==> s.cpu_image_after(key) == (
            s,
            CpuStep::Nothing,
        ),
{
}

/// Asking for the vector document of an identifier is a use of its image, or
/// of its thumbnail where the image is not stored, whatever kind that is; and
/// the document is there if it is one, rasterized or not.
pub proof fn law_document_is_had_directly<I, D>(s: StoreView<I, D>, id: Uuid)
    ensures
        !s.images.contains_key((id, false)) && !s.images.contains_key((id, true)) ==> s.svg(id) == (
            s,
            None::<D>,
        ),
        s.images.contains_key((id, false)) || s.images.contains_key((id, true)) ==> {
            let key = (id, !s.images.contains_key((id, false)));
            let (after, dom) = s.svg(id);
            &&& after.images == s.images.insert(
                key,
                EntryView { last_used: s.tick + 1, ..s.images[key] },
            )
            &&& after.tick == s.tick + 1
            &&& after.total_bytes == s.total_bytes && after.gpu == s.gpu
            &&& s.images[key].image matches ImageView::Svg { dom: d, .. } ==> dom == Some(d)
            &&& !(s.images[key].image is Svg) ==> dom is None
        },
{
}

/// A texture is stored once, and only beside a GPU. It is charged with its
/// bytes and painted as it is; where no picture could be made of it, nothing
/// is stored.
pub proof fn law_texture_is_stored_once<I, D>(
    s: StoreView<I, D>,
    key: ImageKey,
    bytes: nat,
    texture: Texture<I>,
    needed: int,
)
    ensures
        s.images.contains_key(key) ==> s.texture_needed(key) == Ok::<bool, StoreError>(false),
        !s.images.contains_key(key) && s.gpu ==> s.texture_needed(key) == Ok::<bool, StoreError>(
            true,
        ),
        !s.images.contains_key(key) && !s.gpu ==> s.texture_needed(key) == Err::<bool, StoreError>(
            StoreError::NoGpuContext,
        ),
        s.add_texture(key, bytes, None) == (s, Err::<(), StoreError>(StoreError::TextureImport)),
        ({
            let (after, stored) = s.add_texture(key, bytes, Some(texture));
            &&& stored == Ok::<(), StoreError>(())
            &&& after.drawn(key, needed) == Some(texture)
            &&& after.images[key].bytes == bytes
            &&& after.images[key].last_used == s.tick + 1
            &&& after.images.remove(key) == s.images.remove(key)
            &&& after.tick == s.tick + 1
            &&& after.total_bytes == s.total_bytes + bytes
            &&& after.texture_needed(key) == Ok::<bool, StoreError>(false)
        }),
{
    law_new_entry(s, key, ImageView::<I, D>::Gpu(texture), bytes);
}

/// The encoded bytes and the document of an image, by what is stored.
pub proof fn law_sources_by_kind<I, D>(s: StoreView<I, D>, key: ImageKey)
    ensures
        !s.images.contains_key(key) ==> s.encoded(key) is None && s.document(key) is None,
        s.images.contains_key(key) ==> match s.images[key].image {
            ImageView::Raster(r) => s.encoded(key) == Some(r.raw) && s.document(key) is None,
            ImageView::Raw(raw) => s.encoded(key) == Some(raw) && s.document(key) is None,
            ImageView::Svg { dom, .. } => s.encoded(key) is None && s.document(key) == Some(dom),
            ImageView::Gpu(_) => s.encoded(key) is None && s.document(key) is None,
        },
{
}

} // verus!
