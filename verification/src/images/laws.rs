//! Laws of the image store.
use crate::images::accounting::{
    lemma_charged_insert, lemma_charged_remove, lemma_marked, lemma_removed, lemma_with_texture,
};
use crate::images::entries::ImageKey;
use crate::images::entry::{texture_cost, EntryView, ImageView, RasterView, Texture};
use crate::images::model::{charged, eager_side, AddStep, DrawStep, FetchStep, StoreView};
use crate::images::size::{delivers, smaller, ISize};
use crate::uuid::Uuid;
use vstd::prelude::*;

verus! {

/// The same images are stored in `after` as in `before`, and those other than
/// `key` are what they were.
pub open spec fn only_changes<I, D>(
    before: StoreView<I, D>,
    after: StoreView<I, D>,
    key: ImageKey,
) -> bool {
    &&& after.gpu == before.gpu
    &&& forall|other: ImageKey|
        #![trigger before.images.contains_key(other)]
        #![trigger after.images.contains_key(other)]
        after.images.contains_key(other) == before.images.contains_key(other)
    &&& forall|other: ImageKey|
        #![trigger before.images[other]]
        #![trigger after.images[other]]
        before.images.contains_key(other) && other != key ==> after.images[other]
            == before.images[other]
}

/// `key` holds a texture in `after` if it held one in `before`.
pub open spec fn stays_paintable<I, D>(
    before: StoreView<I, D>,
    after: StoreView<I, D>,
    key: ImageKey,
) -> bool {
    before.images.contains_key(key) && before.images[key].image.paintable()
        ==> after.images.contains_key(key) && after.images[key].image.paintable()
}

/// `key` holds the same encoded bytes and the same document in `after` as in
/// `before`.
pub open spec fn same_source<I, D>(
    before: StoreView<I, D>,
    after: StoreView<I, D>,
    key: ImageKey,
) -> bool {
    after.encoded(key) == before.encoded(key) && after.document(key) == before.document(key)
}

/// What the stages of painting have in common.
proof fn lemma_stages<I, D>(
    s: StoreView<I, D>,
    key: ImageKey,
    display_side: int,
    needed: int,
)
    requires
        s.images.contains_key(key),
    ensures
        only_changes(s, s.draw_end(key).0, key),
        stays_paintable(s, s.draw_end(key).0, key),
        only_changes(s, s.draw_full(key, needed).0, key),
        stays_paintable(s, s.draw_full(key, needed).0, key),
        only_changes(s, s.draw_display(key, display_side, needed).0, key),
        stays_paintable(s, s.draw_display(key, display_side, needed).0, key),
        same_source(s, s.draw_end(key).0, key),
        same_source(s, s.draw_full(key, needed).0, key),
        same_source(s, s.draw_display(key, display_side, needed).0, key),
{
    let dropped = s.full_dropped(key, needed);
    assert(only_changes(s, dropped, key));
    assert(only_changes(dropped, dropped.draw_end(key).0, key));
    let ensured = s.display_ensured(key, display_side);
    assert(only_changes(s, ensured, key));
    let dropped2 = ensured.full_dropped(key, needed);
    assert(only_changes(ensured, dropped2, key));
    assert(only_changes(dropped2, dropped2.draw_end(key).0, key));
}

/// Adding an image that is not stored stores it, and leaves the others: a
/// vector document can be read back, other bytes too, and what was decoded at
/// once is what the image is painted with.
pub proof fn law_added_image_is_stored<I, D>(
    s: StoreView<I, D>,
    key: ImageKey,
    data: Seq<u8>,
    dom: D,
    display_side: Option<i32>,
    native: ISize,
    target_side: int,
    decoded: Option<Texture<I>>,
    needed: int,
)
    requires
        !s.images.contains_key(key),
    ensures
        s.add(key, display_side) == (s, AddStep::ParseSvg),
        s.add_svg(key, data, Some(dom)).0.document(key) == Some(dom),
        s.gpu ==> s.add_svg(key, data, None) == (s, AddStep::NativeSize),
        !s.gpu ==> s.add_svg(key, data, None).0.encoded(key) == Some(data),
        s.add_sized(key, data, display_side, None).0.encoded(key) == Some(data),
        eager_side(key.1, native, display_side) <= 0 ==> s.add_sized(
            key,
            data,
            display_side,
            Some(native),
        ).0.encoded(key) == Some(data),
        ({
            let after = s.added_raster(key, data, native, target_side, decoded);
            &&& after.encoded(key) == Some(data)
            &&& after.drawn(key, needed) == decoded
        }),
        forall|other: ImageKey| #[trigger]
            s.images.contains_key(other) ==> {
                &&& s.add_svg(key, data, Some(dom)).0.images[other] == s.images[other]
                &&& s.add_svg(key, data, None).0.images[other] == s.images[other]
                &&& s.add_sized(key, data, display_side, None).0.images[other] == s.images[other]
                &&& s.add_sized(key, data, display_side, Some(native)).0.images[other]
                    == s.images[other]
                &&& s.added_raster(key, data, native, target_side, decoded).images[other]
                    == s.images[other]
            },
{
}

/// Adding an image that is stored replaces neither its bytes nor its document,
/// and leaves the others.
pub proof fn law_stored_image_is_not_replaced<I, D>(
    s: StoreView<I, D>,
    key: ImageKey,
    display_side: Option<i32>,
    side: int,
    decoded: Option<Texture<I>>,
)
    requires
        s.images.contains_key(key),
    ensures
        ({
            let after = s.add(key, display_side).0;
            &&& only_changes(s, after, key)
            &&& after.encoded(key) == s.encoded(key)
            &&& after.document(key) == s.document(key)
            &&& after.images[key].last_used == s.images[key].last_used
        }),
        ({
            let after = s.display_installed(key, side, decoded);
            &&& only_changes(s, after, key)
            &&& after.encoded(key) == s.encoded(key)
            &&& after.document(key) == s.document(key)
            &&& after.images[key].last_used == s.images[key].last_used
        }),
{
}

/// Painting an image keeps its encoded bytes and its document, so that it can
/// be decoded and drawn again.
pub proof fn law_draw_keeps_the_source<I, D>(
    s: StoreView<I, D>,
    key: ImageKey,
    display_side: int,
    needed: int,
    native: Option<ISize>,
    decoded: Option<Texture<I>>,
)
    requires
        s.images.contains_key(key),
    ensures
        same_source(s, s.draw(key, display_side, needed).0, key),
        same_source(s, s.draw_sized(key, display_side, needed, native).0, key),
        same_source(
            s,
            s.display_installed(key, display_side, decoded).draw_full(key, needed).0,
            key,
        ),
        same_source(s, s.full_installed(key, decoded).draw_end(key).0, key),
        same_source(s, s.rasterized(key, decoded), key),
{
    lemma_stages(s, key, display_side, needed);
    let sized = s.sized(key, native);
    assert(same_source(s, sized, key));
    lemma_stages(sized, key, display_side, needed);
    let installed = s.display_installed(key, display_side, decoded);
    assert(same_source(s, installed, key));
    lemma_stages(installed, key, display_side, needed);
    let full = s.full_installed(key, decoded);
    assert(same_source(s, full, key));
    lemma_stages(full, key, display_side, needed);
}

/// Painting an image never touches another one, and removes none.
pub proof fn law_draw_leaves_others<I, D>(
    s: StoreView<I, D>,
    key: ImageKey,
    display_side: int,
    needed: int,
    native: Option<ISize>,
    decoded: Option<Texture<I>>,
)
    requires
        s.images.contains_key(key),
    ensures
        only_changes(s, s.draw(key, display_side, needed).0, key),
        only_changes(s, s.draw_sized(key, display_side, needed, native).0, key),
        only_changes(
            s,
            s.display_installed(key, display_side, decoded).draw_full(key, needed).0,
            key,
        ),
        only_changes(s, s.full_installed(key, decoded).draw_end(key).0, key),
        only_changes(s, s.rasterized(key, decoded), key),
        only_changes(s, s.fetch(key).0, key),
        only_changes(s, s.fetch_decoded(key, decoded), key),
{
    lemma_stages(s, key, display_side, needed);
    let sized = s.sized(key, native);
    assert(only_changes(s, sized, key));
    lemma_stages(sized, key, display_side, needed);
    let installed = s.display_installed(key, display_side, decoded);
    assert(only_changes(s, installed, key));
    lemma_stages(installed, key, display_side, needed);
    let full = s.full_installed(key, decoded);
    assert(only_changes(s, full, key));
    lemma_stages(full, key, display_side, needed);
}

/// Painting an image never leaves it without a texture if it had one: a tier
/// goes only where another one stays.
pub proof fn law_draw_never_drops_the_only_texture<I, D>(
    s: StoreView<I, D>,
    key: ImageKey,
    display_side: int,
    needed: int,
    native: Option<ISize>,
    decoded: Option<Texture<I>>,
)
    requires
        s.images.contains_key(key),
    ensures
        stays_paintable(s, s.draw(key, display_side, needed).0, key),
        stays_paintable(s, s.draw_sized(key, display_side, needed, native).0, key),
        stays_paintable(
            s,
            s.display_installed(key, display_side, decoded).draw_full(key, needed).0,
            key,
        ),
        stays_paintable(s, s.full_installed(key, decoded).draw_end(key).0, key),
        stays_paintable(s, s.rasterized(key, decoded), key),
        stays_paintable(s, s.fetch(key).0, key),
        stays_paintable(s, s.fetch_decoded(key, decoded), key),
{
    lemma_stages(s, key, display_side, needed);
    let installed = s.display_installed(key, display_side, decoded);
    lemma_stages(installed, key, display_side, needed);
    let full = s.full_installed(key, decoded);
    lemma_stages(full, key, display_side, needed);
}

/// A picture is painted with a texture whenever one is there.
pub proof fn law_paintable_is_drawn<I, D>(s: StoreView<I, D>, key: ImageKey, needed: int)
    requires
        s.images.contains_key(key),
    ensures
        s.drawn(key, needed) is Some <==> s.images[key].image.paintable(),
        s.fetched(key) is Some <==> s.images[key].image.paintable(),
{
}

/// Without a GPU nothing is ever asked to be decoded or rasterized for one.
pub proof fn law_no_gpu_no_decoding<I, D>(
    s: StoreView<I, D>,
    key: ImageKey,
    display_side: int,
    needed: int,
    native: Option<ISize>,
    side: Option<i32>,
    data: Seq<u8>,
    svg: Option<D>,
)
    requires
        !s.gpu,
    ensures
        s.draw(key, display_side, needed).1 == DrawStep::Done || s.draw(
            key,
            display_side,
            needed,
        ).1 == DrawStep::NativeSize,
        s.draw_sized(key, display_side, needed, native).1 == DrawStep::Done,
        s.fetch(key).1 == FetchStep::Done,
        s.add(key, side).1 == AddStep::Done || s.add(key, side).1 == AddStep::ParseSvg,
        s.add_svg(key, data, svg).1 == AddStep::Done,
{
}

/// Painting waits for each kind of work at most once, in this order: the
/// native size, the display tier, the full tier or the rasterized document.
pub proof fn law_draw_makes_progress<I, D>(
    s: StoreView<I, D>,
    key: ImageKey,
    display_side: int,
    needed: int,
    native: Option<ISize>,
    decoded: Option<Texture<I>>,
)
    ensures
        !(s.draw_sized(key, display_side, needed, native).1 is NativeSize),
        ({
            let step = s.display_installed(key, display_side, decoded).draw_full(key, needed).1;
            !(step is NativeSize) && !(step is Display)
        }),
        ({
            let step = s.full_installed(key, decoded).draw_end(key).1;
            step is Done || step is Rasterize
        }),
        s.raster(key) is Some ==> s.full_installed(key, decoded).draw_end(key).1 is Done,
{
}

/// An image whose display tier covers the request is painted with it, and
/// its full tier is gone.
pub proof fn law_covered_request_is_painted_from_display<I, D>(
    s: StoreView<I, D>,
    key: ImageKey,
    needed: int,
)
    requires
        s.raster(key) matches Some(r) && r.covers(needed),
    ensures
        s.draw_full(key, needed).1 == DrawStep::Done,
        s.draw_full(key, needed).0.drawn(key, needed) == s.raster(key)->0.display,
        s.draw_full(key, needed).0.raster(key) matches Some(r) && r.full is None,
{
}

/// An image whose display tier is missing or too small for the request is
/// painted with what is decoded at native size; where that cannot be had,
/// with what there is.
pub proof fn law_deep_zoom_is_painted_from_full<I, D>(
    s: StoreView<I, D>,
    key: ImageKey,
    needed: int,
    decoded: Option<Texture<I>>,
)
    requires
        s.raster(key) matches Some(r) && !r.covers(needed),
        s.gpu,
    ensures
        s.raster(key)->0.full is Some ==> {
            &&& s.draw_full(key, needed).1 == DrawStep::Done
            &&& s.draw_full(key, needed).0.drawn(key, needed) == s.raster(key)->0.full
        },
        s.raster(key)->0.full is None ==> {
            &&& s.draw_full(key, needed) == (s, DrawStep::Full)
            &&& s.full_installed(key, decoded).draw_end(key).1 == DrawStep::Done
            &&& s.full_installed(key, decoded).draw_end(key).0.drawn(key, needed) == (
            if decoded is Some {
                decoded
            } else {
                s.raster(key)->0.display
            })
        },
{
}

/// With a GPU, once the display tier was made to cover a side, it does, up to
/// what the picture has: either nothing had to be decoded for that or what
/// was decoded covers it.
pub proof fn law_display_tier_covers<I, D>(
    s: StoreView<I, D>,
    key: ImageKey,
    side: int,
    texture: Texture<I>,
)
    requires
        s.wf(),
        s.gpu,
        s.raster(key) is Some,
        0 < side,
        0 < s.raster(key)->0.native.spec_longest(),
    ensures
        ({
            let covered = smaller(side, s.raster(key)->0.native.spec_longest());
            match s.display_wanted(key, side) {
                None => s.display_ensured(key, side).raster(key) matches Some(r) && r.covers(
                    covered,
                ),
                Some(max_side) => {
                    &&& s.display_installed(key, side, Some(texture)).raster(key) matches Some(r)
                        && r.covers(covered)
                        && r.display == Some(texture)
                    &&& s.display_installed(key, side, None) == s
                    &&& max_side == covered || (max_side == 0 && covered
                        == s.raster(key)->0.native.spec_longest())
                },
            }
        }),
{
}

/// The stages of painting keep the tiers what they are recorded as.
proof fn lemma_true_stages<I, D>(
    s: StoreView<I, D>,
    key: ImageKey,
    display_side: int,
    needed: int,
)
    requires
        s.true_tiers(),
    ensures
        s.draw_end(key).0.true_tiers(),
        s.draw_full(key, needed).0.true_tiers(),
        s.draw_display(key, display_side, needed).0.true_tiers(),
{
    let dropped = s.full_dropped(key, needed);
    assert(dropped.true_tiers());
    assert(dropped.draw_end(key).0.true_tiers());
    let ensured = s.display_ensured(key, display_side);
    assert(ensured.true_tiers());
    let dropped2 = ensured.full_dropped(key, needed);
    assert(dropped2.true_tiers());
    assert(dropped2.draw_end(key).0.true_tiers());
    assert(ensured.draw_end(key).0.true_tiers());
}

/// As long as what is decoded has the size that was asked for, the longer side
/// of every display tier is the side it is recorded to cover, and every full
/// tier has the native size: painting, looking up and evicting keep that.
pub proof fn law_tiers_stay_true<I, D>(
    s: StoreView<I, D>,
    id: Uuid,
    key: ImageKey,
    display_side: int,
    needed: int,
    native: Option<ISize>,
    decoded: Option<Texture<I>>,
    budget: nat,
    after: StoreView<I, D>,
)
    requires
        s.true_tiers(),
    ensures
        s.draw(key, display_side, needed).0.true_tiers(),
        s.draw_sized(key, display_side, needed, native).0.true_tiers(),
        s.display_delivered(key, display_side, decoded) ==> {
            &&& s.display_installed(key, display_side, decoded).true_tiers()
            &&& s.display_installed(key, display_side, decoded).draw_full(
                key,
                needed,
            ).0.true_tiers()
        },
        s.full_delivered(key, decoded) ==> {
            &&& s.full_installed(key, decoded).draw_end(key).0.true_tiers()
            &&& s.fetch_decoded(key, decoded).true_tiers()
        },
        s.rasterized(key, decoded).true_tiers(),
        s.get(id).0.true_tiers(),
        s.cpu_image(id).0.true_tiers(),
        s.cpu_image_after(key).0.true_tiers(),
        s.images.contains_key(key) ==> s.touched(key).true_tiers(),
        s.evicts_to(budget, after) ==> after.true_tiers(),
{
    lemma_true_stages(s, key, display_side, needed);
    lemma_true_stages(s, (id, false), 0, i32::MAX as int);
    let sized = s.sized(key, native);
    assert(sized.true_tiers());
    lemma_true_stages(sized, key, display_side, needed);
    if s.display_delivered(key, display_side, decoded) {
        let installed = s.display_installed(key, display_side, decoded);
        assert(installed.true_tiers());
        lemma_true_stages(installed, key, display_side, needed);
    }
    if s.full_delivered(key, decoded) {
        let full = s.full_installed(key, decoded);
        assert(full.true_tiers());
        lemma_true_stages(full, key, display_side, needed);
    }
    if s.evicts_to(budget, after) {
        assert forall|k: ImageKey| #[trigger] after.images.contains_key(k) implies (
        after.images[k].image matches ImageView::Raster(r) ==> r.true_tiers()) by {
            assert(after.images.dom().contains(k) && s.images.dom().contains(k));
            assert(s.images.contains_key(k));
        }
    }
}

/// As long as what is decoded has the size that was asked for, adding images
/// keeps the tiers what they are recorded as too. An image is decoded at once
/// to a side of at least one pixel or to its own.
pub proof fn law_added_tiers_are_true<I, D>(
    s: StoreView<I, D>,
    key: ImageKey,
    display_side: Option<i32>,
    data: Seq<u8>,
    svg: Option<D>,
    native: ISize,
    target_side: int,
    decoded: Option<Texture<I>>,
    texture: Texture<I>,
    bytes: nat,
)
    requires
        s.true_tiers(),
        target_side > 0 || target_side == native.spec_longest(),
        decoded matches Some(t) ==> delivers(native, target_side, t.size),
    ensures
        s.add(key, display_side).0.true_tiers(),
        s.add_svg(key, data, svg).0.true_tiers(),
        s.add_sized(key, data, display_side, None).0.true_tiers(),
        s.add_sized(key, data, display_side, Some(native)).0.true_tiers(),
        s.added_raster(key, data, native, target_side, decoded).true_tiers(),
        s.inserted(key, ImageView::Gpu(texture), bytes).true_tiers(),
{
}

/// Where the tiers are what they are recorded as, a request is painted with a
/// picture that has at least the pixels it needs, or else, where its full tier
/// is there, with one of native size.
pub proof fn law_painted_picture_has_the_pixels<I, D>(
    s: StoreView<I, D>,
    key: ImageKey,
    needed: int,
)
    requires
        s.true_tiers(),
        s.raster(key) is Some,
    ensures
        s.raster(key)->0.covers(needed) ==> {
            &&& s.drawn(key, needed) matches Some(t)
            &&& needed <= t.size.spec_longest()
        },
        !s.raster(key)->0.covers(needed) && s.raster(key)->0.full is Some ==> {
            &&& s.drawn(key, needed) matches Some(t)
            &&& t.size == s.raster(key)->0.native
        },
{
}

/// Whatever ends painting an image leaves it the one used last, so that it is
/// evicted after all others; only a vector document without a texture stays
/// where it was.
pub proof fn law_drawn_image_is_used_last<I, D>(s: StoreView<I, D>, key: ImageKey)
    requires
        s.wf(),
        s.images.contains_key(key),
        s.images[key].image is Svg ==> s.images[key].image.paintable(),
    ensures
        s.draw_end(key).1 == DrawStep::Done,
        ({
            let after = s.draw_end(key).0;
            forall|other: ImageKey| #[trigger]
                after.images.contains_key(other) && other != key ==> after.images[other].last_used
                    < after.images[key].last_used
        }),
{
}

/// Bytes that could not be read are kept by painting them and stay charged
/// with their length, so that an eviction to less than that takes them.
pub proof fn law_unreadable_bytes_stay_charged<I, D>(
    s: StoreView<I, D>,
    key: ImageKey,
    display_side: int,
    needed: int,
    budget: nat,
    evicted: StoreView<I, D>,
)
    requires
        s.wf(),
        s.accounted(),
        s.raw(key) is Some,
    ensures
        ({
            let (after, step) = s.draw_sized(key, display_side, needed, None);
            &&& step == DrawStep::Done
            &&& after.drawn(key, needed) is None
            &&& after.raw(key) == s.raw(key)
            &&& after.images[key].bytes == s.raw(key)->0.len()
            &&& after.total_bytes == s.total_bytes
            &&& after.accounted()
            &&& budget < s.raw(key)->0.len() && after.evicts_to(budget, evicted)
                ==> !evicted.images.contains_key(key)
        }),
{
    let after = s.draw_sized(key, display_side, needed, None).0;
    let raw = s.raw(key)->0;
    lemma_removed(s, key);
    lemma_charged_insert(
        s.removed(key).images,
        key,
        EntryView { image: ImageView::Raw(raw), bytes: raw.len(), last_used: s.tick + 1 },
    );
    if after.evicts_to(budget, evicted) && evicted.images.contains_key(key) {
        assert(evicted.images.dom().contains(key) && after.images.dom().contains(key));
        assert(evicted.images.dom().subset_of(after.images.dom()));
        vstd::set_lib::lemma_set_subset_finite(after.images.dom(), evicted.images.dom());
        lemma_charged_remove(evicted.images, key);
    }
}

/// Unclassified bytes that reading turns into a texture are gone: the image is
/// charged with the texture instead, the store counts the difference, and the
/// image is the one used last. Reading it again decodes nothing.
pub proof fn law_texture_is_charged_for_the_bytes<I, D>(
    s: StoreView<I, D>,
    key: ImageKey,
    texture: Texture<I>,
)
    requires
        s.wf(),
        s.accounted(),
        s.unused_now(key),
        s.raw(key) is Some,
        s.total_bytes - s.raw(key)->0.len() + texture.size.rgba_cost() <= usize::MAX,
    ensures
        ({
            let after = s.fetch_decoded(key, Some(texture));
            &&& after.fetched(key) == Some(texture)
            &&& after.encoded(key) is None
            &&& after.images[key].bytes == texture.size.rgba_cost()
            &&& after.total_bytes == s.total_bytes - s.raw(key)->0.len()
                + texture.size.rgba_cost()
            &&& after.accounted()
            &&& forall|other: ImageKey| #[trigger]
                after.images.contains_key(other) && other != key ==> after.images[other].last_used
                    < after.images[key].last_used
            &&& after.fetch(key).1 == FetchStep::Done
            &&& after.fetch(key).0.fetched(key) == Some(texture)
        }),
{
    let charged_texture = s.with_texture(key, texture);
    let entry = EntryView {
        image: ImageView::Gpu(texture),
        bytes: texture.size.rgba_cost(),
        ..s.images[key]
    };
    assert(charged_texture.images =~= s.images.insert(key, entry));
    lemma_charged_insert(s.images, key, entry);
    lemma_charged_remove(s.images, key);
    lemma_with_texture(s, key, texture);
    lemma_marked(charged_texture, key);
}

/// Where a store has room for a texture, it fits as a tier of any image, and
/// what the entries are charged with afterwards can be counted.
pub proof fn law_room_for_a_texture<I, D>(
    s: StoreView<I, D>,
    key: ImageKey,
    side: int,
    decoded: Option<Texture<I>>,
)
    requires
        s.wf(),
        s.accounted(),
        s.total_bytes + texture_cost(decoded) <= usize::MAX,
    ensures
        s.display_fits(key, side, decoded),
        s.full_fits(key, decoded),
        s.fetch_fits(key, decoded),
        charged(s.display_installed(key, side, decoded).images) <= usize::MAX,
        charged(s.full_installed(key, decoded).images) <= usize::MAX,
        charged(s.fetch_decoded(key, decoded).images) <= usize::MAX,
{
    if s.raster(key) is Some && decoded is Some {
        let r = s.raster(key)->0;
        lemma_charged_remove(s.images, key);
        let shown = r.with_display(side, decoded->0);
        let full = RasterView { full: decoded, ..r };
        if s.display_wanted(key, side) is Some {
            lemma_charged_raster(s, key, shown);
        }
        if r.full is None {
            lemma_charged_raster(s, key, full);
            let filled = s.with_raster(key, full);
            lemma_charged_insert(
                filled.images,
                key,
                EntryView { last_used: filled.tick, ..filled.images[key] },
            );
        }
    } else if s.raw(key) is Some && decoded is Some {
        let image = ImageView::Gpu(decoded->0);
        let entry = EntryView { image, bytes: texture_cost(decoded), last_used: s.tick };
        assert(s.fetch_decoded(key, decoded).images =~= s.images.insert(key, entry));
        lemma_charged_insert(s.images, key, entry);
    }
}

/// What the entries are charged with when another raster is at `key`.
proof fn lemma_charged_raster<I, D>(s: StoreView<I, D>, key: ImageKey, raster: RasterView<I>)
    requires
        s.images.dom().finite(),
        s.images.contains_key(key),
    ensures
        charged(s.with_raster(key, raster).images) + s.images[key].bytes == charged(s.images)
            + raster.cost(),
        s.with_raster(key, raster).images.dom().finite(),
        s.with_raster(key, raster).images.contains_key(key),
{
    let entry = EntryView {
        image: ImageView::Raster(raster),
        bytes: raster.cost(),
        ..s.images[key]
    };
    assert(s.with_raster(key, raster).images =~= s.images.insert(key, entry));
    lemma_charged_insert(s.images, key, entry);
}

/// An evicted image is missing, and adding it starts from the beginning.
pub proof fn law_evicted_image_is_added_anew<I, D>(
    s: StoreView<I, D>,
    budget: nat,
    after: StoreView<I, D>,
    key: ImageKey,
    display_side: Option<i32>,
)
    requires
        s.evicts_to(budget, after),
        s.evicted(after, key),
    ensures
        !after.images.contains_key(key),
        after.add(key, display_side) == (after, AddStep::ParseSvg),
{
}

/// Fewer entries are charged with no more.
pub(crate) proof fn lemma_charged_submap<I, D>(
    part: Map<ImageKey, EntryView<I, D>>,
    whole: Map<ImageKey, EntryView<I, D>>,
)
    requires
        part.submap_of(whole),
        whole.dom().finite(),
    ensures
        charged(part) <= charged(whole),
    decreases whole.dom().len(),
{
    if exists|key: ImageKey| whole.contains_key(key) && !part.contains_key(key) {
        let key = choose|key: ImageKey| whole.contains_key(key) && !part.contains_key(key);
        lemma_charged_remove(whole, key);
        lemma_charged_submap(part, whole.remove(key));
    } else {
        assert(part =~= whole);
    }
}

/// Among finitely many entries one was used last.
pub(crate) proof fn lemma_used_last<I, D>(
    images: Map<ImageKey, EntryView<I, D>>,
    keys: Set<ImageKey>,
) -> (last: ImageKey)
    requires
        keys.finite(),
        keys.len() > 0,
    ensures
        keys.contains(last),
        forall|key: ImageKey| #[trigger]
            keys.contains(key) ==> images[key].last_used <= images[last].last_used,
    decreases keys.len(),
{
    let first = keys.choose();
    let rest = keys.remove(first);
    if rest.len() == 0 {
        assert forall|key: ImageKey| #[trigger]
            keys.contains(key) implies images[key].last_used <= images[first].last_used by {
            if key != first {
                assert(rest.contains(key));
            }
        }
        first
    } else {
        let last = lemma_used_last(images, rest);
        if images[first].last_used > images[last].last_used {
            assert forall|key: ImageKey| #[trigger]
                keys.contains(key) implies images[key].last_used <= images[first].last_used by {
                if key != first {
                    assert(rest.contains(key));
                }
            }
            first
        } else {
            assert forall|key: ImageKey| #[trigger]
                keys.contains(key) implies images[key].last_used <= images[last].last_used by {
                if key != first {
                    assert(rest.contains(key));
                }
            }
            last
        }
    }
}

/// Of two outcomes of one eviction the second keeps nothing that the first
/// does not keep.
proof fn lemma_eviction_keeps<I, D>(
    s: StoreView<I, D>,
    budget: nat,
    a: StoreView<I, D>,
    b: StoreView<I, D>,
    key: ImageKey,
)
    requires
        s.wf(),
        s.evicts_to(budget, a),
        s.evicts_to(budget, b),
        b.images.contains_key(key),
    ensures
        a.images.contains_key(key),
{
    assert(s.images.contains_key(key));
    if !a.images.contains_key(key) {
        let gone = s.images.dom().difference(a.images.dom());
        assert(gone.contains(key));
        let last = lemma_used_last(s.images, gone);
        assert(s.evicted(a, last));
        assert forall|k: ImageKey| #[trigger] s.evicted(a, k) implies s.images[k].last_used
            <= s.images[last].last_used by {
            assert(gone.contains(k));
        }
        assert(a.total_bytes + s.images[last].bytes > budget);
        assert(b.images.contains_key(last)) by {
            assert(s.images.contains_key(last));
        }
        assert(a.images.submap_of(b.images.remove(last))) by {
            assert forall|k: ImageKey| #[trigger] a.images.dom().contains(k) implies {
                &&& b.images.remove(last).dom().contains(k)
                &&& a.images[k] == b.images.remove(last)[k]
            } by {
                assert(a.images.contains_key(k));
                assert(s.images.contains_key(k));
                assert(b.images.contains_key(k));
                assert(b.images.dom().contains(k));
            }
        }
        assert(b.images.dom().subset_of(s.images.dom()));
        vstd::set_lib::lemma_set_subset_finite(s.images.dom(), b.images.dom());
        lemma_charged_remove(b.images, last);
        lemma_charged_submap(a.images, b.images.remove(last));
        assert(false);
    }
}

/// What is left after an eviction is determined by the store and the budget.
pub proof fn law_eviction_is_determined<I, D>(
    s: StoreView<I, D>,
    budget: nat,
    a: StoreView<I, D>,
    b: StoreView<I, D>,
)
    requires
        s.wf(),
        s.evicts_to(budget, a),
        s.evicts_to(budget, b),
    ensures
        a == b,
{
    assert forall|key: ImageKey| a.images.contains_key(key) == b.images.contains_key(key) by {
        if a.images.contains_key(key) {
            lemma_eviction_keeps(s, budget, b, a, key);
        }
        if b.images.contains_key(key) {
            lemma_eviction_keeps(s, budget, a, b, key);
        }
    }
    assert forall|key: ImageKey| #[trigger] a.images.dom().contains(key) implies a.images[key]
        == b.images[key] by {
        assert(a.images.contains_key(key) && b.images.dom().contains(key));
        assert(s.images.dom().contains(key));
    }
    assert(a.images.dom() =~= b.images.dom());
    assert(a.images =~= b.images);
}

/// A store within its budget has nothing to evict; in particular, evicting to
/// the same or a larger budget once more changes nothing.
pub proof fn law_eviction_stops_at_the_budget<I, D>(
    s: StoreView<I, D>,
    budget: nat,
    after: StoreView<I, D>,
    again: StoreView<I, D>,
    larger_budget: nat,
)
    requires
        s.wf(),
        s.evicts_to(budget, after),
        budget <= larger_budget,
        after.evicts_to(larger_budget, again),
    ensures
        again == after,
{
    assert forall|key: ImageKey| after.images.contains_key(key) implies again.images.contains_key(
        key,
    ) by {
        if !again.images.contains_key(key) {
            assert(after.images.dom().subset_of(s.images.dom()));
            vstd::set_lib::lemma_set_subset_finite(s.images.dom(), after.images.dom());
            let gone = after.images.dom().difference(again.images.dom());
            assert(gone.contains(key));
            let last = lemma_used_last(after.images, gone);
            assert(after.evicted(again, last));
            assert forall|k: ImageKey| #[trigger]
                after.evicted(again, k) implies after.images[k].last_used
                <= after.images[last].last_used by {
                assert(gone.contains(k));
            }
            lemma_charged_remove(after.images, last);
            lemma_charged_submap(again.images, after.images.remove(last));
            assert(false);
        }
    }
    assert(again.images =~= after.images);
}

/// The image that was used last is evicted only along with all others.
pub proof fn law_last_used_image_is_evicted_last<I, D>(
    s: StoreView<I, D>,
    budget: nat,
    after: StoreView<I, D>,
    key: ImageKey,
)
    requires
        s.wf(),
        s.evicts_to(budget, after),
        s.evicted(after, key),
        forall|other: ImageKey| #[trigger]
            s.images.contains_key(other) ==> s.images[other].last_used
                <= s.images[key].last_used,
    ensures
        after.images.dom() == Set::<ImageKey>::empty(),
{
    assert forall|kept: ImageKey| !after.images.contains_key(kept) by {
        if after.images.contains_key(kept) {
            assert(s.images.contains_key(kept));
        }
    }
    assert(after.images.dom() =~= Set::<ImageKey>::empty());
}

} // verus!
