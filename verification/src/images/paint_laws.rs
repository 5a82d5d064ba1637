//! What painting and looking up an image give, case by case.
use crate::images::entries::ImageKey;
use crate::images::entry::{DisplayPlan, EntryView, ImageView, RasterView, Texture};
use crate::images::model::{DrawStep, FetchStep, GetStep, StoreView};
use crate::images::size::ISize;
use crate::uuid::Uuid;
use vstd::prelude::*;

verus! {

/// An identifier is painted from its image whenever that is stored, in
/// whatever state, and from its thumbnail only where the image is not stored.
/// A lookup goes by the same rule.
pub proof fn law_image_is_preferred_to_its_thumbnail<I, D>(s: StoreView<I, D>, id: Uuid)
    ensures
        s.images.contains_key((id, false)) ==> s.draw_key(id) == Some((id, false)),
        !s.images.contains_key((id, false)) && s.images.contains_key((id, true)) ==> s.draw_key(id)
            == Some((id, true)),
        !s.images.contains_key((id, false)) && !s.images.contains_key((id, true)) ==> s.draw_key(
            id,
        ) is None,
        match s.get(id).1 {
            GetStep::Draw(key, _) => key == (id, false) && s.images.contains_key((id, false)),
            GetStep::Fetch(key, _) => key == (id, true) && !s.images.contains_key((id, false)),
        },
{
}

/// The display tier stays as it is when it has the side that is asked for or
/// that of the whole picture. Else, with a GPU, it grows: to the side asked for
/// where the picture is larger, and to the whole picture where it is not, from
/// the full tier if that is there. Without a GPU it can only take over the full
/// tier. A side under one pixel counts as one pixel.
pub proof fn law_display_tier_grows_as_far_as_needed<I>(r: RasterView<I>, gpu: bool, side: int)
    ensures
        side < 1 ==> r.display_plan(gpu, side) == r.display_plan(gpu, 1),
        (r.native.width >= 1 || r.native.height >= 1) && side >= 1 ==> {
            let (w, h) = (r.native.width, r.native.height);
            let enough = r.display_side >= side || (r.display_side >= w && r.display_side >= h);
            let whole = side >= w && side >= h;
            match r.display_plan(gpu, side) {
                DisplayPlan::Keep => enough || (!gpu && !(whole && r.full is Some)),
                DisplayPlan::Promote => !enough && whole && r.full is Some,
                DisplayPlan::Decode { max_side } => {
                    &&& !enough && gpu
                    &&& whole ==> max_side == 0 && r.full is None
                    &&& !whole ==> max_side == side
                },
            }
        },
        r.native.width < 1 && r.native.height < 1 ==> match r.display_plan(gpu, side) {
            DisplayPlan::Keep => r.display_side >= 1 || (!gpu && r.full is None),
            DisplayPlan::Promote => r.display_side < 1 && r.full is Some,
            DisplayPlan::Decode { max_side } => {
                r.display_side < 1 && r.full is None && gpu && max_side == 0
            },
        },
{
}

/// What a new display tier changes about a raster: the picture and its side,
/// and where it is the whole picture, there is no other tier left.
pub proof fn law_new_display_tier<I>(r: RasterView<I>, side: int, texture: Texture<I>)
    requires
        side >= 1,
    ensures
        ({
            let q = r.with_display(side, texture);
            let (w, h) = (r.native.width, r.native.height);
            &&& q.raw == r.raw && q.native == r.native && q.display == Some(texture)
            &&& (side < w || side < h) ==> q.display_side == side && q.full == r.full
            &&& (side >= w && side >= h) ==> {
                &&& q.display_side >= w && q.display_side >= h
                &&& q.display_side == w || q.display_side == h
                &&& q.full is None
            }
        }),
        ({
            let q = r.promoted();
            let (w, h) = (r.native.width, r.native.height);
            &&& q.raw == r.raw && q.native == r.native
            &&& q.display == r.full && q.full is None
            &&& q.display_side >= w && q.display_side >= h
            &&& q.display_side == w || q.display_side == h
        }),
{
}

/// The display tier of a stored image changes by the plan for its raster and by
/// nothing else: what is no raster has none. A side under one pixel counts as
/// one pixel here too.
pub proof fn law_display_tier_follows_the_plan<I, D>(
    s: StoreView<I, D>,
    key: ImageKey,
    side: int,
    needed: int,
    texture: Texture<I>,
)
    ensures
        !s.images.contains_key(key) || !(s.images[key].image is Raster) ==> {
            &&& s.display_wanted(key, side) is None
            &&& s.display_ensured(key, side) == s
            &&& s.display_installed(key, side, Some(texture)) == s
        },
        s.images.contains_key(key) ==> (s.images[key].image matches ImageView::Raster(r) ==> {
            let plan = r.display_plan(s.gpu, side);
            let ensured = s.display_ensured(key, side);
            let installed = s.display_installed(key, side, Some(texture));
            &&& s.display_wanted(key, side) == (match plan {
                DisplayPlan::Decode { max_side } => Some(max_side),
                _ => None,
            })
            &&& plan is Promote ==> ensured.images[key].image == ImageView::<I, D>::Raster(
                r.promoted(),
            )
            &&& !(plan is Promote) ==> ensured == s
            &&& plan is Decode ==> installed.images[key].image == ImageView::<I, D>::Raster(
                r.with_display(side, texture),
            )
            &&& !(plan is Decode) ==> installed == s
            &&& ensured.images[key].last_used == s.images[key].last_used && ensured.tick == s.tick
            &&& side > 0 && plan is Decode ==> s.draw(key, side, needed).0 == s
            &&& side > 0 && !(plan is Decode) ==> s.draw(key, side, needed) == ensured.draw_full(
                key,
                needed,
            )
            &&& side <= 0 ==> s.draw(key, side, needed) == s.draw_full(key, needed)
            &&& side < 1 ==> s.display_installed(key, side, Some(texture)) == s.display_installed(
                key,
                1,
                Some(texture),
            )
        }),
        s.display_installed(key, side, None) == s,
{
}

/// Only a vector document that waits for it is rasterized.
pub proof fn law_only_waiting_documents_are_rasterized<I, D>(
    s: StoreView<I, D>,
    key: ImageKey,
    raster: Option<Texture<I>>,
)
    ensures
        !s.images.contains_key(key) ==> s.rasterized(key, raster) == s,
        s.images.contains_key(key) ==> match s.images[key].image {
            ImageView::Svg { dom, raster: None } => {
                let after = s.rasterized(key, raster);
                &&& after.images[key].image == (ImageView::<I, D>::Svg { dom, raster })
                &&& after.images[key].bytes == s.images[key].bytes
                &&& after.images[key].last_used == s.tick
                &&& after.total_bytes == s.total_bytes && after.tick == s.tick
            },
            _ => s.rasterized(key, raster) == s,
        },
{
}

/// A raster is painted with its display tier where that has the pixels, else
/// with its full tier, and where there is none with the display tier after all.
pub proof fn law_tier_to_paint_with<I>(r: RasterView<I>, needed: int)
    ensures
        r.display is Some && r.display_side > 0 && needed <= r.display_side ==> r.tier_for(needed)
            == r.display,
        !(r.display is Some && r.display_side > 0 && needed <= r.display_side) && r.full is Some
            ==> r.tier_for(needed) == r.full,
        r.full is None ==> r.tier_for(needed) == r.display,
{
}

/// Once the display tier is as large as it has to be, painting a raster whose
/// display tier has the needed pixels drops the full tier and is done. Another
/// one is painted with its full tier, which is decoded first if it is not there
/// and a GPU is.
pub proof fn law_full_tier_comes_and_goes<I, D>(s: StoreView<I, D>, key: ImageKey, needed: int)
    requires
        s.images.contains_key(key),
        s.images[key].image is Raster,
    ensures
        ({
            let r = s.images[key].image->Raster_0;
            let enough = r.display is Some && r.display_side > 0 && needed <= r.display_side;
            let (after, step) = s.draw_full(key, needed);
            let q = after.images[key].image->Raster_0;
            &&& !enough && r.full is None && s.gpu ==> (after, step) == (s, DrawStep::Full)
            &&& enough || r.full is Some || !s.gpu ==> {
                &&& step == DrawStep::Done
                &&& after.images[key].image is Raster
                &&& q.raw == r.raw && q.native == r.native
                &&& q.display == r.display && q.display_side == r.display_side
                &&& q.full == (if enough {
                    None
                } else {
                    r.full
                })
                &&& after.drawn(key, needed) == (if !enough && r.full is Some {
                    r.full
                } else {
                    r.display
                })
                &&& after.tick == s.tick + 1
                &&& after.images[key].last_used == s.tick + 1
            }
        }),
{
}

/// Painting a raster starts with its display tier, if the shape has a size at
/// 100% zoom: it asks for a decode, or takes over the full tier, or leaves the
/// display tier alone; and only then goes on to the full tier.
pub proof fn law_painting_grows_the_display_tier_first<I, D>(
    s: StoreView<I, D>,
    key: ImageKey,
    display_side: int,
    needed: int,
)
    requires
        s.images.contains_key(key),
        s.images[key].image is Raster,
        s.images[key].image->Raster_0.native.width >= 1
            || s.images[key].image->Raster_0.native.height >= 1,
    ensures
        ({
            let r = s.images[key].image->Raster_0;
            let (w, h) = (r.native.width, r.native.height);
            let too_small = display_side > 0 && r.display_side < display_side && (r.display_side < w
                || r.display_side < h);
            let whole = display_side >= w && display_side >= h;
            let (after, step) = s.draw(key, display_side, needed);
            let q = after.images[key].image->Raster_0;
            &&& too_small && s.gpu && !whole ==> {
                &&& after == s
                &&& step matches DrawStep::Display { max_side }
                &&& max_side == display_side
            }
            &&& too_small && s.gpu && whole && r.full is None ==> {
                &&& after == s
                &&& step == (DrawStep::Display { max_side: 0 })
            }
            &&& too_small && whole && r.full is Some ==> {
                &&& after.images[key].image is Raster
                &&& q.raw == r.raw && q.native == r.native
                &&& q.display == r.full && q.full is None
                &&& q.display_side == w || q.display_side == h
                &&& q.display_side >= w && q.display_side >= h
                &&& needed <= w || needed <= h || !s.gpu ==> step == DrawStep::Done && after.drawn(
                    key,
                    needed,
                ) == r.full
                &&& needed > w && needed > h && s.gpu ==> step == DrawStep::Full
            }
            &&& !too_small || (!s.gpu && !(whole && r.full is Some)) ==> (after, step)
                == s.draw_full(key, needed)
        }),
{
    let r = s.images[key].image->Raster_0;
    law_display_tier_grows_as_far_as_needed(r, s.gpu, display_side);
}

/// What was decoded for a display tier that had to grow becomes that tier, and
/// nothing else about the image changes but its full tier, which goes where
/// the display tier is the whole picture. A failed decode changes nothing, and
/// neither does one that was not asked for.
pub proof fn law_decoded_display_tier_is_installed<I, D>(
    s: StoreView<I, D>,
    key: ImageKey,
    side: int,
    texture: Texture<I>,
)
    requires
        side >= 1,
    ensures
        s.display_installed(key, side, None) == s,
        !s.images.contains_key(key) || !(s.images[key].image is Raster) || !s.gpu
            ==> s.display_installed(key, side, Some(texture)) == s,
        s.images.contains_key(key) ==> (s.images[key].image matches ImageView::Raster(r) ==> (
        r.native.width >= 1 || r.native.height >= 1) ==> {
            let (w, h) = (r.native.width, r.native.height);
            let after = s.display_installed(key, side, Some(texture));
            let too_small = r.display_side < side && (r.display_side < w || r.display_side < h);
            let whole = side >= w && side >= h;
            let q = after.images[key].image->Raster_0;
            &&& !too_small || (whole && r.full is Some) ==> after == s
            &&& too_small && s.gpu && !(whole && r.full is Some) ==> {
                &&& after.images[key].image is Raster
                &&& q.raw == r.raw && q.native == r.native && q.display == Some(texture)
                &&& !whole ==> q.display_side == side && q.full == r.full
                &&& whole ==> {
                    &&& q.full is None
                    &&& q.display_side >= w && q.display_side >= h
                    &&& q.display_side == w || q.display_side == h
                }
                &&& after.images[key].last_used == s.images[key].last_used
                &&& after.tick == s.tick
            }
        }),
{
}

/// What was decoded for a full tier that is not there becomes that tier, and
/// nothing else about the image changes. A failed decode changes nothing, and
/// neither does one that was not asked for.
pub proof fn law_decoded_full_tier_is_installed<I, D>(
    s: StoreView<I, D>,
    key: ImageKey,
    texture: Texture<I>,
)
    ensures
        s.full_installed(key, None) == s,
        !s.images.contains_key(key) || !(s.images[key].image is Raster) || !s.gpu
            ==> s.full_installed(key, Some(texture)) == s,
        s.images.contains_key(key) ==> (s.images[key].image matches ImageView::Raster(r) ==> {
            let after = s.full_installed(key, Some(texture));
            let q = after.images[key].image->Raster_0;
            &&& r.full is Some ==> after == s
            &&& r.full is None && s.gpu ==> {
                &&& after.images[key].image is Raster
                &&& q == RasterView { full: Some(texture), ..r }
                &&& after.images[key].last_used == s.images[key].last_used
                &&& after.tick == s.tick
            }
        }),
{
}

/// Painting something that is no raster: unclassified bytes have to be sized,
/// a texture is there, and a vector document is rasterized once, where there is
/// a GPU.
pub proof fn law_painting_what_is_no_raster<I, D>(
    s: StoreView<I, D>,
    key: ImageKey,
    display_side: int,
    needed: int,
    raster: Option<Texture<I>>,
)
    requires
        s.images.contains_key(key),
    ensures
        s.images[key].image is Raw ==> s.draw(key, display_side, needed) == (
            s,
            DrawStep::NativeSize,
        ),
        s.images[key].image matches ImageView::Gpu(texture) ==> {
            let (after, step) = s.draw(key, display_side, needed);
            &&& step == DrawStep::Done
            &&& after.drawn(key, needed) == Some(texture)
            &&& after.images[key].last_used == s.tick + 1
            &&& after.images[key].bytes == s.images[key].bytes
            &&& after.tick == s.tick + 1
        },
        s.images[key].image matches ImageView::Svg { dom, raster: made } ==> {
            let (after, step) = s.draw(key, display_side, needed);
            let end = after.rasterized(key, raster);
            &&& after.tick == s.tick + 1
            &&& after.images[key].image == s.images[key].image
            &&& step == (if made is None && s.gpu {
                DrawStep::Rasterize
            } else {
                DrawStep::Done
            })
            &&& after.drawn(key, needed) == made
            &&& made is Some ==> after.images[key].last_used == s.tick + 1 && end == after
            &&& made is None ==> {
                &&& after.images[key].last_used == s.images[key].last_used
                &&& end.images[key].image == (ImageView::Svg { dom, raster })
                &&& end.images[key].bytes == s.images[key].bytes
                &&& end.images[key].last_used == s.tick + 1
                &&& end.total_bytes == s.total_bytes
                &&& end.drawn(key, needed) == raster
            }
        },
{
}

/// Unclassified bytes that turn out to be a picture are painted as if they had
/// been stored as one, without a tier; those that do not stay what they are.
pub proof fn law_sized_bytes_are_painted_as_a_raster<I, D>(
    s: StoreView<I, D>,
    key: ImageKey,
    display_side: int,
    needed: int,
    native: ISize,
)
    requires
        s.images.contains_key(key),
        s.images[key].image is Raw,
    ensures
        ({
            let raw = s.images[key].image->Raw_0;
            let known = s.sized(key, Some(native));
            &&& known.images[key].image == ImageView::<I, D>::Raster(
                RasterView { raw, native, display: None, display_side: 0, full: None },
            )
            &&& known.images[key].bytes == raw.len()
            &&& known.images[key].last_used == s.tick + 1
            &&& known.tick == s.tick + 1
            &&& s.draw_sized(key, display_side, needed, Some(native)) == known.draw(
                key,
                display_side,
                needed,
            )
            &&& s.images[key].bytes <= s.total_bytes ==> known.total_bytes == s.total_bytes
                - s.images[key].bytes + raw.len()
        }),
        ({
            let (after, step) = s.draw_sized(key, display_side, needed, None);
            &&& step == DrawStep::Done
            &&& after.images[key].image == s.images[key].image
            &&& after.images[key].bytes == s.images[key].image->Raw_0.len()
            &&& after.images[key].last_used == s.tick + 1
            &&& after.drawn(key, needed) is None
            &&& s.images[key].bytes <= s.total_bytes ==> after.total_bytes == s.total_bytes
                - s.images[key].bytes + s.images[key].image->Raw_0.len()
        }),
{
}

/// What an image is painted with and read as, by what is stored: of a raster
/// that is read the full tier, if it is there.
pub proof fn law_textures_by_kind<I, D>(s: StoreView<I, D>, key: ImageKey, needed: int)
    ensures
        !s.images.contains_key(key) ==> s.drawn(key, needed) is None && s.fetched(key) is None,
        s.images.contains_key(key) ==> match s.images[key].image {
            ImageView::Raster(r) => {
                let enough = r.display is Some && r.display_side > 0 && needed <= r.display_side;
                &&& enough || r.full is None ==> s.drawn(key, needed) == r.display
                &&& !enough && r.full is Some ==> s.drawn(key, needed) == r.full
                &&& r.full is Some ==> s.fetched(key) == r.full
                &&& r.full is None ==> s.fetched(key) == r.display
            },
            ImageView::Gpu(texture) => {
                s.drawn(key, needed) == Some(texture) && s.fetched(key) == Some(texture)
            },
            ImageView::Svg { raster, .. } => {
                s.drawn(key, needed) == raster && s.fetched(key) == raster
            },
            ImageView::Raw(_) => s.drawn(key, needed) is None && s.fetched(key) is None,
        },
{
}

/// Reading an image at whatever resolution moves the clock. Where a texture is
/// there, the image is used now; where none is and a GPU is, one is asked for;
/// nothing else changes.
pub proof fn law_reading_asks_for_a_texture_where_none_is<I, D>(s: StoreView<I, D>, key: ImageKey)
    ensures
        ({
            let (after, step) = s.fetch(key);
            let there = s.images.contains_key(key) && match s.images[key].image {
                ImageView::Raster(r) => r.display is Some || r.full is Some,
                ImageView::Gpu(_) => true,
                ImageView::Svg { raster, .. } => raster is Some,
                ImageView::Raw(_) => false,
            };
            &&& after.tick == s.tick + 1
            &&& after.total_bytes == s.total_bytes
            &&& after.gpu == s.gpu
            &&& there ==> {
                &&& step == FetchStep::Done
                &&& after.images == s.images.insert(
                    key,
                    EntryView { last_used: s.tick + 1, ..s.images[key] },
                )
            }
            &&& !there ==> after.images == s.images
            &&& !there && (!s.images.contains_key(key) || !s.gpu) ==> step == FetchStep::Done
            &&& !there && s.images.contains_key(key) && s.gpu ==> step == (
            if s.images[key].image is Svg {
                FetchStep::Rasterize
            } else {
                FetchStep::Decode
            })
        }),
{
}

/// What was decoded because reading an image asked for it is what is read: the
/// full tier of a raster, or a texture in place of unclassified bytes. The image
/// is used now. A failed decode changes nothing.
pub proof fn law_read_texture_is_kept<I, D>(
    s: StoreView<I, D>,
    key: ImageKey,
    texture: Texture<I>,
)
    ensures
        s.fetch_decoded(key, None) == s,
        s.images.contains_key(key) ==> match s.images[key].image {
            ImageView::Raster(r) => {
                let after = s.fetch_decoded(key, Some(texture));
                &&& r.display is Some || r.full is Some ==> after == s
                &&& r.display is None && r.full is None ==> {
                    &&& after.images[key].image == ImageView::<I, D>::Raster(
                        RasterView { full: Some(texture), ..r },
                    )
                    &&& after.images[key].last_used == s.tick
                    &&& after.fetched(key) == Some(texture)
                }
            },
            ImageView::Raw(_) => {
                let after = s.fetch_decoded(key, Some(texture));
                &&& after.images[key].image == ImageView::<I, D>::Gpu(texture)
                &&& after.images[key].last_used == s.tick
                &&& after.fetched(key) == Some(texture)
            },
            _ => s.fetch_decoded(key, Some(texture)) == s,
        },
{
}

/// A lookup without a zoom reads the thumbnail of an image that is not stored,
/// and paints a stored one at native size: a raster whose full tier is not
/// there has it decoded where there is a GPU.
pub proof fn law_lookup_prefers_native_size<I, D>(s: StoreView<I, D>, id: Uuid)
    ensures
        !s.images.contains_key((id, false)) ==> {
            &&& s.get(id).0 == s.fetch((id, true)).0
            &&& s.get(id).1 == GetStep::Fetch((id, true), s.fetch((id, true)).1)
        },
        s.images.contains_key((id, false)) ==> match s.images[(id, false)].image {
            ImageView::Raster(r) => {
                let (after, get) = s.get(id);
                &&& r.display_side < i32::MAX && r.full is None && s.gpu ==> after == s && get
                    == GetStep::Draw((id, false), DrawStep::Full)
                &&& r.display_side < i32::MAX && (r.full is Some || !s.gpu) ==> {
                    &&& get == GetStep::Draw((id, false), DrawStep::Done)
                    &&& after.images[(id, false)].image == s.images[(id, false)].image
                    &&& after.drawn((id, false), i32::MAX as int) == (if r.full is Some {
                        r.full
                    } else {
                        r.display
                    })
                }
            },
            ImageView::Raw(_) => s.get(id) == (
                s,
                GetStep::Draw((id, false), DrawStep::NativeSize),
            ),
            ImageView::Gpu(_) => s.get(id).1 == GetStep::Draw((id, false), DrawStep::Done),
            ImageView::Svg { raster, .. } => s.get(id).1 == GetStep::Draw(
                (id, false),
                if raster is None && s.gpu {
                    DrawStep::Rasterize
                } else {
                    DrawStep::Done
                },
            ),
        },
{
}

/// Whatever new textures an image gets, the store counts the difference: what
/// it counts beside that image stays the same.
pub proof fn law_count_moves_with_the_image<I, D>(
    s: StoreView<I, D>,
    key: ImageKey,
    side: int,
    needed: int,
    decoded: Option<Texture<I>>,
)
    requires
        s.images.contains_key(key),
        s.images[key].bytes <= s.total_bytes <= usize::MAX,
    ensures
        counts_the_difference(s, s.display_ensured(key, side), key),
        counts_the_difference(s, s.display_installed(key, side, decoded), key),
        counts_the_difference(s, s.full_installed(key, decoded), key),
        counts_the_difference(s, s.full_dropped(key, needed), key),
        counts_the_difference(s, s.fetch_decoded(key, decoded), key),
        counts_the_difference(s, s.rasterized(key, decoded), key),
        counts_the_difference(s, s.touched(key), key),
{
}

/// What `after` counts beside `key` is what `before` counted beside it, unless
/// that cannot be counted.
pub open spec fn counts_the_difference<I, D>(
    before: StoreView<I, D>,
    after: StoreView<I, D>,
    key: ImageKey,
) -> bool {
    &&& after.images.contains_key(key)
    &&& before.total_bytes - before.images[key].bytes + after.images[key].bytes <= usize::MAX
        ==> after.total_bytes - after.images[key].bytes == before.total_bytes
        - before.images[key].bytes
}

/// Marking an image as used gives it the new time of the clock, and changes
/// nothing else.
pub proof fn law_use_moves_only_the_clock<I, D>(s: StoreView<I, D>, key: ImageKey)
    requires
        s.images.contains_key(key),
    ensures
        s.touched(key).images == s.images.insert(
            key,
            EntryView { last_used: s.tick + 1, ..s.images[key] },
        ),
        s.touched(key).tick == s.tick + 1,
        s.touched(key).total_bytes == s.total_bytes,
        s.touched(key).gpu == s.gpu,
{
}

} // verus!
