use render_wasm::images::entries::ImageKey;
use render_wasm::images::entry::{DisplayPlan, RasterStored, StoredImage, Texture};
use render_wasm::images::error::StoreError;
use render_wasm::images::model::{AddStep, CpuSource, CpuStep, DrawStep, FetchStep, GetStep};
use render_wasm::images::size::{fit_size, native_size, svg_size, target_side, ISize};
use render_wasm::images::store::ImageStore;
use render_wasm::uuid::Uuid;

/// Pictures are named after the side they were decoded to.
type Store = ImageStore<i32, &'static str>;

fn size(width: i32, height: i32) -> ISize {
    ISize { width, height }
}

fn square(side: i32) -> Option<Texture<i32>> {
    Some(Texture { image: side, size: size(side, side) })
}

/// Stores a square raster of side `native` with 10 encoded bytes.
fn add_raster(store: &mut Store, id: Uuid, thumbnail: bool, native: i32, display: Option<i32>) {
    let key = (id, thumbnail);
    let data = [0u8; 10];
    assert_eq!(store.add(id, thumbnail, display), AddStep::ParseSvg);
    assert_eq!(store.add_svg(key, &data, None), AddStep::NativeSize);
    let native = size(native, native);
    if let AddStep::Decode { eager_side } = store.add_sized(key, &data, display, Some(native)) {
        let target = target_side(native, eager_side, size(eager_side, eager_side));
        store.add_decoded(key, &data, native, target, square(target));
    }
    assert!(store.contains(&id, thumbnail));
}

/// Stores 10 bytes that nothing can read.
fn add_raw(store: &mut Store, id: Uuid, thumbnail: bool) {
    let key = (id, thumbnail);
    let data = [1u8; 10];
    assert_eq!(store.add(id, thumbnail, None), AddStep::ParseSvg);
    if store.add_svg(key, &data, None) == AddStep::NativeSize {
        assert_eq!(store.add_sized(key, &data, None, None), AddStep::Done);
    }
}

/// Paints `id`, whose pictures are squares of side `native`, and tells what
/// was asked for on the way.
fn paint(
    store: &mut Store,
    id: Uuid,
    display: i32,
    needed: i32,
    native: i32,
) -> (Option<i32>, Vec<DrawStep>) {
    let mut asked = vec![];
    let (key, mut step) = match store.get_for_draw(&id, display, needed) {
        Some(start) => start,
        None => return (None, asked),
    };
    loop {
        if step == DrawStep::Done {
            break;
        }
        asked.push(step);
        step = match step {
            DrawStep::Done => unreachable!(),
            DrawStep::NativeSize => {
                store.draw_native_size(key, display, needed, Some(size(native, native)))
            }
            DrawStep::Display { max_side } => {
                let side = if max_side == 0 { native } else { max_side };
                store.draw_display_decoded(key, display, needed, square(side))
            }
            DrawStep::Full => store.draw_full_decoded(key, square(native)),
            DrawStep::Rasterize => {
                store.rasterized(key, square(native));
                DrawStep::Done
            }
        };
    }
    (store.drawn(key, needed).map(|texture| texture.image), asked)
}

#[test]
fn sizes_have_a_longest_side_and_a_cost() {
    assert_eq!(size(3, 7).longest(), 7);
    assert_eq!(size(9, 7).longest(), 9);
    assert_eq!(size(10, 20).rgba_bytes(), 800);
    assert_eq!(size(-10, 20).rgba_bytes(), 0);
}

#[test]
fn orientation_swaps_width_and_height() {
    assert_eq!(native_size(size(30, 20), false), size(30, 20));
    assert_eq!(native_size(size(30, 20), true), size(20, 30));
}

#[test]
fn pictures_are_scaled_only_down() {
    let native = size(400, 200);
    assert_eq!(fit_size(native, 0, size(1, 1)), native);
    assert_eq!(fit_size(native, -1, size(1, 1)), native);
    assert_eq!(fit_size(native, 400, size(1, 1)), native);
    assert_eq!(fit_size(native, 100, size(100, 50)), size(100, 50));
    assert_eq!(fit_size(size(400, 1), 100, size(100, 0)), size(100, 1));
    assert_eq!(target_side(native, 100, size(100, 50)), 100);
    assert_eq!(target_side(native, 1000, size(1000, 500)), 400);
}

#[test]
fn svg_size_falls_back() {
    assert_eq!(svg_size(Some(1), Some(2), 3), 1);
    assert_eq!(svg_size(None, Some(2), 3), 2);
    assert_eq!(svg_size(None, None, 3), 3);
}

#[test]
fn raster_plans_its_display_tier() {
    let mut raster: RasterStored<i32> = RasterStored::encoded(vec![0; 5], size(100, 60));
    assert_eq!(raster.retained_bytes(), 5);
    assert_eq!(raster.display_plan(true, 40), DisplayPlan::Decode { max_side: 40 });
    assert_eq!(raster.display_plan(true, 100), DisplayPlan::Decode { max_side: 0 });
    assert_eq!(raster.display_plan(true, 4000), DisplayPlan::Decode { max_side: 0 });
    assert_eq!(raster.display_plan(false, 40), DisplayPlan::Keep);
    raster.set_display(40, square(40).unwrap());
    assert_eq!(raster.display_side, 40);
    assert_eq!(raster.retained_bytes(), 5 + 40 * 40 * 4);
    assert_eq!(raster.display_plan(true, 40), DisplayPlan::Keep);
    assert_eq!(raster.display_plan(true, -3), DisplayPlan::Keep);
    // A display tier that is too small does not count as one of native size.
    assert_eq!(raster.display_plan(true, 100), DisplayPlan::Decode { max_side: 0 });
    raster.full = square(100);
    assert_eq!(raster.display_plan(true, 100), DisplayPlan::Promote);
    assert_eq!(raster.retained_bytes(), 5 + 40 * 40 * 4 + 100 * 100 * 4);
    raster.promote_full();
    assert_eq!(raster.display_side, 100);
    assert_eq!(raster.display.as_ref().unwrap().image, 100);
    assert!(raster.full.is_none());
}

#[test]
fn raster_picks_a_tier() {
    let mut raster: RasterStored<i32> = RasterStored::encoded(vec![], size(100, 100));
    assert!(raster.tier(1).is_none());
    raster.full = square(100);
    assert_eq!(raster.tier(1).unwrap().image, 100);
    raster.set_display(40, square(40).unwrap());
    assert_eq!(raster.tier(40).unwrap().image, 40);
    assert_eq!(raster.tier(41).unwrap().image, 100);
    raster.full = None;
    assert_eq!(raster.tier(41).unwrap().image, 40);
}

#[test]
fn images_are_charged_for_what_they_hold() {
    let gpu: StoredImage<i32, ()> = StoredImage::Gpu(square(3).unwrap());
    assert_eq!(gpu.retained_bytes(7), 36);
    let svg: StoredImage<i32, ()> = StoredImage::Svg { dom: (), raster: square(3) };
    assert_eq!(svg.retained_bytes(7), 7);
    let raw: StoredImage<i32, ()> = StoredImage::Raw(vec![0; 4]);
    assert_eq!(raw.retained_bytes(7), 4);
}

#[test]
fn image_and_thumbnail_are_stored_apart() {
    let mut store = Store::new();
    add_raster(&mut store, 1, true, 32, None);
    assert!(store.contains(&1, true));
    assert!(!store.contains(&1, false));
    assert_eq!(store.encoded((1, true)).unwrap().len(), 10);
    assert!(store.encoded((1, false)).is_none());
}

#[test]
fn adding_decodes_the_display_tier_at_once() {
    let mut store = Store::new();
    add_raster(&mut store, 1, false, 1000, Some(100));
    let (painted, asked) = paint(&mut store, 1, 100, 50, 1000);
    assert_eq!(painted, Some(100));
    assert_eq!(asked, vec![]);
}

#[test]
fn adding_without_a_side_decodes_nothing() {
    let mut store = Store::new();
    let key: ImageKey = (1, false);
    let data = [0u8; 10];
    assert_eq!(store.add(1, false, None), AddStep::ParseSvg);
    assert_eq!(store.add_svg(key, &data, None), AddStep::NativeSize);
    let sized = store.add_sized(key, &data, Some(-4), Some(size(50, 50)));
    assert_eq!(sized, AddStep::Done);
    assert!(store.drawn(key, 1).is_none());
    // A thumbnail is decoded at its native size.
    let thumbnail: ImageKey = (1, true);
    assert_eq!(store.add_svg(thumbnail, &data, None), AddStep::NativeSize);
    assert_eq!(
        store.add_sized(thumbnail, &data, Some(4), Some(size(50, 60))),
        AddStep::Decode { eager_side: 60 }
    );
    store.add_decoded(thumbnail, &data, size(50, 60), 60, None);
    assert!(store.contains(&1, true));
    assert!(store.fetched(thumbnail).is_none());
}

#[test]
fn adding_again_only_grows_the_display_tier() {
    let mut store = Store::new();
    add_raster(&mut store, 1, false, 1000, Some(100));
    assert_eq!(store.add(1, false, None), AddStep::Done);
    assert_eq!(store.add(1, false, Some(0)), AddStep::Done);
    assert_eq!(store.add(1, false, Some(100)), AddStep::Done);
    assert_eq!(store.add(1, false, Some(300)), AddStep::Display { max_side: 300 });
    store.install_display((1, false), 300, square(300));
    assert_eq!(store.add(1, false, Some(300)), AddStep::Done);
    assert_eq!(store.drawn((1, false), 300).unwrap().image, 300);
    // A failed decode leaves what was there.
    assert_eq!(store.ensure_display_side((1, false), 500), Some(500));
    store.install_display((1, false), 500, None);
    assert_eq!(store.drawn((1, false), 500).unwrap().image, 300);
    assert_eq!(store.ensure_display_side((9, false), 500), None);
}

#[test]
fn deep_zoom_decodes_the_full_tier_and_zooming_out_drops_it() {
    let mut store = Store::new();
    add_raster(&mut store, 1, false, 1000, Some(100));
    assert_eq!(paint(&mut store, 1, 100, 800, 1000), (Some(1000), vec![DrawStep::Full]));
    assert_eq!(paint(&mut store, 1, 100, 800, 1000), (Some(1000), vec![]));
    assert_eq!(paint(&mut store, 1, 100, 100, 1000), (Some(100), vec![]));
    assert_eq!(store.fetched((1, false)).unwrap().image, 100);
    assert_eq!(paint(&mut store, 1, 100, 101, 1000), (Some(1000), vec![DrawStep::Full]));
}

#[test]
fn failed_full_decode_falls_back_to_display() {
    let mut store = Store::new();
    add_raster(&mut store, 1, false, 1000, Some(100));
    assert_eq!(store.get_for_draw(&1, 100, 800), Some(((1, false), DrawStep::Full)));
    assert_eq!(store.draw_full_decoded((1, false), None), DrawStep::Done);
    assert_eq!(store.drawn((1, false), 800).unwrap().image, 100);
}

#[test]
fn shape_that_grows_to_native_size_takes_over_the_full_tier() {
    let mut store = Store::new();
    add_raster(&mut store, 1, false, 1000, Some(100));
    assert_eq!(paint(&mut store, 1, 100, 800, 1000).0, Some(1000));
    assert_eq!(paint(&mut store, 1, 2000, 50, 1000), (Some(1000), vec![]));
    assert_eq!(store.fetched((1, false)).unwrap().image, 1000);
    // The same without a full tier.
    add_raster(&mut store, 2, false, 1000, Some(100));
    assert_eq!(
        paint(&mut store, 2, 2000, 50, 1000),
        (Some(1000), vec![DrawStep::Display { max_side: 0 }])
    );
}

#[test]
fn painting_sizes_raw_bytes_first() {
    let mut store = Store::new();
    add_raw(&mut store, 1, false);
    assert_eq!(
        paint(&mut store, 1, 40, 30, 200),
        (Some(40), vec![DrawStep::NativeSize, DrawStep::Display { max_side: 40 }])
    );
    assert_eq!(store.encoded((1, false)).unwrap(), &vec![1u8; 10]);
}

#[test]
fn unreadable_bytes_are_kept_and_stay_charged() {
    let mut store = Store::new();
    add_raw(&mut store, 1, false);
    let start = store.get_for_draw(&1, 40, 30);
    assert_eq!(start, Some(((1, false), DrawStep::NativeSize)));
    assert_eq!(store.draw_native_size((1, false), 40, 30, None), DrawStep::Done);
    assert!(store.drawn((1, false), 30).is_none());
    assert_eq!(store.encoded((1, false)).unwrap().len(), 10);
    // They count as before, however often they are painted.
    assert_eq!(store.draw_native_size((1, false), 40, 30, None), DrawStep::Done);
    assert!(!store.has_room(usize::MAX - 9, &None));
    assert!(store.has_room(usize::MAX - 10, &None));
    assert_eq!(store.evict_to_budget(10), 0);
    assert_eq!(store.evict_to_budget(9), 1);
    assert!(!store.contains(&1, false));
    assert!(store.has_room(usize::MAX, &None));
}

#[test]
fn missing_image_is_not_painted() {
    let mut store = Store::new();
    assert_eq!(store.get_for_draw(&1, 40, 30), None);
    assert!(store.drawn((1, false), 30).is_none());
    assert_eq!(store.draw_full_decoded((1, false), square(5)), DrawStep::Done);
    assert!(!store.contains(&1, false));
}

#[test]
fn thumbnail_stands_in_for_a_missing_image() {
    let mut store = Store::new();
    add_raster(&mut store, 1, true, 32, None);
    let start = store.get_for_draw(&1, 0, 16);
    assert_eq!(start, Some(((1, true), DrawStep::Done)));
    assert_eq!(store.drawn((1, true), 16).unwrap().image, 32);
    add_raster(&mut store, 1, false, 1000, Some(100));
    let start = store.get_for_draw(&1, 0, 16);
    assert_eq!(start, Some(((1, false), DrawStep::Done)));
}

#[test]
fn vector_documents_are_rasterized_when_a_texture_is_needed() {
    let mut store = Store::new();
    assert_eq!(store.add_svg((1, false), b"<svg/>", Some("dom")), AddStep::Done);
    assert_eq!(store.get_svg(&1), Some(&"dom"));
    assert_eq!(store.document((1, false)), Some(&"dom"));
    assert_eq!(paint(&mut store, 1, 10, 10, 64), (Some(64), vec![DrawStep::Rasterize]));
    assert_eq!(paint(&mut store, 1, 10, 10, 64), (Some(64), vec![]));
    assert_eq!(store.get_svg(&2), None);
    add_raster(&mut store, 2, false, 10, Some(10));
    assert_eq!(store.get_svg(&2), None);
}

#[test]
fn lookup_without_zoom_wants_native_size() {
    let mut store = Store::new();
    add_raster(&mut store, 1, false, 1000, Some(100));
    assert_eq!(store.get(&1), GetStep::Draw((1, false), DrawStep::Full));
    assert_eq!(store.draw_full_decoded((1, false), square(1000)), DrawStep::Done);
    assert_eq!(store.drawn((1, false), i32::MAX).unwrap().image, 1000);

    add_raster(&mut store, 2, true, 32, None);
    assert_eq!(store.get(&2), GetStep::Fetch((2, true), FetchStep::Done));
    assert_eq!(store.fetched((2, true)).unwrap().image, 32);
    assert_eq!(store.get(&3), GetStep::Fetch((3, true), FetchStep::Done));
    assert!(store.fetched((3, true)).is_none());
}

#[test]
fn lookup_makes_a_texture_of_raw_bytes() {
    let mut store = Store::new();
    add_raw(&mut store, 1, true);
    assert_eq!(store.get(&1), GetStep::Fetch((1, true), FetchStep::Decode));
    store.fetch_decoded((1, true), None);
    assert!(store.fetched((1, true)).is_none());
    assert_eq!(store.get(&1), GetStep::Fetch((1, true), FetchStep::Decode));
    store.fetch_decoded((1, true), square(8));
    assert_eq!(store.fetched((1, true)).unwrap().image, 8);
    assert!(store.encoded((1, true)).is_none());
    assert_eq!(store.get(&1), GetStep::Fetch((1, true), FetchStep::Done));
    // The 10 encoded bytes are gone: it is charged with the texture.
    assert_eq!(store.evict_to_budget(8 * 8 * 4), 0);
    assert_eq!(store.evict_to_budget(8 * 8 * 4 - 1), 1);
    assert!(store.has_room(usize::MAX, &None));
}

#[test]
fn lookup_decodes_a_raster_without_tiers() {
    let mut store = Store::new();
    let data = [0u8; 10];
    store.add_sized((1, true), &data, None, Some(size(20, 20)));
    store.add_decoded((1, true), &data, size(20, 20), 20, None);
    assert_eq!(store.get(&1), GetStep::Fetch((1, true), FetchStep::Decode));
    store.fetch_decoded((1, true), square(20));
    assert_eq!(store.fetched((1, true)).unwrap().image, 20);
    assert_eq!(store.evict_to_budget(10 + 20 * 20 * 4), 0);
    assert_eq!(store.evict_to_budget(9 + 20 * 20 * 4), 1);
}

#[test]
fn lookup_rasterizes_a_vector_thumbnail() {
    let mut store = Store::new();
    store.add_svg((1, true), b"<svg/>", Some("dom"));
    assert_eq!(store.get(&1), GetStep::Fetch((1, true), FetchStep::Rasterize));
    store.rasterized((1, true), None);
    assert!(store.fetched((1, true)).is_none());
    assert_eq!(store.get(&1), GetStep::Fetch((1, true), FetchStep::Rasterize));
    store.rasterized((1, true), square(9));
    assert_eq!(store.fetched((1, true)).unwrap().image, 9);
}

#[test]
fn without_a_gpu_bytes_are_kept() {
    let mut store = Store::new_without_gpu();
    add_raw(&mut store, 1, false);
    store.add_svg((2, false), b"<svg/>", Some("dom"));
    assert_eq!(store.get_svg(&2), Some(&"dom"));
    assert_eq!(store.get_for_draw(&2, 10, 10), Some(((2, false), DrawStep::Done)));
    assert!(store.drawn((2, false), 10).is_none());
    // Sizing the bytes is all that painting asks for.
    assert_eq!(paint(&mut store, 1, 10, 10, 40), (None, vec![DrawStep::NativeSize]));
    assert_eq!(store.ensure_display_side((1, false), 10), None);
    assert_eq!(store.get(&2), GetStep::Draw((2, false), DrawStep::Done));
}

#[test]
fn cpu_images_come_from_the_bytes_where_there_is_no_gpu() {
    let mut store = Store::new_without_gpu();
    assert_eq!(store.get_cpu_image(&1), CpuStep::Nothing);
    add_raw(&mut store, 1, true);
    assert_eq!(store.get_cpu_image(&1), CpuStep::Decode((1, true)));
    assert_eq!(store.cpu_decode_failed((1, true)), CpuStep::Nothing);
    add_raw(&mut store, 1, false);
    assert_eq!(store.get_cpu_image(&1), CpuStep::Decode((1, false)));
    assert_eq!(store.cpu_decode_failed((1, false)), CpuStep::Decode((1, true)));
    assert_eq!(store.cpu_decode_failed((2, false)), CpuStep::Nothing);
}

#[test]
fn cpu_images_are_copied_back_from_a_gpu() {
    let mut store = Store::new();
    add_raster(&mut store, 1, false, 50, Some(50));
    assert_eq!(
        store.get_cpu_image(&1),
        CpuStep::CopyBack(GetStep::Draw((1, false), DrawStep::Full))
    );
    assert_eq!(
        store.get_cpu_image(&2),
        CpuStep::CopyBack(GetStep::Fetch((2, true), FetchStep::Done))
    );
}

#[test]
fn textures_are_stored_once() {
    let mut store = Store::new();
    assert_eq!(store.add_image_from_gl_texture(1, false), Ok(true));
    assert_eq!(store.add_texture((1, false), 4, 5, None), Err(StoreError::TextureImport));
    assert!(!store.contains(&1, false));
    assert_eq!(store.add_texture((1, false), 4, 5, square(5)), Ok(()));
    assert_eq!(store.add_image_from_gl_texture(1, false), Ok(false));
    assert_eq!(paint(&mut store, 1, 10, 10, 5), (Some(5), vec![]));
    assert_eq!(store.evict_to_budget(80), 0);
    assert_eq!(store.evict_to_budget(79), 1);
}

#[test]
fn textures_need_a_gpu() {
    let store = Store::new_without_gpu();
    assert_eq!(store.add_image_from_gl_texture(1, false), Err(StoreError::NoGpuContext));
    assert_eq!(
        StoreError::NoGpuContext.message(),
        "Cannot register a GL texture without a GPU context"
    );
    assert_eq!(
        StoreError::TextureImport.message(),
        "Failed to create Skia image from GL texture"
    );
}

#[test]
fn eviction_starts_with_what_was_used_longest_ago() {
    let mut store = Store::new();
    // The thumbnail is the oldest of all.
    add_raw(&mut store, 9, true);
    for id in 0..8 {
        add_raw(&mut store, id, false);
    }
    assert_eq!(store.evict_to_budget(90), 0);
    assert_eq!(store.evict_to_budget(89), 1);
    assert!(!store.contains(&9, true));
    for id in 0..8 {
        assert!(store.contains(&id, false));
    }
    // Looking for vector documents is a use.
    for id in [3, 0, 5] {
        store.get_svg(&id);
    }
    assert_eq!(store.evict_to_budget(35), 5);
    let left: Vec<Uuid> = (0..8).filter(|id| store.contains(id, false)).collect();
    assert_eq!(left, vec![0, 3, 5]);
    assert_eq!(store.evict_to_budget(10), 2);
    assert!(store.contains(&5, false));
    assert_eq!(store.evict_to_budget(0), 1);
    assert!(!store.contains(&5, false));
}

#[test]
fn eviction_within_the_budget_changes_nothing() {
    let mut store = Store::new();
    add_raster(&mut store, 1, false, 10, Some(10));
    assert_eq!(store.evict_to_budget(410), 0);
    assert_eq!(store.evict_to_budget(410), 0);
    assert!(store.contains(&1, false));
    assert_eq!(store.evict_to_budget(409), 1);
    assert_eq!(store.evict_to_budget(0), 0);
}

#[test]
fn evicted_image_is_added_anew() {
    let mut store = Store::new();
    add_raster(&mut store, 1, false, 10, Some(10));
    assert_eq!(store.evict_to_budget(0), 1);
    assert_eq!(store.get_for_draw(&1, 10, 10), None);
    add_raster(&mut store, 1, false, 10, Some(10));
    assert_eq!(paint(&mut store, 1, 10, 10, 10).0, Some(10));
}

#[test]
fn painting_one_image_leaves_the_others() {
    let mut store = Store::new();
    add_raster(&mut store, 1, false, 1000, Some(100));
    add_raster(&mut store, 2, false, 1000, Some(100));
    paint(&mut store, 1, 100, 1000, 1000);
    assert_eq!(store.fetched((1, false)).unwrap().image, 1000);
    assert_eq!(store.fetched((2, false)).unwrap().image, 100);
    // The first was painted last: the second goes first.
    assert_eq!(store.evict_to_budget(10 + 100 * 100 * 4 + 1000 * 1000 * 4), 1);
    assert!(store.contains(&1, false));
    assert!(!store.contains(&2, false));
}

#[test]
fn room_is_counted() {
    let mut store = Store::new();
    assert!(store.has_time());
    assert!(store.has_room(usize::MAX, &None));
    assert!(!store.has_room(usize::MAX, &square(1)));
    assert!(!store.has_room(usize::MAX - 15, &square(2)));
    assert!(store.has_room(usize::MAX - 16, &square(2)));
    assert!(store.has_room(usize::MAX, &square(-2)));
    add_raster(&mut store, 1, false, 10, Some(10));
    assert!(store.has_room(usize::MAX - 410, &None));
    assert!(!store.has_room(usize::MAX - 409, &None));
    assert_eq!(size(i32::MAX, 2).wide_rgba_bytes(), 17179869176);
}

#[test]
fn added_bytes_are_kept_while_painting() {
    let mut store = Store::new();
    add_raster(&mut store, 1, false, 1000, Some(100));
    paint(&mut store, 1, 100, 900, 1000);
    paint(&mut store, 1, 300, 50, 1000);
    assert_eq!(store.encoded((1, false)).unwrap(), &vec![0u8; 10]);
    assert_eq!(store.add(1, false, None), AddStep::Done);
    assert_eq!(store.encoded((1, false)).unwrap(), &vec![0u8; 10]);
}

#[test]
fn cpu_images_are_made_from_what_is_stored() {
    let mut store = Store::new_without_gpu();
    add_raw(&mut store, 1, false);
    store.add_svg((2, false), b"<svg/>", Some("dom"));
    assert!(matches!(store.cpu_source((1, false)), CpuSource::Encoded(raw) if raw.len() == 10));
    assert!(matches!(store.cpu_source((2, false)), CpuSource::Document(dom) if *dom == "dom"));
    assert!(matches!(store.cpu_source((3, false)), CpuSource::Nothing));
    let mut store = Store::new();
    add_raster(&mut store, 1, false, 100, Some(10));
    assert_eq!(store.add_texture((2, false), 5, 5, square(5)), Ok(()));
    assert!(matches!(store.cpu_source((1, false)), CpuSource::Encoded(_)));
    assert!(matches!(store.cpu_source((2, false)), CpuSource::Resident(t) if t.image == 5));
}

/// `native`, scaled so that its longer side is `side`, in whole pixels.
fn scaled(native: ISize, side: i32) -> ISize {
    let nearest = |a: i32| {
        let den = native.longest() as i64;
        ((2 * a as i64 * side as i64 + den) / (2 * den)) as i32
    };
    size(nearest(native.width), nearest(native.height))
}

#[test]
fn fitted_pictures_keep_their_proportions() {
    for native in [size(400, 200), size(1, 4000), size(333, 334), size(7, 3)] {
        for side in [1, 2, 5, 100, 333, 5000] {
            let fitted = fit_size(native, side, scaled(native, side));
            assert_eq!(fitted.longest(), side.min(native.longest()));
            assert!(1 <= fitted.width && fitted.width <= native.width);
            assert!(1 <= fitted.height && fitted.height <= native.height);
        }
    }
    assert_eq!(fit_size(size(333, 334), 100, scaled(size(333, 334), 100)), size(100, 100));
    assert_eq!(fit_size(size(1, 4000), 100, scaled(size(1, 4000), 100)), size(1, 100));
}

#[test]
fn tiers_have_the_side_they_are_recorded_with() {
    let mut store = Store::new();
    add_raster(&mut store, 1, false, 1000, Some(100));
    for (display, needed) in [(100, 50), (100, 800), (300, 200), (300, 301), (5000, 10)] {
        let (_, _) = paint(&mut store, 1, display, needed, 1000);
        let texture = store.drawn((1, false), needed).unwrap();
        assert!(texture.size.longest() >= needed.min(1000));
    }
    assert_eq!(store.fetched((1, false)).unwrap().size, size(1000, 1000));
}
