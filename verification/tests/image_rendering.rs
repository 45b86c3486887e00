use std::collections::{BTreeMap, BTreeSet};

use bevy_react_core::image_rendering::pyramid::{
    check, level_count, pyramid_error_reason, pyramid_plan, ImageDesc, PixelFormat,
    PyramidError,
};
use bevy_react_core::image_rendering::variants::{
    BindOutcome, ImageVariants, ReloadStep, VariantKey,
};
use bevy_react_core::image_rendering::{
    mode_name, plan, refusal_warning, sampler_for, satisfies, FilterMode, ImageRendering,
    PlanRefusal, SamplerModel, SourceImage, VariantSampler, WARN_KIND,
};

const PLACEHOLDER: u64 = 0;

fn linear_default() -> SamplerModel {
    SamplerModel {
        mag: FilterMode::Linear,
        min: FilterMode::Linear,
        mipmap: FilterMode::Linear,
        lod_max_is_zero: false,
        lod_max_whole: Some(32),
    }
}

fn nearest_default() -> SamplerModel {
    SamplerModel {
        mag: FilterMode::Nearest,
        min: FilterMode::Nearest,
        mipmap: FilterMode::Nearest,
        lod_max_is_zero: false,
        lod_max_whole: Some(32),
    }
}

/// A 4×4 opaque sRGB image.
fn source_image() -> SourceImage {
    SourceImage {
        desc: ImageDesc {
            format: PixelFormat::Rgba8UnormSrgb,
            is_2d: true,
            layers: 1,
            mip_level_count: 1,
            width: 4,
            height: 4,
            data_len: Some(64),
        },
        sampler: None,
        render_attachment: false,
    }
}

fn mipped_image() -> SourceImage {
    let mut img = source_image();
    img.desc.mip_level_count = level_count(4, 4);
    img.desc.data_len = Some(pyramid_plan(4, 4).1);
    img
}

struct Node {
    image: u64,
    mode: Option<ImageRendering>,
    live_element: bool,
}

/// A headless stand-in for the binder system: assets by id (`None` while
/// reserved), nodes, the cache, the frame's changed nodes, and the
/// in-flight pyramid builds.
struct World {
    variants: ImageVariants,
    assets: BTreeMap<u64, Option<SourceImage>>,
    samplers: BTreeMap<u64, VariantSampler>,
    nodes: BTreeMap<u64, Node>,
    changed: BTreeSet<u64>,
    released: Vec<u64>,
    default: SamplerModel,
    next_id: u64,
    warnings: Vec<(String, String)>,
    builds: Vec<VariantKey>,
}

impl World {
    fn new() -> Self {
        World {
            variants: ImageVariants::new(),
            assets: BTreeMap::new(),
            samplers: BTreeMap::new(),
            nodes: BTreeMap::new(),
            changed: BTreeSet::new(),
            released: Vec::new(),
            default: linear_default(),
            next_id: 100,
            warnings: Vec::new(),
            builds: Vec::new(),
        }
    }

    fn fresh(&mut self) -> u64 {
        self.next_id += 1;
        self.next_id
    }

    fn add_source(&mut self, img: SourceImage) -> u64 {
        let id = self.fresh();
        self.assets.insert(id, Some(img));
        id
    }

    fn reserve(&mut self) -> u64 {
        let id = self.fresh();
        self.assets.insert(id, None);
        id
    }

    fn spawn(&mut self, mode: Option<ImageRendering>, image: u64) -> u64 {
        let e = self.fresh();
        self.nodes.insert(e, Node { image, mode, live_element: false });
        self.changed.insert(e);
        e
    }

    fn set_image(&mut self, e: u64, image: u64) {
        self.nodes.get_mut(&e).unwrap().image = image;
        self.changed.insert(e);
    }

    fn set_mode(&mut self, e: u64, mode: Option<ImageRendering>) {
        let node = self.nodes.get_mut(&e).unwrap();
        if node.mode.is_some() && mode.is_none() {
            self.released.push(e);
        }
        node.mode = mode;
        self.changed.insert(e);
    }

    fn despawn(&mut self, e: u64) {
        self.nodes.remove(&e);
        self.released.push(e);
    }

    fn handle_of(&self, e: u64) -> u64 {
        self.nodes[&e].image
    }

    fn write(&mut self, e: u64, handle: u64, next: &mut BTreeSet<u64>) {
        if let Some(node) = self.nodes.get_mut(&e) {
            if node.image != handle {
                node.image = handle;
                next.insert(e);
            }
        }
    }

    fn update(&mut self) {
        let mut next = BTreeSet::new();
        for e in std::mem::take(&mut self.released) {
            if let Some((bound, Some(variant))) = self.variants.release(e) {
                if self.nodes.get(&e).map(|n| n.mode.is_none() && n.image == variant) == Some(true)
                {
                    self.write(e, bound.source, &mut next);
                }
            }
        }
        let mut work: BTreeSet<u64> = std::mem::take(&mut self.changed);
        work.extend(self.variants.pending_entities());
        for e in work {
            let Some((image, Some(mode), live)) =
                self.nodes.get(&e).map(|n| (n.image, n.mode, n.live_element))
            else {
                self.variants.forget_pending(e);
                continue;
            };
            let source = self.variants.source_for(image);
            let img = self.assets.get(&source).copied().flatten();
            let outcome = self.variants.bind(
                e,
                mode,
                image,
                image == PLACEHOLDER,
                img,
                live,
                self.default,
            );
            match outcome {
                BindOutcome::Placeholder | BindOutcome::Waiting => {}
                BindOutcome::Settled { expected } => self.write(e, expected, &mut next),
                BindOutcome::Bound { handle, refused } => {
                    if let Some(refusal) = refused {
                        let reason = match refusal {
                            PlanRefusal::Pyramid(err) => pyramid_error_reason(err, "Bgra8UnormSrgb"),
                            _ => String::new(),
                        };
                        self.warnings.push((
                            mode_name(mode).to_string(),
                            refusal_warning(refusal, mode, &reason),
                        ));
                    }
                    self.write(e, handle, &mut next);
                }
                BindOutcome::NeedVariant { key } => {
                    let trilinear = key.mode == ImageRendering::Trilinear;
                    let handle = if trilinear {
                        self.build(key);
                        self.reserve()
                    } else {
                        let id = self.add_source(img.unwrap());
                        self.samplers.insert(id, sampler_for(key.mode));
                        id
                    };
                    let target =
                        self.variants.attach_new(e, source, mode, key, handle, !trilinear, trilinear);
                    self.write(e, target, &mut next);
                }
            }
        }
        self.changed = next;
    }

    /// Let every in-flight pyramid build land.
    fn land_builds(&mut self) {
        let mut next = std::mem::take(&mut self.changed);
        for key in std::mem::take(&mut self.builds) {
            let loaded = matches!(self.assets.get(&key.source), Some(Some(_)));
            if let Some(landed) = self.variants.land(key, loaded) {
                let mut img = source_image();
                img.desc.mip_level_count = level_count(4, 4);
                self.assets.insert(landed.handle, Some(img));
                self.samplers.insert(landed.handle, sampler_for(key.mode));
                if landed.rebuild {
                    self.build(key);
                }
                if landed.first {
                    for e in self.variants.users_of(key) {
                        self.write(e, landed.handle, &mut next);
                    }
                }
            }
        }
        self.changed = next;
    }

    fn reload(&mut self, source: u64) -> Vec<ReloadStep> {
        let mut steps = Vec::new();
        for key in self.variants.variant_keys_of(source) {
            let step = self.variants.on_source_reloaded(key).expect("listed");
            if step == ReloadStep::SpawnPyramid {
                self.build(key);
            }
            steps.push(step);
        }
        steps
    }

    fn build(&mut self, key: VariantKey) {
        if !self.builds.contains(&key) {
            self.builds.push(key);
        }
    }

    fn variant_count(&self) -> usize {
        self.variants.variant_count()
    }
}

#[test]
fn two_modes_on_one_source_get_their_own_variants() {
    let mut app = World::new();
    let src = app.add_source(source_image());
    let tri = app.spawn(Some(ImageRendering::Trilinear), src);
    let near = app.spawn(Some(ImageRendering::Nearest), src);
    let auto = app.spawn(None, src);
    app.update();
    assert_eq!(app.handle_of(tri), src, "no interim upload: the source shows until the pyramid lands");
    app.land_builds();
    app.update();
    assert_ne!(app.handle_of(tri), src);

    let (h_tri, h_near) = (app.handle_of(tri), app.handle_of(near));
    assert_ne!(h_near, src, "nearest repoints to a variant");
    assert_ne!(h_tri, h_near, "different modes, different variants");
    assert_eq!(app.handle_of(auto), src, "auto keeps the source");
    assert_eq!(app.variant_count(), 2);

    let source = app.assets[&src].unwrap();
    assert_eq!(source.desc.mip_level_count, 1, "source never mutated");
    assert!(source.sampler.is_none());

    assert_eq!(level_count(4, 4), 3, "4×4 → 3 levels");
    assert_eq!(pyramid_plan(4, 4).1, 64 + 16 + 4);
    assert_eq!(app.samplers[&h_tri], VariantSampler::Linear { level_zero_only: false });
    assert_eq!(app.samplers[&h_near], VariantSampler::Nearest);
}

#[test]
fn same_pair_shares_one_variant() {
    let mut app = World::new();
    let src = app.add_source(source_image());
    let a = app.spawn(Some(ImageRendering::Nearest), src);
    let b = app.spawn(Some(ImageRendering::Nearest), src);
    app.update();
    assert_eq!(app.handle_of(a), app.handle_of(b));
    assert_eq!(app.variant_count(), 1);

    // A rebuild writes the source handle back.
    app.set_image(a, src);
    app.update();
    assert_eq!(app.handle_of(a), app.handle_of(b));
    assert_eq!(app.variant_count(), 1);
    app.update();
    assert_eq!(app.variant_count(), 1, "the repoint echo is a no-op");
}

#[test]
fn bilinear_on_a_plain_source_needs_no_copy() {
    let mut app = World::new();
    let src = app.add_source(source_image());
    let e = app.spawn(Some(ImageRendering::Bilinear), src);
    app.update();
    assert_eq!(app.handle_of(e), src);
    assert_eq!(app.variant_count(), 0);

    // …but on a pre-mipped source it needs the lod clamp, so it does copy.
    let src2 = app.add_source(mipped_image());
    let e2 = app.spawn(Some(ImageRendering::Bilinear), src2);
    app.update();
    let h2 = app.handle_of(e2);
    assert_ne!(h2, src2);
    assert_eq!(app.samplers[&h2], VariantSampler::Linear { level_zero_only: true });
    // A trilinear node on the pre-mipped source is satisfied by it as-is.
    let e3 = app.spawn(Some(ImageRendering::Trilinear), src2);
    app.update();
    assert_eq!(app.handle_of(e3), src2);
    assert_eq!(app.variant_count(), 1);
}

#[test]
fn satisfies_uses_the_hosts_default_sampler() {
    let mut app = World::new();
    app.default = nearest_default();
    let src = app.add_source(source_image());
    let bi = app.spawn(Some(ImageRendering::Bilinear), src);
    let near = app.spawn(Some(ImageRendering::Nearest), src);
    app.update();
    assert_ne!(app.handle_of(bi), src, "bilinear needs a linear copy");
    assert_eq!(app.handle_of(near), src, "nearest is the default here");
    assert_eq!(app.variant_count(), 1);
}

#[test]
fn removing_or_changing_the_mode_rebinds_and_drops_the_orphan() {
    let mut app = World::new();
    let src = app.add_source(source_image());
    let e = app.spawn(Some(ImageRendering::Nearest), src);
    app.update();
    assert_ne!(app.handle_of(e), src);

    app.set_mode(e, Some(ImageRendering::Trilinear));
    app.update();
    assert_eq!(app.variant_count(), 1, "the nearest variant was dropped");
    app.land_builds();
    app.update();
    let h = app.handle_of(e);
    assert_ne!(h, src);
    assert_eq!(app.samplers[&h], VariantSampler::Linear { level_zero_only: false });
    assert_eq!(app.assets[&h].unwrap().desc.mip_level_count, 3);

    app.set_mode(e, None);
    app.update();
    assert_eq!(app.handle_of(e), src, "back on the source");
    assert_eq!(app.variant_count(), 0);
}

#[test]
fn same_frame_src_swap_with_mode_unset_keeps_the_new_source() {
    let mut app = World::new();
    let a = app.add_source(source_image());
    let b = app.add_source(source_image());
    let e = app.spawn(Some(ImageRendering::Nearest), a);
    app.update();
    assert_ne!(app.handle_of(e), a);

    app.set_image(e, b);
    app.set_mode(e, None);
    app.update();
    assert_eq!(app.handle_of(e), b, "the new source, not the old one");
    assert_eq!(app.variant_count(), 0);
}

#[test]
fn variant_is_dropped_with_its_last_user() {
    let mut app = World::new();
    let src = app.add_source(source_image());
    let a = app.spawn(Some(ImageRendering::Nearest), src);
    let b = app.spawn(Some(ImageRendering::Nearest), src);
    app.update();
    assert_eq!(app.variant_count(), 1);
    app.despawn(a);
    app.update();
    assert_eq!(app.variant_count(), 1);
    app.despawn(b);
    app.update();
    assert_eq!(app.variant_count(), 0);
}

#[test]
fn binds_once_the_source_loads_and_releases_while_waiting() {
    let mut app = World::new();
    let a = app.add_source(source_image());
    let e = app.spawn(Some(ImageRendering::Nearest), a);
    app.update();
    assert_eq!(app.variant_count(), 1);

    let late = app.reserve();
    app.set_image(e, late);
    app.update();
    app.update();
    assert_eq!(app.handle_of(e), late, "nothing to derive yet");
    assert_eq!(app.variant_count(), 0, "the old variant was released");

    app.assets.insert(late, Some(source_image()));
    app.update();
    assert_ne!(app.handle_of(e), late, "bound once loaded");
    assert_eq!(app.variant_count(), 1);
}

#[test]
fn source_reload_rebuilds_the_variant_in_place() {
    let mut app = World::new();
    let src = app.add_source(source_image());
    let e = app.spawn(Some(ImageRendering::Trilinear), src);
    app.update();
    app.land_builds();
    app.update();
    let h = app.handle_of(e);
    assert_ne!(h, src);

    // A source modified every frame: the first reload starts a build, the
    // rest defer to it, and the build in flight derives again when it lands.
    assert_eq!(app.reload(src), vec![ReloadStep::SpawnPyramid]);
    for _ in 0..30 {
        assert_eq!(app.reload(src), vec![ReloadStep::Deferred]);
        app.update();
    }
    app.land_builds();
    assert_eq!(app.builds.len(), 1, "the newest source is re-derived");
    app.land_builds();
    assert!(app.builds.is_empty());
    app.update();
    assert_eq!(app.handle_of(e), h, "the node keeps the same variant handle");
    assert_eq!(app.variant_count(), 1);
}

#[test]
fn live_textures_refuse_every_mode_once() {
    let mut app = World::new();
    let mut target = source_image();
    target.render_attachment = true;
    let src = app.add_source(target);
    let near = app.spawn(Some(ImageRendering::Nearest), src);
    app.update();
    assert_eq!(app.handle_of(near), src, "no variant for a live target");
    assert_eq!(app.variant_count(), 0);
    assert!(app.assets[&src].unwrap().sampler.is_none(), "never written in place");
    assert_eq!(app.warnings.len(), 1);
    assert_eq!(app.warnings[0].0, "nearest");

    // A per-frame tint write is a change too: no re-plan, no re-warn.
    for _ in 0..3 {
        app.changed.insert(near);
        app.update();
    }
    assert_eq!(app.warnings.len(), 1, "a tint write must not re-warn");

    // A plain image reached through a registry binding is live by element.
    let plain = app.add_source(source_image());
    let bg = app.spawn(Some(ImageRendering::Trilinear), plain);
    app.nodes.get_mut(&bg).unwrap().live_element = true;
    app.update();
    assert_eq!(app.handle_of(bg), plain);
    assert_eq!(app.variant_count(), 0);
    assert_eq!(app.warnings.len(), 2);
    assert_eq!(app.warnings[1].0, "trilinear");

    // The transparent placeholder binds nothing.
    let ph = app.spawn(Some(ImageRendering::Nearest), PLACEHOLDER);
    app.update();
    assert_eq!(app.handle_of(ph), PLACEHOLDER);
    assert_eq!(app.variant_count(), 0);
    assert_eq!(app.warnings.len(), 2);
    assert_eq!(WARN_KIND, "imageRendering");
}

#[test]
fn data_less_sources_are_refused() {
    let mut app = World::new();
    let mut img = source_image();
    img.desc.data_len = None;
    let src = app.add_source(img);
    let e = app.spawn(Some(ImageRendering::Nearest), src);
    app.update();
    assert_eq!(app.handle_of(e), src);
    assert_eq!(app.variant_count(), 0);
    assert_eq!(app.warnings.len(), 1);
    assert_eq!(app.warnings[0].0, "nearest");
    assert!(app.warnings[0].1.contains("no CPU-side pixel data"));
}

#[test]
fn refuses_unsupported_images_untouched() {
    let mut img = source_image().desc;
    img.width = 1;
    img.height = 1;
    img.data_len = Some(4);
    img.format = PixelFormat::Other;
    assert_eq!(check(&img), Err(PyramidError::Format));
    assert_eq!(
        pyramid_error_reason(PyramidError::Format, "Bgra8UnormSrgb"),
        "unsupported texture format Bgra8UnormSrgb (need Rgba8Unorm)"
    );
    img.format = PixelFormat::Rgba8UnormSrgb;
    let mut mipped = img;
    mipped.mip_level_count = 3;
    assert_eq!(check(&mipped), Err(PyramidError::AlreadyMipped));
    let mut empty = img;
    empty.data_len = None;
    assert_eq!(check(&empty), Err(PyramidError::NoData));
    assert_eq!(check(&img), Ok(()));
    assert_eq!(level_count(1, 1), 1);
    assert!(pyramid_plan(1, 1).0.is_empty());
    assert_eq!(pyramid_plan(1, 1).1, 4);
}

#[test]
fn trilinear_refusal_names_the_pyramid_reason() {
    let mut img = source_image();
    img.desc.is_2d = false;
    let r = plan(&img, ImageRendering::Trilinear, false, linear_default());
    assert_eq!(r, Err(PlanRefusal::Pyramid(PyramidError::Shape)));
    let reason = pyramid_error_reason(PyramidError::Shape, "Rgba8UnormSrgb");
    assert_eq!(
        refusal_warning(PlanRefusal::Pyramid(PyramidError::Shape), ImageRendering::Trilinear, &reason),
        "imageRendering \"trilinear\": can't build a mip pyramid \u{2014} not a single-layer 2D texture; sampled as-is"
    );
    // Other modes don't need a pyramid.
    assert_eq!(plan(&img, ImageRendering::Nearest, false, linear_default()), Ok(Some(ImageRendering::Nearest)));
}

#[test]
fn auto_is_always_satisfied() {
    assert!(satisfies(1, None, ImageRendering::Auto, nearest_default()));
    assert!(satisfies(1, None, ImageRendering::Bilinear, linear_default()));
    assert!(!satisfies(3, None, ImageRendering::Bilinear, linear_default()));
    assert!(satisfies(3, None, ImageRendering::Trilinear, linear_default()));
    assert!(!satisfies(1, None, ImageRendering::Trilinear, linear_default()));
}

#[test]
fn a_variant_renders_its_own_mode() {
    // What the variant samplers are: the stock linear / nearest samplers,
    // clamped to level 0 where the mode asks for it.
    let model = |s: VariantSampler| match s {
        VariantSampler::Default => linear_default(),
        VariantSampler::Linear { level_zero_only } => SamplerModel {
            lod_max_is_zero: level_zero_only,
            lod_max_whole: if level_zero_only { Some(0) } else { Some(32) },
            ..linear_default()
        },
        VariantSampler::Nearest => SamplerModel {
            lod_max_is_zero: true,
            lod_max_whole: Some(0),
            ..nearest_default()
        },
    };
    for levels in [1, 2, 9] {
        for mode in [ImageRendering::Bilinear, ImageRendering::Nearest] {
            assert!(satisfies(levels, Some(model(sampler_for(mode))), mode, nearest_default()));
        }
    }
    assert!(satisfies(3, Some(model(sampler_for(ImageRendering::Trilinear))), ImageRendering::Trilinear, nearest_default()));
}

#[test]
fn variant_count_is_the_number_of_pairs_in_use() {
    let mut app = World::new();
    let s1 = app.add_source(source_image());
    let s2 = app.add_source(source_image());
    let s3 = app.add_source(source_image());
    let a = app.spawn(Some(ImageRendering::Nearest), s1);
    let b = app.spawn(Some(ImageRendering::Nearest), s1);
    let c = app.spawn(Some(ImageRendering::Nearest), s2);
    let d = app.spawn(Some(ImageRendering::Nearest), s3);
    app.update();
    // (s1, nearest), (s2, nearest), (s3, nearest).
    assert_eq!(app.variant_count(), 3);
    assert_eq!(app.handle_of(a), app.handle_of(b));
    assert_ne!(app.handle_of(a), app.handle_of(c));
    assert_ne!(app.handle_of(a), app.handle_of(d));
    app.set_image(d, s1);
    app.update();
    assert_eq!(app.variant_count(), 2);
    assert_eq!(app.handle_of(d), app.handle_of(a));
}
