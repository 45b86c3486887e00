//! The `imageRendering` style: how a node's raster source is resampled when
//! drawn at a size other than its own — the modes, whether an asset already
//! renders a mode, what a node with a mode binds to, the derived-variant
//! bookkeeping, and CPU mip-pyramid geometry.

pub mod pyramid;
pub mod variants;

use vstd::prelude::*;
use vstd::string::*;

use self::pyramid::{check, pyramid_problem, ImageDesc, PyramidError};

verus! {

/// The `imageRendering` keyword. `Auto` is passive — it never touches an
/// asset and renders as the engine default.
#[derive(Debug, Clone, Copy, PartialEq, Eq, Structural)]
pub enum ImageRendering {
    Auto,
    /// Linear mag/min, level 0 only, even on an asset that carries mips.
    Bilinear,
    /// A mip pyramid (generated when absent) sampled linear across levels.
    Trilinear,
    /// Nearest mag/min, level 0 only.
    Nearest,
}

/// The `diag` kind every `imageRendering` fall-back reports under.
pub const WARN_KIND: &'static str = "imageRendering";

/// The wire name of a mode.
pub open spec fn mode_name_spec(mode: ImageRendering) -> Seq<char> {
    match mode {
        ImageRendering::Auto => "auto"@,
        ImageRendering::Bilinear => "bilinear"@,
        ImageRendering::Trilinear => "trilinear"@,
        ImageRendering::Nearest => "nearest"@,
    }
}

/// The wire name of a mode (see [`mode_name_spec`]).
pub fn mode_name(mode: ImageRendering) -> (r: &'static str)
    ensures
        r@ == mode_name_spec(mode),
{
    match mode {
        ImageRendering::Auto => "auto",
        ImageRendering::Bilinear => "bilinear",
        ImageRendering::Trilinear => "trilinear",
        ImageRendering::Nearest => "nearest",
    }
}

/// A sampler filter.
#[derive(Debug, Clone, Copy, PartialEq, Eq, Structural)]
pub enum FilterMode {
    Nearest,
    Linear,
}

/// What the mode check reads of a sampler: its three filters and its
/// `lod_max_clamp`, as whether it is exactly zero and, when it is a number
/// `>= 0`, its whole part (saturating; infinity saturates).
#[derive(Debug, Clone, Copy)]
pub struct SamplerModel {
    pub mag: FilterMode,
    pub min: FilterMode,
    pub mipmap: FilterMode,
    pub lod_max_is_zero: bool,
    pub lod_max_whole: Option<u32>,
}

/// Whether an image with `levels` mips sampled by `d` already renders `mode`.
pub open spec fn satisfies_spec(levels: u32, d: SamplerModel, mode: ImageRendering) -> bool {
    match mode {
        ImageRendering::Auto => true,
        ImageRendering::Bilinear => d.mag == FilterMode::Linear && d.min == FilterMode::Linear && (
        levels == 1 || d.lod_max_is_zero),
        ImageRendering::Trilinear => levels > 1 && d.mag == FilterMode::Linear && d.min
            == FilterMode::Linear && d.mipmap == FilterMode::Linear && (d.lod_max_whole matches Some(
            l,
        ) && l >= levels - 1),
        ImageRendering::Nearest => d.mag == FilterMode::Nearest && d.min == FilterMode::Nearest && (
        levels == 1 || d.lod_max_is_zero),
    }
}

/// Whether an image already renders the way `mode` asks, so no variant is
/// needed. `sampler` is the image's own sampler, `None` for the default one
/// (which is `default`, the host's configured sampler).
pub fn satisfies(
    levels: u32,
    sampler: Option<SamplerModel>,
    mode: ImageRendering,
    default: SamplerModel,
) -> (r: bool)
    ensures
        r == satisfies_spec(
            levels,
            match sampler {
                Some(s) => s,
                None => default,
            },
            mode,
        ),
{
    let d = match sampler {
        Some(s) => s,
        None => default,
    };
    match mode {
        ImageRendering::Auto => true,
        ImageRendering::Bilinear => d.mag == FilterMode::Linear && d.min == FilterMode::Linear && (
        levels == 1 || d.lod_max_is_zero),
        ImageRendering::Trilinear => levels > 1 && d.mag == FilterMode::Linear && d.min
            == FilterMode::Linear && d.mipmap == FilterMode::Linear && match d.lod_max_whole {
            Some(l) => l >= levels - 1,
            None => false,
        },
        ImageRendering::Nearest => d.mag == FilterMode::Nearest && d.min == FilterMode::Nearest && (
        levels == 1 || d.lod_max_is_zero),
    }
}

/// The sampler a derived variant of a mode is given.
#[derive(Debug, Clone, Copy, PartialEq, Eq, Structural)]
pub enum VariantSampler {
    /// The image's default sampler.
    Default,
    /// The stock linear sampler (linear mag, min and mip filters), clamped
    /// to level 0 when `level_zero_only`.
    Linear { level_zero_only: bool },
    /// The stock nearest sampler, clamped to level 0.
    Nearest,
}

/// The sampler an explicit mode asks for.
pub open spec fn sampler_for_spec(mode: ImageRendering) -> VariantSampler {
    match mode {
        ImageRendering::Auto => VariantSampler::Default,
        ImageRendering::Bilinear => VariantSampler::Linear { level_zero_only: true },
        ImageRendering::Trilinear => VariantSampler::Linear { level_zero_only: false },
        ImageRendering::Nearest => VariantSampler::Nearest,
    }
}

/// The sampler an explicit mode asks for (see [`sampler_for_spec`]).
pub fn sampler_for(mode: ImageRendering) -> (r: VariantSampler)
    ensures
        r == sampler_for_spec(mode),
{
    match mode {
        ImageRendering::Auto => VariantSampler::Default,
        ImageRendering::Bilinear => VariantSampler::Linear { level_zero_only: true },
        ImageRendering::Trilinear => VariantSampler::Linear { level_zero_only: false },
        ImageRendering::Nearest => VariantSampler::Nearest,
    }
}

/// What the mode check reads of a variant sampler; `stock_lod_max` is the
/// stock samplers' level clamp, read the same way as
/// [`SamplerModel::lod_max_whole`].
pub open spec fn variant_sampler_model(
    s: VariantSampler,
    default: SamplerModel,
    stock_lod_max: Option<u32>,
) -> SamplerModel {
    match s {
        VariantSampler::Default => default,
        VariantSampler::Linear { level_zero_only } => SamplerModel {
            mag: FilterMode::Linear,
            min: FilterMode::Linear,
            mipmap: FilterMode::Linear,
            lod_max_is_zero: level_zero_only,
            lod_max_whole: if level_zero_only {
                Some(0)
            } else {
                stock_lod_max
            },
        },
        VariantSampler::Nearest => SamplerModel {
            mag: FilterMode::Nearest,
            min: FilterMode::Nearest,
            mipmap: FilterMode::Nearest,
            lod_max_is_zero: true,
            lod_max_whole: Some(0),
        },
    }
}

/// A derived variant renders the mode it was derived for: a `bilinear` or
/// `nearest` variant whatever its levels, a `trilinear` one once its
/// pyramid (of `levels > 1` levels) fits under the stock level clamp — so
/// binding a node to its own variant never asks for another one.
pub proof fn lemma_variant_satisfies_mode(
    mode: ImageRendering,
    levels: u32,
    default: SamplerModel,
    stock_lod_max: Option<u32>,
)
    requires
        mode == ImageRendering::Trilinear ==> levels > 1 && (stock_lod_max matches Some(l) && l
            >= levels - 1),
    ensures
        satisfies_spec(
            levels,
            variant_sampler_model(sampler_for_spec(mode), default, stock_lod_max),
            mode,
        ),
{
}

/// What rendering a mode as-is demands of an image and its sampler:
/// `nearest` and `bilinear` promise level-0 texels, so a mipped image must be
/// sampled with its level clamp at zero, through nearest (resp. linear)
/// mag and min filters; `trilinear` needs a mip chain, linear filters
/// across levels, and a level clamp that reaches the last level; `auto`
/// takes any image. Conversely, an image meeting those demands needs no
/// variant.
pub proof fn lemma_satisfied_modes(levels: u32, d: SamplerModel)
    ensures
        satisfies_spec(levels, d, ImageRendering::Auto),
        satisfies_spec(levels, d, ImageRendering::Nearest) ==> d.mag == FilterMode::Nearest
            && d.min == FilterMode::Nearest,
        satisfies_spec(levels, d, ImageRendering::Bilinear) ==> d.mag == FilterMode::Linear
            && d.min == FilterMode::Linear,
        levels > 1 && !d.lod_max_is_zero ==> !satisfies_spec(levels, d, ImageRendering::Nearest)
            && !satisfies_spec(levels, d, ImageRendering::Bilinear),
        levels == 1 ==> (satisfies_spec(levels, d, ImageRendering::Nearest) <==> (d.mag
            == FilterMode::Nearest && d.min == FilterMode::Nearest)),
        d.lod_max_is_zero ==> (satisfies_spec(levels, d, ImageRendering::Bilinear) <==> (d.mag
            == FilterMode::Linear && d.min == FilterMode::Linear)),
        satisfies_spec(levels, d, ImageRendering::Trilinear) ==> levels > 1 && d.mag
            == FilterMode::Linear && d.min == FilterMode::Linear && d.mipmap == FilterMode::Linear
            && d.lod_max_whole is Some && d.lod_max_whole.unwrap() >= levels - 1,
        levels == 1 ==> !satisfies_spec(levels, d, ImageRendering::Trilinear),
        levels == 1 ==> (satisfies_spec(levels, d, ImageRendering::Bilinear) <==> (d.mag
            == FilterMode::Linear && d.min == FilterMode::Linear)),
        d.lod_max_is_zero ==> (satisfies_spec(levels, d, ImageRendering::Nearest) <==> (d.mag
            == FilterMode::Nearest && d.min == FilterMode::Nearest)),
        levels > 1 && d.mag == FilterMode::Linear && d.min == FilterMode::Linear && d.mipmap
            == FilterMode::Linear && d.lod_max_whole is Some && d.lod_max_whole.unwrap() >= levels
            - 1 ==> satisfies_spec(levels, d, ImageRendering::Trilinear),
{
}

/// A mipped source whose sampler is not clamped to level 0 never renders
/// `nearest` or `bilinear` as-is: unless the node is live, it gets a
/// variant of the mode when it has pixel data, and is refused for lack of
/// data otherwise.
pub proof fn lemma_mipped_source_needs_a_level_zero_variant(
    source: SourceImage,
    mode: ImageRendering,
    default: SamplerModel,
)
    requires
        mode == ImageRendering::Nearest || mode == ImageRendering::Bilinear,
        source.desc.mip_level_count > 1,
        !(match source.sampler {
            Some(s) => s,
            None => default,
        }).lod_max_is_zero,
        !source.render_attachment,
    ensures
        plan_spec(source, mode, false, default) == if source.desc.data_len is Some {
            Ok::<Option<ImageRendering>, PlanRefusal>(Some(mode))
        } else {
            Err(PlanRefusal::NoData)
        },
{
    let d = match source.sampler {
        Some(s) => s,
        None => default,
    };
    lemma_satisfied_modes(source.desc.mip_level_count, d);
}

/// What a binding reads of its source image.
#[derive(Debug, Clone, Copy)]
pub struct SourceImage {
    pub desc: ImageDesc,
    /// The image's own sampler, `None` for the default one.
    pub sampler: Option<SamplerModel>,
    /// The texture is a render target (written by the GPU).
    pub render_attachment: bool,
}

/// Why an explicit mode is refused on a source (the node keeps its source).
#[derive(Debug, Clone, Copy, PartialEq, Eq, Structural)]
pub enum PlanRefusal {
    /// The texture is live (render target, canvas, svg, texture binding).
    Live,
    /// The image has no CPU-side pixel data to derive a variant from.
    NoData,
    /// A `trilinear` pyramid can't be built.
    Pyramid(PyramidError),
}

/// What a node with `mode` binds to, from its source alone: a live texture
/// is refused; a source that already renders the mode is used as-is
/// (`None`); otherwise a variant of the mode (`Some(mode)`), provided the
/// source has pixel data and, for `trilinear`, qualifies for a pyramid.
pub open spec fn plan_spec(
    source: SourceImage,
    mode: ImageRendering,
    live_element: bool,
    default: SamplerModel,
) -> Result<Option<ImageRendering>, PlanRefusal> {
    let sampler = match source.sampler {
        Some(s) => s,
        None => default,
    };
    if live_element || source.render_attachment {
        Err(PlanRefusal::Live)
    } else if satisfies_spec(source.desc.mip_level_count, sampler, mode) {
        Ok(None)
    } else if source.desc.data_len is None {
        Err(PlanRefusal::NoData)
    } else if mode == ImageRendering::Trilinear && pyramid_problem(source.desc) is Some {
        Err(PlanRefusal::Pyramid(pyramid_problem(source.desc).unwrap()))
    } else {
        Ok(Some(mode))
    }
}

/// Decide what a node with `mode` binds to (see [`plan_spec`]).
pub fn plan(source: &SourceImage, mode: ImageRendering, live_element: bool, default: SamplerModel) -> (r:
    Result<Option<ImageRendering>, PlanRefusal>)
    ensures
        r == plan_spec(*source, mode, live_element, default),
{
    if live_element || source.render_attachment {
        return Err(PlanRefusal::Live);
    }
    if satisfies(source.desc.mip_level_count, source.sampler, mode, default) {
        return Ok(None);
    }
    if source.desc.data_len.is_none() {
        return Err(PlanRefusal::NoData);
    }
    if mode == ImageRendering::Trilinear {
        if let Err(e) = check(&source.desc) {
            return Err(PlanRefusal::Pyramid(e));
        }
    }
    Ok(Some(mode))
}

/// The warning text of a refusal; `pyramid_reason` is the rendered
/// [`PyramidError`] (only read for [`PlanRefusal::Pyramid`]).
pub open spec fn refusal_message(
    refusal: PlanRefusal,
    mode: ImageRendering,
    pyramid_reason: Seq<char>,
) -> Seq<char> {
    match refusal {
        PlanRefusal::Live => "imageRendering \""@ + mode_name_spec(mode)
            + "\" is ignored on a live texture (render target, canvas, svg, `{ texture }`): it can't be copied and is sampled as-is"@,
        PlanRefusal::NoData => "imageRendering \""@ + mode_name_spec(mode)
            + "\": the image has no CPU-side pixel data to derive from (RENDER_WORLD-only asset usage); sampled as-is"@,
        PlanRefusal::Pyramid(_) => "imageRendering \"trilinear\": can't build a mip pyramid — "@
            + pyramid_reason + "; sampled as-is"@,
    }
}

/// The warning text of a refusal (see [`refusal_message`]).
pub fn refusal_warning(refusal: PlanRefusal, mode: ImageRendering, pyramid_reason: &str) -> (r:
    String)
    ensures
        r@ == refusal_message(refusal, mode, pyramid_reason@),
{
    match refusal {
        PlanRefusal::Live => String::from_str("imageRendering \"").concat(mode_name(mode)).concat(
            "\" is ignored on a live texture (render target, canvas, svg, `{ texture }`): it can't be copied and is sampled as-is",
        ),
        PlanRefusal::NoData => String::from_str("imageRendering \"").concat(mode_name(mode)).concat(
            "\": the image has no CPU-side pixel data to derive from (RENDER_WORLD-only asset usage); sampled as-is",
        ),
        PlanRefusal::Pyramid(_) => String::from_str(
            "imageRendering \"trilinear\": can't build a mip pyramid — ",
        ).concat(pyramid_reason).concat("; sampled as-is"),
    }
}

} // verus!
