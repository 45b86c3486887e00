//! CPU mip-pyramid geometry: which images qualify for a generated pyramid,
//! how many levels the chain has, and where each level's texels come from.

use vstd::prelude::*;
use vstd::string::*;

verus! {

/// `floor(log2(n))` for `n >= 1` (and `0` for `n <= 1`).
pub open spec fn log2_floor(n: nat) -> nat
    decreases n,
{
    if n <= 1 {
        0
    } else {
        1 + log2_floor(n / 2)
    }
}

/// The larger of two dimensions, at least `1`.
pub open spec fn max_dim(width: u32, height: u32) -> nat {
    let m = if width >= height { width as nat } else { height as nat };
    if m >= 1 { m } else { 1 }
}

/// Mip levels for a `width × height` texture — the full chain down to 1×1.
pub fn level_count(width: u32, height: u32) -> (levels: u32)
    ensures
        levels == log2_floor(max_dim(width, height)) + 1,
{
    let mut m: u32 = if width >= height { width } else { height };
    if m < 1 {
        m = 1;
    }
    let mut levels: u32 = 1;
    proof {
        lemma_log2_floor_bound(m as nat);
    }
    while m > 1
        invariant
            1 <= m,
            1 <= levels <= 33 - log2_floor(m as nat),
            log2_floor(max_dim(width, height)) + 1 == log2_floor(m as nat) + levels,
        decreases m,
    {
        m = m / 2;
        levels = levels + 1;
    }
    levels
}

/// `2^k`.
pub open spec fn pow2(k: nat) -> nat
    decreases k,
{
    if k == 0 {
        1
    } else {
        2 * pow2((k - 1) as nat)
    }
}

/// Below `2^k`, `log2_floor` stays below `k`.
proof fn lemma_log2_floor_below(n: nat, k: nat)
    requires
        n < pow2(k),
        k >= 1,
    ensures
        log2_floor(n) < k,
    decreases k,
{
    if n > 1 {
        if k == 1 {
            assert(pow2(1) == 2 * pow2(0));
        } else {
            assert(pow2(k) == 2 * pow2((k - 1) as nat));
            lemma_log2_floor_below(n / 2, (k - 1) as nat);
        }
    }
}

/// `log2_floor` of a 32-bit value is below 32.
proof fn lemma_log2_floor_bound(n: nat)
    requires
        n <= u32::MAX,
    ensures
        log2_floor(n) <= 31,
{
    reveal_with_fuel(pow2, 33);
    assert(pow2(32) == 0x1_0000_0000);
    lemma_log2_floor_below(n, 32);
}

/// The texel formats an image can have, as far as the pyramid cares.
#[derive(Debug, Clone, Copy, PartialEq, Eq, Structural)]
pub enum PixelFormat {
    Rgba8Unorm,
    Rgba8UnormSrgb,
    /// Any other format (unsupported).
    Other,
}

/// What the pyramid reads of an image: its format and shape, its mip count,
/// and the length of its CPU-side pixel data (`None` without data).
#[derive(Debug, Clone, Copy)]
pub struct ImageDesc {
    pub format: PixelFormat,
    pub is_2d: bool,
    pub layers: u32,
    pub mip_level_count: u32,
    pub width: u32,
    pub height: u32,
    pub data_len: Option<usize>,
}

/// Why an image can't take a generated pyramid.
#[derive(Debug, Clone, Copy, PartialEq, Eq, Structural)]
pub enum PyramidError {
    /// Not `Rgba8Unorm` / `Rgba8UnormSrgb`.
    Format,
    /// Not a single-layer 2D texture.
    Shape,
    /// The asset already carries mip levels — nothing to build.
    AlreadyMipped,
    /// No CPU-side pixel data of the expected length.
    NoData,
}

/// Which check an image fails first, if any: format, then shape, then
/// existing mips, then data (which must be exactly `width × height × 4`
/// bytes).
pub open spec fn pyramid_problem(d: ImageDesc) -> Option<PyramidError> {
    if d.format == PixelFormat::Other {
        Some(PyramidError::Format)
    } else if !d.is_2d || d.layers != 1 {
        Some(PyramidError::Shape)
    } else if d.mip_level_count > 1 {
        Some(PyramidError::AlreadyMipped)
    } else if !(d.data_len matches Some(n) && n == d.width * d.height * 4) {
        Some(PyramidError::NoData)
    } else {
        None
    }
}

/// Whether a pyramid build would succeed on the image (the binder's
/// pre-check, so a doomed build never leaves the main thread).
pub fn check(image: &ImageDesc) -> (r: Result<(), PyramidError>)
    ensures
        match pyramid_problem(*image) {
            None => r is Ok,
            Some(e) => r == Err::<(), PyramidError>(e),
        },
{
    if image.format == PixelFormat::Other {
        return Err(PyramidError::Format);
    }
    if !image.is_2d || image.layers != 1 {
        return Err(PyramidError::Shape);
    }
    if image.mip_level_count > 1 {
        return Err(PyramidError::AlreadyMipped);
    }
    let w = image.width as u128;
    let h = image.height as u128;
    assert(w * h <= 0xffff_ffff * 0xffff_ffff) by (nonlinear_arith)
        requires
            w <= 0xffff_ffff,
            h <= 0xffff_ffff,
    ;
    let want: u128 = w * h * 4;
    match image.data_len {
        Some(n) => if n as u128 == want {
            Ok(())
        } else {
            Err(PyramidError::NoData)
        },
        None => Err(PyramidError::NoData),
    }
}

/// The user-facing reason for a pyramid error; `format_name` is the
/// image's texture format as `Debug` renders it (only read for `Format`).
pub open spec fn pyramid_reason(e: PyramidError, format_name: Seq<char>) -> Seq<char> {
    match e {
        PyramidError::Format => "unsupported texture format "@ + format_name + " (need Rgba8Unorm)"@,
        PyramidError::Shape => "not a single-layer 2D texture"@,
        PyramidError::AlreadyMipped => "the asset already carries mip levels"@,
        PyramidError::NoData => "the image has no CPU-side pixel data"@,
    }
}

/// The user-facing reason for a pyramid error (see [`pyramid_reason`]).
pub fn pyramid_error_reason(e: PyramidError, format_name: &str) -> (r: String)
    ensures
        r@ == pyramid_reason(e, format_name@),
{
    match e {
        PyramidError::Format => String::from_str("unsupported texture format ").concat(
            format_name,
        ).concat(" (need Rgba8Unorm)"),
        PyramidError::Shape => String::from_str("not a single-layer 2D texture"),
        PyramidError::AlreadyMipped => String::from_str("the asset already carries mip levels"),
        PyramidError::NoData => String::from_str("the image has no CPU-side pixel data"),
    }
}

/// One halving step of a mip chain: floor, at least 1.
pub open spec fn halve(n: nat) -> nat {
    if n / 2 >= 1 {
        n / 2
    } else {
        1
    }
}

/// A dimension at mip level `i` (at least 1).
pub open spec fn level_dim(n: nat, i: nat) -> nat
    decreases i,
{
    if i == 0 {
        if n >= 1 {
            n
        } else {
            1
        }
    } else {
        halve(level_dim(n, (i - 1) as nat))
    }
}

/// The byte length of mip level `i` of a `width × height` RGBA8 image.
pub open spec fn level_bytes(width: nat, height: nat, i: nat) -> nat {
    level_dim(width, i) * level_dim(height, i) * 4
}

/// The byte offset of mip level `i`: the levels before it, back to back.
pub open spec fn level_start(width: nat, height: nat, i: nat) -> nat
    decreases i,
{
    if i == 0 {
        0
    } else {
        level_start(width, height, (i - 1) as nat) + level_bytes(width, height, (i - 1) as nat)
    }
}

/// One downsampling step of a pyramid build: the source level's size and
/// byte offset, and the size of the level it produces.
#[derive(Debug, Clone, Copy)]
pub struct PyramidStep {
    pub src_width: u32,
    pub src_height: u32,
    pub src_start: usize,
    pub dst_width: u32,
    pub dst_height: u32,
}

/// Step `k` of a `width × height` pyramid: it reads level `k` at its byte
/// offset and produces level `k + 1`.
pub open spec fn step_is(s: PyramidStep, width: nat, height: nat, k: nat) -> bool {
    &&& s.src_width == level_dim(width, k)
    &&& s.src_height == level_dim(height, k)
    &&& s.dst_width == level_dim(width, k + 1)
    &&& s.dst_height == level_dim(height, k + 1)
    &&& s.src_start == level_start(width, height, k)
}

/// The downsampling steps of a full pyramid for a `width × height` image:
/// step `i` reads level `i` (at its byte offset in the level-major data) and
/// produces level `i + 1`, each level halving with floor (min 1) down to
/// 1×1. `total` is the byte length of the whole chain. A zero-sized image
/// no side of which exceeds 1 has just its empty level 0; a zero-sized one
/// with a longer side has no pyramid.
pub fn pyramid_plan(width: u32, height: u32) -> (r: (Vec<PyramidStep>, usize))
    requires
        (1 <= width && 1 <= height) || (width <= 1 && height <= 1),
        width * height * 8 <= usize::MAX,
    ensures
        r.0@.len() + 1 == log2_floor(max_dim(width, height)) + 1,
        forall|i: int|
            0 <= i < r.0@.len() ==> step_is(#[trigger] r.0@[i], width as nat, height as nat, i as nat),
        1 <= width && 1 <= height ==> r.1 == level_start(width as nat, height as nat, r.0@.len() + 1),
        width == 0 || height == 0 ==> r.1 == 0,
{
    if width == 0 || height == 0 {
        proof {
            assert(max_dim(width, height) == 1);
        }
        return (Vec::new(), 0);
    }
    let levels = level_count(width, height);
    let mut steps: Vec<PyramidStep> = Vec::new();
    let (mut w, mut h) = (width, height);
    let mut start: usize = 0;
    let mut i: u32 = 1;
    proof {
        lemma_level_bytes_bound(width as nat, height as nat, 0);
    }
    let ghost big: nat = if width >= height { width as nat } else { height as nat };
    while i < levels
        invariant
            1 <= i <= levels,
            levels == log2_floor(max_dim(width, height)) + 1,
            1 <= width,
            1 <= height,
            width * height * 8 <= usize::MAX,
            steps@.len() == i - 1,
            w == level_dim(width as nat, (i - 1) as nat),
            h == level_dim(height as nat, (i - 1) as nat),
            start == level_start(width as nat, height as nat, (i - 1) as nat),
            big == max_dim(width, height),
            start + 2 * level_bytes(width as nat, height as nat, (i - 1) as nat) <= width * height
                * 8,
            1 <= w <= width,
            1 <= h <= height,
            forall|k: int|
                0 <= k < steps@.len() ==> step_is(
                    #[trigger] steps@[k],
                    width as nat,
                    height as nat,
                    k as nat,
                ),
        decreases levels - i,
    {
        let nw = if w / 2 >= 1 {
            w / 2
        } else {
            1
        };
        let nh = if h / 2 >= 1 {
            h / 2
        } else {
            1
        };
        let ghost before = steps@;
        steps.push(
            PyramidStep { src_width: w, src_height: h, src_start: start, dst_width: nw, dst_height: nh },
        );
        proof {
            lemma_level_bytes_bound(width as nat, height as nat, i as nat);
            let last = (i - 1) as int;
            assert(step_is(steps@[last], width as nat, height as nat, last as nat));
            assert forall|k: int| 0 <= k < steps@.len() implies step_is(
                #[trigger] steps@[k],
                width as nat,
                height as nat,
                k as nat,
            ) by {
                if k < last {
                    assert(steps@[k] == before[k]);
                }
            }
        }
        let bytes: usize = w as usize * h as usize * 4;
        start = start + bytes;
        w = nw;
        h = nh;
        i = i + 1;
    }
    assert(w as nat * h as nat * 4 == level_bytes(width as nat, height as nat, (i - 1) as nat));
    let total: usize = start + w as usize * h as usize * 4;
    (steps, total)
}

/// `log2_floor` is monotone.
proof fn lemma_log2_floor_monotone(a: nat, b: nat)
    requires
        a <= b,
    ensures
        log2_floor(a) <= log2_floor(b),
    decreases b,
{
    if a > 1 {
        lemma_log2_floor_monotone(a / 2, b / 2);
    }
}

/// Halving keeps a dimension positive and no larger.
proof fn lemma_level_dim_range(n: nat, i: nat)
    requires
        n >= 1,
    ensures
        1 <= level_dim(n, i) <= n,
    decreases i,
{
    if i > 0 {
        lemma_level_dim_range(n, (i - 1) as nat);
    }
}

/// Each halving step lowers `log2_floor` by one, while it is positive.
proof fn lemma_level_dim_log(n: nat, i: nat)
    requires
        n >= 1,
        i <= log2_floor(n),
    ensures
        log2_floor(level_dim(n, i)) == log2_floor(n) - i,
    decreases i,
{
    if i > 0 {
        lemma_level_dim_log(n, (i - 1) as nat);
        let x = level_dim(n, (i - 1) as nat);
        lemma_level_dim_range(n, (i - 1) as nat);
        assert(log2_floor(x) >= 1);
        assert(x > 1);
        assert(halve(x) == x / 2);
    }
}

/// `log2_floor` of the larger dimension is the larger of the two.
proof fn lemma_log2_floor_max(w: nat, h: nat)
    requires
        w >= 1,
        h >= 1,
    ensures
        log2_floor(if w >= h { w } else { h }) >= log2_floor(w),
        log2_floor(if w >= h { w } else { h }) >= log2_floor(h),
        log2_floor(if w >= h { w } else { h }) == log2_floor(w) || log2_floor(
            if w >= h { w } else { h },
        ) == log2_floor(h),
{
    lemma_log2_floor_monotone(w, if w >= h { w } else { h });
    lemma_log2_floor_monotone(h, if w >= h { w } else { h });
}

/// Before the last level, some dimension is still at least 2, so the next
/// level is at most half the size.
proof fn lemma_level_halves(width: nat, height: nat, i: nat)
    requires
        width >= 1,
        height >= 1,
        i < log2_floor(if width >= height { width } else { height }),
    ensures
        level_bytes(width, height, i + 1) * 2 <= level_bytes(width, height, i),
{
    lemma_log2_floor_max(width, height);
    lemma_level_dim_range(width, i);
    lemma_level_dim_range(height, i);
    let x = level_dim(width, i);
    let y = level_dim(height, i);
    assert(level_dim(width, i + 1) == halve(x));
    assert(level_dim(height, i + 1) == halve(y));
    if i < log2_floor(width) {
        lemma_level_dim_log(width, i);
        assert(x >= 2);
        assert(halve(x) * halve(y) * 2 <= x * y) by (nonlinear_arith)
            requires
                x >= 2,
                y >= 1,
                halve(x) * 2 <= x,
                halve(y) <= y,
                halve(x) >= 0,
        ;
    } else {
        lemma_level_dim_log(height, i);
        assert(y >= 2);
        assert(halve(x) * halve(y) * 2 <= x * y) by (nonlinear_arith)
            requires
                y >= 2,
                x >= 1,
                halve(y) * 2 <= y,
                halve(x) <= x,
                halve(y) >= 0,
        ;
    }
    assert(level_bytes(width, height, i + 1) == halve(x) * halve(y) * 4);
    assert(level_bytes(width, height, i) == x * y * 4);
}

/// The chain's levels up to `i` (at most the last level) fit in twice the
/// base level: `start + 2 × bytes` never exceeds `2 × base`.
proof fn lemma_level_bytes_bound(width: nat, height: nat, i: nat)
    requires
        width >= 1,
        height >= 1,
        i <= log2_floor(if width >= height { width } else { height }),
    ensures
        level_start(width, height, i) + 2 * level_bytes(width, height, i) <= width * height * 8,
        1 <= level_dim(width, i) <= width,
        1 <= level_dim(height, i) <= height,
    decreases i,
{
    lemma_level_dim_range(width, i);
    lemma_level_dim_range(height, i);
    if i == 0 {
        assert(level_bytes(width, height, 0) == width * height * 4);
    } else {
        lemma_level_bytes_bound(width, height, (i - 1) as nat);
        lemma_level_halves(width, height, (i - 1) as nat);
    }
}

/// `v`, clamped to the last index below `len`.
pub open spec fn clamp_index(v: int, len: int) -> int {
    if v < len {
        v
    } else {
        len - 1
    }
}

/// The byte offset, in a `width × height` source level, of texel
/// `(2x + dx, 2y + dy)` of the 2×2 box under destination texel `(x, y)` —
/// with the missing column/row of an odd dimension clamped to the edge.
pub fn source_texel(x: u32, y: u32, dx: u32, dy: u32, width: u32, height: u32) -> (r: usize)
    requires
        1 <= width,
        1 <= height,
        x < halve(width as nat),
        y < halve(height as nat),
        dx <= 1,
        dy <= 1,
        width * height * 4 <= usize::MAX,
    ensures
        r == (clamp_index(2 * y + dy, height as int) * width + clamp_index(
            2 * x + dx,
            width as int,
        )) * 4,
        r + 4 <= width * height * 4,
{
    let sx: u64 = if 2 * (x as u64) + (dx as u64) < width as u64 {
        2 * (x as u64) + (dx as u64)
    } else {
        width as u64 - 1
    };
    let sy: u64 = if 2 * (y as u64) + (dy as u64) < height as u64 {
        2 * (y as u64) + (dy as u64)
    } else {
        height as u64 - 1
    };
    assert(sy < height && sx < width);
    assert((sy * width + sx) * 4 + 4 <= width * height * 4) by (nonlinear_arith)
        requires
            sy < height,
            sx < width,
    ;
    let r = ((sy as usize) * (width as usize) + (sx as usize)) * 4;
    r
}

/// One RGBA8 texel.
#[derive(Debug, Clone, Copy, PartialEq, Eq, Structural)]
pub struct Rgba8 {
    pub r: u8,
    pub g: u8,
    pub b: u8,
    pub a: u8,
}

/// The texel whose four bytes start at `o`.
pub open spec fn texel_at(s: Seq<u8>, o: int) -> Rgba8 {
    Rgba8 { r: s[o], g: s[o + 1], b: s[o + 2], a: s[o + 3] }
}

/// The byte offset, in an `sw × sh` level, of texel `(2x + dx, 2y + dy)`,
/// clamped to the edge (see [`source_texel`]).
pub open spec fn box_offset(sw: nat, sh: nat, x: nat, y: nat, dx: nat, dy: nat) -> int {
    (clamp_index((2 * y + dy) as int, sh as int) * sw + clamp_index((2 * x + dx) as int, sw as int)) * 4
}

/// Texel `(x, y)` of level `k + 1` of a `w × h` pyramid in `s` is what
/// `average` gave for the 2×2 box under it in level `k`: the texels at
/// `(2x, 2y)`, `(2x + 1, 2y)`, `(2x, 2y + 1)`, `(2x + 1, 2y + 1)`, clamped
/// to the edge.
pub open spec fn texel_averaged<F: Fn(Rgba8, Rgba8, Rgba8, Rgba8) -> Rgba8>(
    s: Seq<u8>,
    average: F,
    w: nat,
    h: nat,
    k: nat,
    x: nat,
    y: nat,
) -> bool {
    let src = level_start(w, h, k) as int;
    let sw = level_dim(w, k);
    let sh = level_dim(h, k);
    let dst = (level_start(w, h, k + 1) + (y * level_dim(w, k + 1) + x) * 4) as int;
    average.ensures(
        (
            texel_at(s, src + box_offset(sw, sh, x, y, 0, 0)),
            texel_at(s, src + box_offset(sw, sh, x, y, 1, 0)),
            texel_at(s, src + box_offset(sw, sh, x, y, 0, 1)),
            texel_at(s, src + box_offset(sw, sh, x, y, 1, 1)),
        ),
        texel_at(s, dst),
    )
}

/// Every texel of level `k + 1` is averaged from level `k`.
pub open spec fn level_averaged<F: Fn(Rgba8, Rgba8, Rgba8, Rgba8) -> Rgba8>(
    s: Seq<u8>,
    average: F,
    w: nat,
    h: nat,
    k: nat,
) -> bool {
    forall|x: nat, y: nat|
        x < level_dim(w, k + 1) && y < level_dim(h, k + 1) ==> #[trigger] texel_averaged(
            s,
            average,
            w,
            h,
            k,
            x,
            y,
        )
}

/// A box texel lies inside its level.
proof fn lemma_box_offset_in_level(sw: nat, sh: nat, x: nat, y: nat, dx: nat, dy: nat)
    requires
        sw >= 1,
        sh >= 1,
        x < halve(sw),
        y < halve(sh),
        dx <= 1,
        dy <= 1,
    ensures
        0 <= box_offset(sw, sh, x, y, dx, dy),
        box_offset(sw, sh, x, y, dx, dy) + 4 <= sw * sh * 4,
{
    let cy = clamp_index((2 * y + dy) as int, sh as int);
    let cx = clamp_index((2 * x + dx) as int, sw as int);
    assert(0 <= cy < sh && 0 <= cx < sw);
    assert(0 <= (cy * sw + cx) * 4 && (cy * sw + cx) * 4 + 4 <= sw * sh * 4) by (nonlinear_arith)
        requires
            0 <= cy < sh,
            0 <= cx < sw,
    ;
}

/// A texel of a `dw × dh` level lies inside it.
proof fn lemma_texel_in_grid(x: nat, y: nat, dw: nat, dh: nat)
    requires
        x < dw,
        y < dh,
    ensures
        (y * dw + x) * 4 + 4 <= dw * dh * 4,
{
    assert((y * dw + x) * 4 + 4 <= dw * dh * 4) by (nonlinear_arith)
        requires
            x < dw,
            y < dh,
    ;
}

/// `level_start` grows with the level.
proof fn lemma_level_start_monotone(w: nat, h: nat, i: nat, j: nat)
    requires
        i <= j,
    ensures
        level_start(w, h, i) <= level_start(w, h, j),
    decreases j,
{
    if i < j {
        lemma_level_start_monotone(w, h, i, (j - 1) as nat);
    }
}

/// What level `k + 1` asserts of the texels it reads and writes only
/// depends on bytes below the end of level `k + 1`: a sequence that agrees
/// there keeps it.
proof fn lemma_level_averaged_kept<F: Fn(Rgba8, Rgba8, Rgba8, Rgba8) -> Rgba8>(
    s: Seq<u8>,
    t: Seq<u8>,
    average: F,
    w: nat,
    h: nat,
    k: nat,
)
    requires
        w >= 1,
        h >= 1,
        level_averaged(s, average, w, h, k),
        level_start(w, h, k + 2) <= s.len(),
        s.len() <= t.len(),
        forall|i: int| 0 <= i < s.len() ==> #[trigger] t[i] == s[i],
    ensures
        level_averaged(t, average, w, h, k),
{
    let sw = level_dim(w, k);
    let sh = level_dim(h, k);
    let dw = level_dim(w, k + 1);
    let dh = level_dim(h, k + 1);
    lemma_level_dim_range(w, k);
    lemma_level_dim_range(h, k);
    assert(dw == halve(sw) && dh == halve(sh));
    assert forall|x: nat, y: nat| x < dw && y < dh implies #[trigger] texel_averaged(
        t,
        average,
        w,
        h,
        k,
        x,
        y,
    ) by {
        assert(texel_averaged(s, average, w, h, k, x, y));
        let src = level_start(w, h, k) as int;
        let dst = (level_start(w, h, k + 1) + (y * dw + x) * 4) as int;
        lemma_texel_in_grid(x, y, dw, dh);
        assert(level_start(w, h, k + 2) == level_start(w, h, k + 1) + dw * dh * 4);
        assert(level_start(w, h, k + 1) == src + sw * sh * 4);
        lemma_box_offset_in_level(sw, sh, x, y, 0, 0);
        lemma_box_offset_in_level(sw, sh, x, y, 1, 0);
        lemma_box_offset_in_level(sw, sh, x, y, 0, 1);
        lemma_box_offset_in_level(sw, sh, x, y, 1, 1);
        assert(texel_at(t, dst) == texel_at(s, dst));
        assert(texel_at(t, src + box_offset(sw, sh, x, y, 0, 0)) == texel_at(
            s,
            src + box_offset(sw, sh, x, y, 0, 0),
        ));
        assert(texel_at(t, src + box_offset(sw, sh, x, y, 1, 0)) == texel_at(
            s,
            src + box_offset(sw, sh, x, y, 1, 0),
        ));
        assert(texel_at(t, src + box_offset(sw, sh, x, y, 0, 1)) == texel_at(
            s,
            src + box_offset(sw, sh, x, y, 0, 1),
        ));
        assert(texel_at(t, src + box_offset(sw, sh, x, y, 1, 1)) == texel_at(
            s,
            src + box_offset(sw, sh, x, y, 1, 1),
        ));
    }
}

/// One texel, at byte `o`.
fn read_texel(data: &Vec<u8>, o: usize) -> (r: Rgba8)
    requires
        o + 4 <= data@.len(),
        o + 4 <= usize::MAX,
    ensures
        r == texel_at(data@, o as int),
{
    Rgba8 { r: data[o], g: data[o + 1], b: data[o + 2], a: data[o + 3] }
}

/// A texel's fact only reads bytes below its own end.
proof fn lemma_texel_kept<F: Fn(Rgba8, Rgba8, Rgba8, Rgba8) -> Rgba8>(
    s: Seq<u8>,
    t: Seq<u8>,
    average: F,
    w: nat,
    h: nat,
    k: nat,
    x: nat,
    y: nat,
)
    requires
        w >= 1,
        h >= 1,
        x < level_dim(w, k + 1),
        y < level_dim(h, k + 1),
        texel_averaged(s, average, w, h, k, x, y),
        level_start(w, h, k + 1) + (y * level_dim(w, k + 1) + x) * 4 + 4 <= s.len(),
        s.len() <= t.len(),
        forall|i: int| 0 <= i < s.len() ==> #[trigger] t[i] == s[i],
    ensures
        texel_averaged(t, average, w, h, k, x, y),
{
    let sw = level_dim(w, k);
    let sh = level_dim(h, k);
    lemma_level_dim_range(w, k);
    lemma_level_dim_range(h, k);
    let src = level_start(w, h, k) as int;
    let dst = (level_start(w, h, k + 1) + (y * level_dim(w, k + 1) + x) * 4) as int;
    assert(level_start(w, h, k + 1) == src + sw * sh * 4);
    lemma_box_offset_in_level(sw, sh, x, y, 0, 0);
    lemma_box_offset_in_level(sw, sh, x, y, 1, 0);
    lemma_box_offset_in_level(sw, sh, x, y, 0, 1);
    lemma_box_offset_in_level(sw, sh, x, y, 1, 1);
    assert(texel_at(t, dst) == texel_at(s, dst));
    assert(texel_at(t, src + box_offset(sw, sh, x, y, 0, 0)) == texel_at(
        s,
        src + box_offset(sw, sh, x, y, 0, 0),
    ));
    assert(texel_at(t, src + box_offset(sw, sh, x, y, 1, 0)) == texel_at(
        s,
        src + box_offset(sw, sh, x, y, 1, 0),
    ));
    assert(texel_at(t, src + box_offset(sw, sh, x, y, 0, 1)) == texel_at(
        s,
        src + box_offset(sw, sh, x, y, 0, 1),
    ));
    assert(texel_at(t, src + box_offset(sw, sh, x, y, 1, 1)) == texel_at(
        s,
        src + box_offset(sw, sh, x, y, 1, 1),
    ));
}

/// Level `k + 1` of a `w × h` pyramid whose levels up to `k` are `data`:
/// each texel, row by row, what `average` gives for its 2×2 box in level
/// `k`.
fn build_level<F: Fn(Rgba8, Rgba8, Rgba8, Rgba8) -> Rgba8>(
    data: &Vec<u8>,
    step: PyramidStep,
    average: &F,
    Ghost(w): Ghost<nat>,
    Ghost(h): Ghost<nat>,
    Ghost(k): Ghost<nat>,
) -> (r: Vec<u8>)
    requires
        forall|a: Rgba8, b: Rgba8, c: Rgba8, d: Rgba8| #[trigger] average.requires((a, b, c, d)),
        w >= 1,
        h >= 1,
        w * h * 8 <= usize::MAX,
        k + 1 <= log2_floor(if w >= h { w } else { h }),
        step_is(step, w, h, k),
        data@.len() == level_start(w, h, k + 1),
    ensures
        r@.len() == level_bytes(w, h, k + 1),
        level_averaged(data@ + r@, *average, w, h, k),
{
    proof {
        lemma_level_bytes_bound(w, h, k + 1);
        lemma_level_dim_range(w, k);
        lemma_level_dim_range(h, k);
    }
    let sw = step.src_width;
    let sh = step.src_height;
    let dw = step.dst_width;
    let dh = step.dst_height;
    let src = step.src_start;
    proof {
        assert(dw == halve(sw as nat) && dh == halve(sh as nat));
        assert(level_start(w, h, k + 1) == src + sw * sh * 4);
        assert(level_bytes(w, h, k + 1) == dw * dh * 4);
        assert(sw * sh * 4 <= usize::MAX) by (nonlinear_arith)
            requires
                sw <= w,
                sh <= h,
                w * h * 8 <= usize::MAX,
        ;
    }
    let mut level: Vec<u8> = Vec::new();
    let mut y: u32 = 0;
    while y < dh
        invariant
            forall|a: Rgba8, b: Rgba8, c: Rgba8, d: Rgba8| #[trigger] average.requires((a, b, c, d)),
            w >= 1,
            h >= 1,
            step_is(step, w, h, k),
            sw == level_dim(w, k),
            sh == level_dim(h, k),
            dw == level_dim(w, k + 1),
            dh == level_dim(h, k + 1),
            1 <= sw,
            1 <= sh,
            dw == halve(sw as nat),
            dh == halve(sh as nat),
            src == level_start(w, h, k),
            sw * sh * 4 <= usize::MAX,
            data@.len() == src + sw * sh * 4,
            data@.len() + dw * dh * 4 <= usize::MAX,
            0 <= y <= dh,
            level@.len() == (y * dw) * 4,
            forall|xx: nat, yy: nat|
                xx < dw && yy < y ==> #[trigger] texel_averaged(
                    data@ + level@,
                    *average,
                    w,
                    h,
                    k,
                    xx,
                    yy,
                ),
        decreases dh - y,
    {
        let mut x: u32 = 0;
        while x < dw
            invariant
                forall|a: Rgba8, b: Rgba8, c: Rgba8, d: Rgba8| #[trigger] average.requires(
                    (a, b, c, d),
                ),
                w >= 1,
                h >= 1,
                step_is(step, w, h, k),
                sw == level_dim(w, k),
                sh == level_dim(h, k),
                dw == level_dim(w, k + 1),
                dh == level_dim(h, k + 1),
                1 <= sw,
                1 <= sh,
                dw == halve(sw as nat),
                dh == halve(sh as nat),
                src == level_start(w, h, k),
                sw * sh * 4 <= usize::MAX,
                data@.len() == src + sw * sh * 4,
                data@.len() + dw * dh * 4 <= usize::MAX,
                0 <= y < dh,
                0 <= x <= dw,
                level@.len() == (y * dw + x) * 4,
                forall|xx: nat, yy: nat|
                    xx < dw && (yy < y || (yy == y && xx < x)) ==> #[trigger] texel_averaged(
                        data@ + level@,
                        *average,
                        w,
                        h,
                        k,
                        xx,
                        yy,
                    ),
            decreases dw - x,
        {
            proof {
                lemma_texel_in_grid(x as nat, y as nat, dw as nat, dh as nat);
                lemma_box_offset_in_level(sw as nat, sh as nat, x as nat, y as nat, 0, 0);
                lemma_box_offset_in_level(sw as nat, sh as nat, x as nat, y as nat, 1, 0);
                lemma_box_offset_in_level(sw as nat, sh as nat, x as nat, y as nat, 0, 1);
                lemma_box_offset_in_level(sw as nat, sh as nat, x as nat, y as nat, 1, 1);
            }
            let t00 = read_texel(data, src + source_texel(x, y, 0, 0, sw, sh));
            let t10 = read_texel(data, src + source_texel(x, y, 1, 0, sw, sh));
            let t01 = read_texel(data, src + source_texel(x, y, 0, 1, sw, sh));
            let t11 = read_texel(data, src + source_texel(x, y, 1, 1, sw, sh));
            let out = average(t00, t10, t01, t11);
            let ghost before = level@;
            level.push(out.r);
            level.push(out.g);
            level.push(out.b);
            level.push(out.a);
            proof {
                let s0 = data@ + before;
                let s1 = data@ + level@;
                assert forall|i: int| 0 <= i < s0.len() implies #[trigger] s1[i] == s0[i] by {
                    if i >= data@.len() {
                        assert(s1[i] == level@[i - data@.len()]);
                        assert(level@[i - data@.len()] == before[i - data@.len()]);
                    }
                }
                let dst = (data@.len() + (y * dw + x) * 4) as int;
                assert(texel_at(s1, dst) == out);
                assert(texel_averaged(s1, *average, w, h, k, x as nat, y as nat));
                assert forall|xx: nat, yy: nat|
                    xx < dw && (yy < y || (yy == y && xx < x + 1)) implies #[trigger] texel_averaged(
                    s1,
                    *average,
                    w,
                    h,
                    k,
                    xx,
                    yy,
                ) by {
                    if !(yy == y && xx == x) {
                        assert(texel_averaged(s0, *average, w, h, k, xx, yy));
                        assert(yy * dw + xx + 1 <= y * dw + x) by (nonlinear_arith)
                            requires
                                xx < dw,
                                yy < y || (yy == y && xx < x),
                        ;
                        lemma_texel_kept(s0, s1, *average, w, h, k, xx, yy);
                    }
                }
            }
            x = x + 1;
        }
        proof {
            assert(y * dw + dw == (y + 1) * dw) by (nonlinear_arith);
        }
        y = y + 1;
    }
    proof {
        assert(level@.len() == dh * dw * 4);
        assert(dh * dw == dw * dh) by (nonlinear_arith);
    }
    level
}


/// The image after a pyramid build: the level count set and the data
/// length recorded, everything else as it was.
pub open spec fn built_desc(d: ImageDesc, levels: nat, len: nat) -> ImageDesc {
    ImageDesc { mip_level_count: levels as u32, data_len: Some(len as usize), ..d }
}

/// Append the full mip chain to a qualifying image (see [`check`]) whose
/// pixel data is `data`, returning the level count. Level `k + 1` follows
/// level `k` in `data` (level-major), each of its texels what `average`
/// gives for the 2×2 box under it in level `k`, clamped to the edge; level 0
/// stays as it was. An image that does not qualify is refused with its
/// first problem, untouched.
pub fn build_pyramid<F: Fn(Rgba8, Rgba8, Rgba8, Rgba8) -> Rgba8>(
    desc: &mut ImageDesc,
    data: &mut Vec<u8>,
    average: F,
) -> (r: Result<u32, PyramidError>)
    requires
        forall|a: Rgba8, b: Rgba8, c: Rgba8, d: Rgba8| #[trigger] average.requires((a, b, c, d)),
        old(desc).data_len matches Some(n) ==> n == old(data)@.len(),
        pyramid_problem(*old(desc)) is None ==> ((1 <= old(desc).width && 1 <= old(desc).height)
            || (old(desc).width <= 1 && old(desc).height <= 1)) && old(desc).width
            * old(desc).height * 8 <= usize::MAX,
    ensures
        match pyramid_problem(*old(desc)) {
            Some(e) => {
                &&& r == Err::<u32, PyramidError>(e)
                &&& *final(desc) == *old(desc)
                &&& final(data)@ == old(data)@
            },
            None => {
                let w = old(desc).width as nat;
                let h = old(desc).height as nat;
                let levels = log2_floor(max_dim(old(desc).width, old(desc).height)) + 1;
                &&& r == Ok::<u32, PyramidError>(levels as u32)
                &&& *final(desc) == built_desc(*old(desc), levels, final(data)@.len())
                &&& final(data)@.subrange(0, old(data)@.len() as int) == old(data)@
                &&& (w == 0 || h == 0) ==> final(data)@ == old(data)@
                &&& (w >= 1 && h >= 1) ==> final(data)@.len() == level_start(w, h, levels)
                &&& forall|k: nat|
                    k + 1 < levels ==> #[trigger] level_averaged(final(data)@, average, w, h, k)
            },
        },
{
    if let Err(e) = check(desc) {
        return Err(e);
    }
    let w = desc.width;
    let h = desc.height;
    let (steps, total) = pyramid_plan(w, h);
    let ghost base = data@;
    let ghost levels = log2_floor(max_dim(w, h)) + 1;
    let n = steps.len();
    proof {
        if w >= 1 && h >= 1 {
            assert(level_dim(w as nat, 0) == w && level_dim(h as nat, 0) == h);
            assert(level_start(w as nat, h as nat, 0) == 0);
            assert(level_start(w as nat, h as nat, 1) == level_bytes(w as nat, h as nat, 0));
            assert(base.len() == level_start(w as nat, h as nat, 1));
        }
    }
    let mut k: usize = 0;
    while k < n
        invariant
            forall|a: Rgba8, b: Rgba8, c: Rgba8, d: Rgba8| #[trigger] average.requires((a, b, c, d)),
            n == steps@.len(),
            n + 1 == levels,
            levels == log2_floor(max_dim(w, h)) + 1,
            forall|i: int| 0 <= i < n ==> step_is(#[trigger] steps@[i], w as nat, h as nat, i as nat),
            n > 0 ==> 1 <= w && 1 <= h,
            w * h * 8 <= usize::MAX,
            0 <= k <= n,
            (w >= 1 && h >= 1) ==> data@.len() == level_start(w as nat, h as nat, (k + 1) as nat),
            k == 0 ==> data@ == base,
            data@.len() >= base.len(),
            forall|i: int| 0 <= i < base.len() ==> #[trigger] data@[i] == base[i],
            forall|kk: nat| kk < k ==> #[trigger] level_averaged(data@, average, w as nat, h as nat, kk),
        decreases n - k,
    {
        let step = steps[k];
        proof {
            assert(step_is(step, w as nat, h as nat, k as nat));
            assert(max_dim(w, h) == (if w >= h { w as nat } else { h as nat }));
        }
        let mut level = build_level(data, step, &average, Ghost(w as nat), Ghost(h as nat), Ghost(k as nat));
        let ghost before = data@;
        let ghost added = level@;
        data.append(&mut level);
        proof {
            assert(data@ == before + added);
            assert forall|i: int| 0 <= i < before.len() implies #[trigger] data@[i] == before[i] by {}
            assert forall|kk: nat| kk < k + 1 implies #[trigger] level_averaged(
                data@,
                average,
                w as nat,
                h as nat,
                kk,
            ) by {
                if kk < k {
                    lemma_level_start_monotone(w as nat, h as nat, kk + 2, (k + 1) as nat);
                    lemma_level_averaged_kept(before, data@, average, w as nat, h as nat, kk);
                }
            }
        }
        k = k + 1;
    }
    let count = level_count(w, h);
    desc.mip_level_count = count;
    desc.data_len = Some(data.len());
    proof {
        assert(data@.subrange(0, base.len() as int) =~= base);
        if w == 0 || h == 0 {
            assert(data@ =~= base);
        } else {
            assert(total == level_start(w as nat, h as nat, levels));
        }
    }
    Ok(count)
}

} // verus!
