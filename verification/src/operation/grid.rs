//! Exact geometry on row-major sample grids: every output sample is a copy of one input sample
//! (or the background), so every bit of every sample is preserved.
use crate::error::{ErrorCode, PicError};
use crate::limits::ResourceLimits;
use crate::operation::geometry::{Anchor, CanvasParams, CropParams, FlipAxis, FlipParams, Interpolation, ResizeParams};
use vstd::prelude::*;

verus! {

/// How an output position maps to a source position.
#[derive(Debug, Clone, Copy, PartialEq, Eq, Structural)]
pub enum SampleMap {
    /// Source = output + offset; used by crop (offset = rectangle origin) and canvas (offset =
    /// minus the image's position on the new canvas).
    Offset { dx: i64, dy: i64 },
    FlipHorizontal,
    FlipVertical,
    Rotate180,
    /// Clockwise quarter turn: output is `height` wide and `width` tall.
    Rotate90,
    Rotate270,
    /// Mirror across the main diagonal: output is `height` wide and `width` tall.
    Transpose,
    /// Mirror across the anti-diagonal: output is `height` wide and `width` tall.
    Transverse,
    /// Nearest-neighbour resize by exact rational center mapping; ties go right/bottom.
    Nearest,
}

/// Row-major index of `(x, y)` in a grid `w` wide.
pub open spec fn idx(x: int, y: int, w: int) -> int {
    y * w + x
}

/// The (possibly outside) source position of output position `(x, y)`, for a `sw` x `sh`
/// source and a `dw` x `dh` output.
pub open spec fn source_of(m: SampleMap, sw: int, sh: int, dw: int, dh: int, x: int, y: int) -> (int, int) {
    match m {
        SampleMap::Offset { dx, dy } => (x + dx, y + dy),
        SampleMap::FlipHorizontal => (sw - 1 - x, y),
        SampleMap::FlipVertical => (x, sh - 1 - y),
        SampleMap::Rotate180 => (sw - 1 - x, sh - 1 - y),
        SampleMap::Rotate90 => (y, sh - 1 - x),
        SampleMap::Rotate270 => (sw - 1 - y, x),
        SampleMap::Transpose => (y, x),
        SampleMap::Transverse => (sw - 1 - y, sh - 1 - x),
        SampleMap::Nearest => (((2 * x + 1) * sw) / (2 * dw), ((2 * y + 1) * sh) / (2 * dh)),
    }
}

/// The output sample at `(x, y)`: the source sample it maps to, or `background` outside.
pub open spec fn sample_at<T>(
    src: Seq<T>,
    sw: int,
    sh: int,
    dw: int,
    dh: int,
    m: SampleMap,
    background: T,
    x: int,
    y: int,
) -> T {
    let (sx, sy) = source_of(m, sw, sh, dw, dh, x, y);
    if 0 <= sx < sw && 0 <= sy < sh {
        src[idx(sx, sy, sw)]
    } else {
        background
    }
}

/// `out` is the `dw` x `dh` image that `m` maps from `src`.
pub open spec fn remapped<T>(
    out: Seq<T>,
    src: Seq<T>,
    sw: int,
    sh: int,
    dw: int,
    dh: int,
    m: SampleMap,
    background: T,
) -> bool {
    &&& out.len() == dw * dh
    &&& forall|x: int, y: int|
        0 <= x < dw && 0 <= y < dh ==> #[trigger] out[idx(x, y, dw)] == sample_at(
            src,
            sw,
            sh,
            dw,
            dh,
            m,
            background,
            x,
            y,
        )
}

proof fn lemma_index_bounds(x: int, y: int, w: int, h: int)
    requires
        0 <= x < w,
        0 <= y < h,
    ensures
        0 <= idx(x, y, w) < w * h,
        idx(x, y, w) + 1 <= (y + 1) * w,
        y * w <= idx(x, y, w),
{
    assert(0 <= y * w + x < w * h) by (nonlinear_arith)
        requires
            0 <= x < w,
            0 <= y < h,
    ;
    assert((y + 1) * w == y * w + w) by (nonlinear_arith);
}

proof fn lemma_rows_before(yy: int, y: int, w: int)
    requires
        0 <= yy < y,
        w >= 0,
    ensures
        (yy + 1) * w <= y * w,
{
    assert((yy + 1) * w <= y * w) by (nonlinear_arith)
        requires
            0 <= yy < y,
            w >= 0,
    ;
}

proof fn lemma_nearest(x: int, w: int, s: int)
    requires
        0 <= x < w,
        s > 0,
    ensures
        0 <= ((2 * x + 1) * s) / (2 * w) < s,
{
    assert(0 <= (2 * x + 1) * s < 2 * w * s) by (nonlinear_arith)
        requires
            0 <= x < w,
            s > 0,
    ;
    assert(((2 * x + 1) * s) / (2 * w) < s) by (nonlinear_arith)
        requires
            0 <= (2 * x + 1) * s < 2 * w * s,
            w > 0,
    ;
    assert(0 <= ((2 * x + 1) * s) / (2 * w)) by (nonlinear_arith)
        requires
            0 <= (2 * x + 1) * s,
            w > 0,
    ;
}

/// The source position of one output position, computed exactly.
fn source_position(m: SampleMap, sw: u32, sh: u32, dw: u32, dh: u32, x: u32, y: u32) -> (r: (i64, i64))
    requires
        x < dw,
        y < dh,
        m matches SampleMap::Offset { dx, dy } ==> -0x1_0000_0000 <= dx <= 0x1_0000_0000 && -0x1_0000_0000
            <= dy <= 0x1_0000_0000,
    ensures
        (r.0 as int, r.1 as int) == source_of(m, sw as int, sh as int, dw as int, dh as int, x as int, y as int),
{
    match m {
        SampleMap::Offset { dx, dy } => (x as i64 + dx, y as i64 + dy),
        SampleMap::FlipHorizontal => (sw as i64 - 1 - x as i64, y as i64),
        SampleMap::FlipVertical => (x as i64, sh as i64 - 1 - y as i64),
        SampleMap::Rotate180 => (sw as i64 - 1 - x as i64, sh as i64 - 1 - y as i64),
        SampleMap::Rotate90 => (y as i64, sh as i64 - 1 - x as i64),
        SampleMap::Rotate270 => (sw as i64 - 1 - y as i64, x as i64),
        SampleMap::Transpose => (y as i64, x as i64),
        SampleMap::Transverse => (sw as i64 - 1 - y as i64, sh as i64 - 1 - x as i64),
        SampleMap::Nearest => {
            assert((2 * x as int + 1) * sw as int <= 0x3_ffff_ffff_0000_0000) by (nonlinear_arith)
                requires
                    0 <= x < dw <= u32::MAX,
                    0 <= sw <= u32::MAX,
            ;
            assert((2 * y as int + 1) * sh as int <= 0x3_ffff_ffff_0000_0000) by (nonlinear_arith)
                requires
                    0 <= y < dh <= u32::MAX,
                    0 <= sh <= u32::MAX,
            ;
            let nx = (2 * x as u128 + 1) * sw as u128;
            let ny = (2 * y as u128 + 1) * sh as u128;
            let ddw = 2 * dw as u128;
            let ddh = 2 * dh as u128;
            let sx = nx / ddw;
            let sy = ny / ddh;
            proof {
                if sw > 0 {
                    lemma_nearest(x as int, dw as int, sw as int);
                } else {
                    assert(nx == 0) by (nonlinear_arith)
                        requires
                            nx == (2 * x as int + 1) * sw as int,
                            sw == 0,
                    ;
                }
                if sh > 0 {
                    lemma_nearest(y as int, dh as int, sh as int);
                } else {
                    assert(ny == 0) by (nonlinear_arith)
                        requires
                            ny == (2 * y as int + 1) * sh as int,
                            sh == 0,
                    ;
                }
            }
            (sx as i64, sy as i64)
        },
    }
}

/// Build the `dw` x `dh` image that `m` maps from the `sw` x `sh` image `src`.
pub fn remap<T: Copy>(src: &Vec<T>, sw: u32, sh: u32, dw: u32, dh: u32, m: SampleMap, background: T) -> (out: Vec<T>)
    requires
        src@.len() == sw * sh,
        dw * dh <= usize::MAX,
        m matches SampleMap::Offset { dx, dy } ==> -0x1_0000_0000 <= dx <= 0x1_0000_0000 && -0x1_0000_0000
            <= dy <= 0x1_0000_0000,
    ensures
        remapped(out@, src@, sw as int, sh as int, dw as int, dh as int, m, background),
{
    let mut out: Vec<T> = Vec::new();
    let n = src.len();
    let ghost w = dw as int;
    let mut y: u32 = 0;
    while y < dh
        invariant
            src@.len() == sw * sh,
            n == src@.len(),
            dw * dh <= usize::MAX,
            w == dw as int,
            m matches SampleMap::Offset { dx, dy } ==> -0x1_0000_0000 <= dx <= 0x1_0000_0000
                && -0x1_0000_0000 <= dy <= 0x1_0000_0000,
            y <= dh,
            out@.len() == y * w,
            forall|xx: int, yy: int|
                0 <= xx < w && 0 <= yy < y ==> #[trigger] out@[idx(xx, yy, w)] == sample_at(
                    src@,
                    sw as int,
                    sh as int,
                    dw as int,
                    dh as int,
                    m,
                    background,
                    xx,
                    yy,
                ),
        decreases dh - y,
    {
        let mut x: u32 = 0;
        while x < dw
            invariant
                src@.len() == sw * sh,
                n == src@.len(),
                dw * dh <= usize::MAX,
                w == dw as int,
                m matches SampleMap::Offset { dx, dy } ==> -0x1_0000_0000 <= dx <= 0x1_0000_0000
                    && -0x1_0000_0000 <= dy <= 0x1_0000_0000,
                y < dh,
                x <= dw,
                out@.len() == y * w + x,
                forall|xx: int, yy: int|
                    0 <= xx < w && 0 <= yy < y ==> #[trigger] out@[idx(xx, yy, w)] == sample_at(
                        src@,
                        sw as int,
                        sh as int,
                        dw as int,
                        dh as int,
                        m,
                        background,
                        xx,
                        yy,
                    ),
                forall|xx: int|
                    0 <= xx < x ==> #[trigger] out@[idx(xx, y as int, w)] == sample_at(
                        src@,
                        sw as int,
                        sh as int,
                        dw as int,
                        dh as int,
                        m,
                        background,
                        xx,
                        y as int,
                    ),
            decreases dw - x,
        {
            proof {
                lemma_index_bounds(x as int, y as int, w, dh as int);
            }
            let (sx, sy) = source_position(m, sw, sh, dw, dh, x, y);
            let value = if 0 <= sx && sx < sw as i64 && 0 <= sy && sy < sh as i64 {
                proof {
                    lemma_index_bounds(sx as int, sy as int, sw as int, sh as int);
                }
                src[(sy as usize) * (sw as usize) + sx as usize]
            } else {
                background
            };
            let ghost before = out@;
            out.push(value);
            proof {
                assert forall|xx: int, yy: int|
                    0 <= xx < w && 0 <= yy < y implies #[trigger] out@[idx(xx, yy, w)] == sample_at(
                    src@,
                    sw as int,
                    sh as int,
                    dw as int,
                    dh as int,
                    m,
                    background,
                    xx,
                    yy,
                ) by {
                    lemma_index_bounds(xx, yy, w, dh as int);
                    lemma_rows_before(yy, y as int, w);
                    assert(out@[idx(xx, yy, w)] == before[idx(xx, yy, w)]);
                }
                assert forall|xx: int| 0 <= xx < x + 1 implies #[trigger] out@[idx(xx, y as int, w)]
                    == sample_at(src@, sw as int, sh as int, dw as int, dh as int, m, background, xx, y as int) by {
                    if xx < x {
                        assert(out@[idx(xx, y as int, w)] == before[idx(xx, y as int, w)]);
                    }
                }
            }
            x += 1;
        }
        proof {
            assert((y + 1) * w == y * w + w) by (nonlinear_arith);
            assert forall|xx: int, yy: int|
                0 <= xx < w && 0 <= yy < y + 1 implies #[trigger] out@[idx(xx, yy, w)] == sample_at(
                src@,
                sw as int,
                sh as int,
                dw as int,
                dh as int,
                m,
                background,
                xx,
                yy,
            ) by {
                if yy == y {
                } else {
                }
            }
        }
        y += 1;
    }
    assert(dh * w == dw * dh) by (nonlinear_arith)
        requires
            w == dw as int,
    ;
    out
}

/// An exact copy of `src`.
pub fn copy_samples<T: Copy>(src: &Vec<T>) -> (out: Vec<T>)
    ensures
        out@ == src@,
{
    let mut out: Vec<T> = Vec::new();
    let mut i: usize = 0;
    while i < src.len()
        invariant
            i <= src@.len(),
            out@ == src@.take(i as int),
        decreases src@.len() - i,
    {
        out.push(src[i]);
        assert(src@.take(i + 1) =~= src@.take(i as int).push(src@[i as int]));
        i += 1;
    }
    assert(src@.take(src@.len() as int) =~= src@);
    out
}

/// Bytes of `counts` RGBA32F buffers (16 bytes per sample) plus `extra` scratch bytes.
pub open spec fn buffer_bytes(counts: Seq<u64>, extra: u64) -> int
    decreases counts.len(),
{
    if counts.len() == 0 {
        extra as int
    } else {
        buffer_bytes(counts.drop_last(), extra) + 16 * counts.last()
    }
}

/// Simultaneously live source, destination and scratch buffers must fit the buffer budget
/// and the address space.
pub fn buffers(limits: &ResourceLimits, counts: &[u64], extra: u64) -> (r: Result<(), PicError>)
    ensures
        r is Ok <==> buffer_bytes(counts@, extra) <= limits.max_buffer_bytes && buffer_bytes(counts@, extra)
            <= usize::MAX,
        r matches Err(e) ==> e.code == ErrorCode::ResourceLimit,
{
    let mut total: u64 = extra;
    let mut ok = true;
    let mut i: usize = 0;
    while i < counts.len()
        invariant
            i <= counts@.len(),
            ok ==> total == buffer_bytes(counts@.take(i as int), extra),
            !ok ==> buffer_bytes(counts@.take(i as int), extra) > u64::MAX,
        decreases counts@.len() - i,
    {
        assert(counts@.take(i + 1).drop_last() =~= counts@.take(i as int));
        if ok {
            match counts[i].checked_mul(16) {
                Some(bytes) => match total.checked_add(bytes) {
                    Some(sum) => total = sum,
                    None => ok = false,
                },
                None => ok = false,
            }
        }
        proof {
            lemma_buffer_bytes_grow(counts@.take(i as int), extra);
        }
        i += 1;
    }
    assert(counts@.take(counts@.len() as int) =~= counts@);
    proof {
        lemma_buffer_bytes_grow(counts@, extra);
    }
    if !ok || total > limits.max_buffer_bytes || total as u128 > usize::MAX as u128 {
        return Err(PicError::new(
            ErrorCode::ResourceLimit,
            "geometry buffers exceed memory or address-space limit",
        ));
    }
    Ok(())
}

proof fn lemma_buffer_bytes_grow(counts: Seq<u64>, extra: u64)
    ensures
        buffer_bytes(counts, extra) >= extra,
    decreases counts.len(),
{
    if counts.len() > 0 {
        lemma_buffer_bytes_grow(counts.drop_last(), extra);
    }
}

/// Why producing a `dw` x `dh` image from `source_len` samples is refused, if it is.
pub open spec fn mapped_refusal(limits: ResourceLimits, source_len: nat, dw: u32, dh: u32) -> Option<ErrorCode> {
    match limits.dimensions_refusal(dw, dh) {
        Some(code) => Some(code),
        None => if buffer_bytes(seq![source_len as u64, (dw * dh) as u64], 0) <= limits.max_buffer_bytes
            && buffer_bytes(seq![source_len as u64, (dw * dh) as u64], 0) <= usize::MAX {
            None
        } else {
            Some(ErrorCode::ResourceLimit)
        },
    }
}

/// Admit the output size and both live buffers, then map the samples.
fn mapped<T: Copy>(
    src: &Vec<T>,
    sw: u32,
    sh: u32,
    dw: u32,
    dh: u32,
    m: SampleMap,
    background: T,
    limits: &ResourceLimits,
) -> (r: Result<Vec<T>, PicError>)
    requires
        src@.len() == sw * sh,
        m matches SampleMap::Offset { dx, dy } ==> -0x1_0000_0000 <= dx <= 0x1_0000_0000 && -0x1_0000_0000
            <= dy <= 0x1_0000_0000,
    ensures
        match r {
            Ok(out) => mapped_refusal(*limits, src@.len(), dw, dh) is None && remapped(
                out@,
                src@,
                sw as int,
                sh as int,
                dw as int,
                dh as int,
                m,
                background,
            ),
            Err(e) => mapped_refusal(*limits, src@.len(), dw, dh) == Some(e.code),
        },
{
    let count = limits.check_dimensions(dw, dh)?;
    let counts = [src.len() as u64, count as u64];
    assert(counts@ =~= seq![src@.len() as u64, (dw * dh) as u64]);
    buffers(limits, &counts, 0)?;
    Ok(remap(src, sw, sh, dw, dh, m, background))
}

/// Copy the rectangle `p` out of a `width` x `height` image.
pub fn crop<T: Copy>(src: &Vec<T>, width: u32, height: u32, p: &CropParams, limits: &ResourceLimits) -> (r: Result<
    Vec<T>,
    PicError,
>)
    requires
        src@.len() == width * height,
        p.valid(),
    ensures
        match r {
            Ok(out) => p.inside(width, height) && mapped_refusal(*limits, src@.len(), p.width, p.height) is None
                && remapped(out@, src@, width as int, height as int, p.width as int, p.height as int,
                SampleMap::Offset { dx: p.x as i64, dy: p.y as i64 }, src@[0]),
            Err(e) => if !p.inside(width, height) {
                e.code == ErrorCode::InvalidArgument
            } else {
                mapped_refusal(*limits, src@.len(), p.width, p.height) == Some(e.code)
            },
        },
{
    if p.x + p.width > width || p.y + p.height > height {
        return Err(PicError::new(
            ErrorCode::InvalidArgument,
            "crop rectangle must lie entirely inside the current canvas",
        ));
    }
    assert(width * height >= 1) by (nonlinear_arith)
        requires
            width >= p.x + p.width,
            p.width >= 1,
            height >= p.y + p.height,
            p.height >= 1,
    ;
    mapped(src, width, height, p.width, p.height, SampleMap::Offset { dx: p.x as i64, dy: p.y as i64 }, src[0], limits)
}

/// Mirror a `width` x `height` image left-right or top-bottom.
pub fn flip<T: Copy>(src: &Vec<T>, width: u32, height: u32, p: &FlipParams, limits: &ResourceLimits) -> (r: Result<
    Vec<T>,
    PicError,
>)
    requires
        src@.len() == width * height,
        width * height >= 1,
    ensures
        match r {
            Ok(out) => mapped_refusal(*limits, src@.len(), width, height) is None && remapped(
                out@,
                src@,
                width as int,
                height as int,
                width as int,
                height as int,
                flip_map(p.axis),
                src@[0],
            ),
            Err(e) => mapped_refusal(*limits, src@.len(), width, height) == Some(e.code),
        },
{
    let m = match p.axis {
        FlipAxis::Horizontal => SampleMap::FlipHorizontal,
        FlipAxis::Vertical => SampleMap::FlipVertical,
    };
    mapped(src, width, height, width, height, m, src[0], limits)
}

pub open spec fn flip_map(axis: FlipAxis) -> SampleMap {
    match axis {
        FlipAxis::Horizontal => SampleMap::FlipHorizontal,
        FlipAxis::Vertical => SampleMap::FlipVertical,
    }
}

/// The offset that places the current image on a `p.width` x `p.height` canvas.
pub open spec fn canvas_offset(p: CanvasParams, width: u32, height: u32) -> (int, int) {
    let dx = p.width - width;
    let dy = p.height - height;
    (match p.anchor {
        Anchor::TopLeft | Anchor::Left | Anchor::BottomLeft => 0,
        Anchor::Top | Anchor::Center | Anchor::Bottom => dx / 2,
        _ => dx,
    }, match p.anchor {
        Anchor::TopLeft | Anchor::Top | Anchor::TopRight => 0,
        Anchor::Left | Anchor::Center | Anchor::Right => dy / 2,
        _ => dy,
    })
}

/// Place a `width` x `height` image on a `p.width` x `p.height` canvas at the anchor,
/// padding with `background` and clipping what falls outside.
pub fn canvas<T: Copy>(
    src: &Vec<T>,
    width: u32,
    height: u32,
    p: &CanvasParams,
    background: T,
    limits: &ResourceLimits,
) -> (r: Result<Vec<T>, PicError>)
    requires
        src@.len() == width * height,
    ensures
        match r {
            Ok(out) => mapped_refusal(*limits, src@.len(), p.width, p.height) is None && remapped(
                out@,
                src@,
                width as int,
                height as int,
                p.width as int,
                p.height as int,
                SampleMap::Offset {
                    dx: (-canvas_offset(*p, width, height).0) as i64,
                    dy: (-canvas_offset(*p, width, height).1) as i64,
                },
                background,
            ),
            Err(e) => mapped_refusal(*limits, src@.len(), p.width, p.height) == Some(e.code),
        },
{
    let dx = p.width as i64 - width as i64;
    let dy = p.height as i64 - height as i64;
    let (left, top) = p.anchor.offset(dx, dy);
    mapped(src, width, height, p.width, p.height, SampleMap::Offset { dx: -left, dy: -top }, background, limits)
}

/// The result of resizing: unchanged, exactly sampled, or (bilinear) to be filtered at the
/// admitted size.
#[derive(Debug)]
pub enum Resized<T> {
    Unchanged,
    Sampled { width: u32, height: u32, samples: Vec<T> },
    Filter { width: u32, height: u32 },
}

/// Why resizing a `width` x `height` image of `source_len` samples by `p` is refused, if it
/// is: the parameters and input size must be valid, the output size must fit `u32` and be
/// admissible, and nearest sampling must fit both of its buffers.
pub open spec fn resize_refusal(p: ResizeParams, width: u32, height: u32, source_len: nat, limits: ResourceLimits) -> Option<
    ErrorCode,
> {
    if !p.valid() || width == 0 || height == 0 {
        Some(ErrorCode::InvalidArgument)
    } else if p.output_size(width, height).0 > u32::MAX || p.output_size(width, height).1 > u32::MAX {
        Some(ErrorCode::ResourceLimit)
    } else {
        let w = p.output_size(width, height).0 as u32;
        let h = p.output_size(width, height).1 as u32;
        if limits.dimensions_refusal(w, h) is Some {
            limits.dimensions_refusal(w, h)
        } else if (w == width && h == height) || p.filter == Interpolation::Bilinear {
            None
        } else {
            mapped_refusal(limits, source_len, w, h)
        }
    }
}

/// Resize a `width` x `height` image: the output size follows `p.dimensions`; the same size
/// keeps the image; nearest sampling maps exact pixel centers; bilinear filtering is left to
/// the caller at the admitted size.
pub fn resize<T: Copy>(src: &Vec<T>, width: u32, height: u32, p: &ResizeParams, limits: &ResourceLimits) -> (r: Result<
    Resized<T>,
    PicError,
>)
    requires
        src@.len() == width * height,
    ensures
        match r {
            Ok(Resized::Unchanged) => p.valid() && width > 0 && height > 0 && p.output_size(width, height) == (
            width as nat, height as nat) && limits.dimensions_refusal(width, height) is None,
            Ok(Resized::Sampled { width: w, height: h, samples }) => p.valid() && width > 0 && height > 0
                && p.output_size(width, height) == (w as nat, h as nat) && p.filter == Interpolation::Nearest
                && (w, h) != (width, height) && mapped_refusal(*limits, src@.len(), w, h) is None && remapped(
                samples@,
                src@,
                width as int,
                height as int,
                w as int,
                h as int,
                SampleMap::Nearest,
                src@[0],
            ),
            Ok(Resized::Filter { width: w, height: h }) => p.valid() && width > 0 && height > 0
                && p.output_size(width, height) == (w as nat, h as nat) && p.filter == Interpolation::Bilinear
                && (w, h) != (width, height) && limits.dimensions_refusal(w, h) is None,
            Err(e) => resize_refusal(*p, width, height, src@.len(), *limits) == Some(e.code),
        },
        r is Ok <==> resize_refusal(*p, width, height, src@.len(), *limits) is None,
{
    let (w, h) = p.dimensions(width, height)?;
    limits.check_dimensions(w, h)?;
    if w == width && h == height {
        return Ok(Resized::Unchanged);
    }
    match p.filter {
        Interpolation::Nearest => {
            assert(width * height >= 1) by (nonlinear_arith)
                requires
                    width >= 1,
                    height >= 1,
            ;
            let samples = mapped(src, width, height, w, h, SampleMap::Nearest, src[0], limits)?;
            Ok(Resized::Sampled { width: w, height: h, samples })
        },
        Interpolation::Bilinear => Ok(Resized::Filter { width: w, height: h }),
    }
}

/// Buffers live during a bilinear resize from `sw` x `sh` to `dw` x `dh`: premultiplied
/// source copy, source, destination, the larger intermediate pass, and coefficient tables.
pub fn bilinear_buffers(limits: &ResourceLimits, sw: u32, sh: u32, dw: u32, dh: u32) -> (r: Result<(), PicError>)
    ensures
        ({
            let source = (sw * sh) as u64;
            let scratch = if dw * sh >= sw * dh { (dw * sh) as u64 } else { (sw * dh) as u64 };
            let coefficients = (64 * (dw + dh + sw + sh) + 16) as u64;
            let b = buffer_bytes(seq![source, source, (dw * dh) as u64, scratch], coefficients);
            r is Ok <==> b <= limits.max_buffer_bytes && b <= usize::MAX
        }),
        r matches Err(e) ==> e.code == ErrorCode::ResourceLimit,
{
    assert((sw as int) * (sh as int) <= 0xffff_fffe_0000_0001) by (nonlinear_arith)
        requires 0 <= sw <= u32::MAX, 0 <= sh <= u32::MAX;
    assert((dw as int) * (dh as int) <= 0xffff_fffe_0000_0001) by (nonlinear_arith)
        requires 0 <= dw <= u32::MAX, 0 <= dh <= u32::MAX;
    assert((dw as int) * (sh as int) <= 0xffff_fffe_0000_0001) by (nonlinear_arith)
        requires 0 <= dw <= u32::MAX, 0 <= sh <= u32::MAX;
    assert((sw as int) * (dh as int) <= 0xffff_fffe_0000_0001) by (nonlinear_arith)
        requires 0 <= sw <= u32::MAX, 0 <= dh <= u32::MAX;
    let source = sw as u64 * sh as u64;
    let across = dw as u64 * sh as u64;
    let down = sw as u64 * dh as u64;
    let scratch = if across >= down { across } else { down };
    let coefficients = 64 * (dw as u64 + dh as u64 + sw as u64 + sh as u64) + 16;
    let counts = [source, source, dw as u64 * dh as u64, scratch];
    assert(counts@ =~= seq![source, source, (dw * dh) as u64, scratch]);
    buffers(limits, &counts, coefficients)
}

/// Turn a `width` x `height` image by `quarter_turns` clockwise quarter turns (0..=3) when
/// that is exact: a half turn always is; a quarter turn is when the canvas expands to the
/// turned size or the image is square. `None` asks the caller to resample.
pub fn rotate_orthogonal<T: Copy>(
    src: &Vec<T>,
    width: u32,
    height: u32,
    quarter_turns: u32,
    expand: bool,
    limits: &ResourceLimits,
) -> (r: Result<Option<(u32, u32, Vec<T>)>, PicError>)
    requires
        src@.len() == width * height,
        width * height >= 1,
        quarter_turns < 4,
    ensures
        match r {
            Ok(Some((w, h, out))) => if quarter_turns == 0 {
                w == width && h == height && out@ == src@
            } else if quarter_turns == 2 {
                w == width && h == height && remapped(out@, src@, width as int, height as int, w as int, h as int, SampleMap::Rotate180, src@[0])
            } else {
                (expand || width == height) && w == height && h == width && remapped(
                    out@,
                    src@,
                    width as int,
                    height as int,
                    w as int,
                    h as int,
                    if quarter_turns == 1 { SampleMap::Rotate90 } else { SampleMap::Rotate270 },
                    src@[0],
                )
            },
            Ok(None) => (quarter_turns == 1 || quarter_turns == 3) && !expand && width != height,
            Err(e) => quarter_turns != 0 && (quarter_turns == 2 || expand || width == height) && Some(e.code)
                == rotation_refusal(width, height, quarter_turns, src@.len(), *limits),
        },
        r is Err <==> quarter_turns != 0 && (quarter_turns == 2 || expand || width == height)
            && rotation_refusal(width, height, quarter_turns, src@.len(), *limits) is Some,
        quarter_turns == 1 ==> (r matches Ok(Some((w, h, out))) ==> forall|x: int, y: int|
            0 <= x < width && 0 <= y < height ==> out@[idx(height - 1 - y, x, height as int)]
                == #[trigger] src@[idx(x, y, width as int)]),
        quarter_turns == 2 ==> (r matches Ok(Some((w, h, out))) ==> forall|x: int, y: int|
            0 <= x < width && 0 <= y < height ==> out@[idx(width - 1 - x, height - 1 - y, width as int)]
                == #[trigger] src@[idx(x, y, width as int)]),
        quarter_turns == 3 ==> (r matches Ok(Some((w, h, out))) ==> forall|x: int, y: int|
            0 <= x < width && 0 <= y < height ==> out@[idx(y, width - 1 - x, height as int)]
                == #[trigger] src@[idx(x, y, width as int)]),
{
    if quarter_turns == 0 {
        return Ok(Some((width, height, copy_samples(src))));
    }
    if quarter_turns == 2 {
        let out = mapped(src, width, height, width, height, SampleMap::Rotate180, src[0], limits)?;
        proof {
            half_turn_positions(src@, out@, width as int, height as int, src@[0]);
        }
        return Ok(Some((width, height, out)));
    }
    if expand || width == height {
        let m = if quarter_turns == 1 { SampleMap::Rotate90 } else { SampleMap::Rotate270 };
        let out = mapped(src, width, height, height, width, m, src[0], limits)?;
        proof {
            if quarter_turns == 1 {
                clockwise_quarter_turn_positions(src@, out@, width as int, height as int, src@[0]);
            } else {
                counter_clockwise_quarter_turn_positions(src@, out@, width as int, height as int, src@[0]);
            }
        }
        return Ok(Some((height, width, out)));
    }
    Ok(None)
}

/// Why the buffers of turning a `width` x `height` image by `quarter_turns` are refused:
/// a half turn keeps the size, a quarter turn swaps it.
pub open spec fn rotation_refusal(width: u32, height: u32, quarter_turns: u32, source_len: nat, limits: ResourceLimits) -> Option<
    ErrorCode,
> {
    if quarter_turns == 2 {
        mapped_refusal(limits, source_len, width, height)
    } else {
        mapped_refusal(limits, source_len, height, width)
    }
}

/// Two `w` x `h` grids that agree at every position are equal.
proof fn lemma_grid_ext<T>(s: Seq<T>, t: Seq<T>, w: int, h: int)
    requires
        w > 0,
        s.len() == w * h,
        t.len() == w * h,
        forall|x: int, y: int| 0 <= x < w && 0 <= y < h ==> s[idx(x, y, w)] == t[idx(x, y, w)],
    ensures
        s == t,
{
    assert forall|i: int| 0 <= i < s.len() implies s[i] == t[i] by {
        let x = i % w;
        let y = i / w;
        assert(i == y * w + x && 0 <= x < w) by (nonlinear_arith)
            requires
                w > 0,
                x == i % w,
                y == i / w,
        ;
        assert(0 <= y < h) by (nonlinear_arith)
            requires
                i == y * w + x,
                0 <= x < w,
                0 <= i < w * h,
        ;
        assert(s[idx(x, y, w)] == t[idx(x, y, w)]);
    }
    assert(s =~= t);
}

/// Flipping twice along the same axis restores the image, bit for bit.
pub proof fn flip_twice_restores<T>(src: Seq<T>, once: Seq<T>, twice: Seq<T>, w: int, h: int, axis: FlipAxis, bg1: T, bg2: T)
    requires
        w > 0,
        h > 0,
        src.len() == w * h,
        remapped(once, src, w, h, w, h, flip_map(axis), bg1),
        remapped(twice, once, w, h, w, h, flip_map(axis), bg2),
    ensures
        twice == src,
{
    assert forall|x: int, y: int| 0 <= x < w && 0 <= y < h implies twice[idx(x, y, w)] == src[idx(x, y, w)] by {
        let (sx, sy) = source_of(flip_map(axis), w, h, w, h, x, y);
        assert(once[idx(sx, sy, w)] == sample_at(src, w, h, w, h, flip_map(axis), bg1, sx, sy));
    }
    lemma_grid_ext(twice, src, w, h);
}

/// Two half turns restore the image, bit for bit.
pub proof fn half_turn_twice_restores<T>(src: Seq<T>, once: Seq<T>, twice: Seq<T>, w: int, h: int, bg1: T, bg2: T)
    requires
        w > 0,
        h > 0,
        src.len() == w * h,
        remapped(once, src, w, h, w, h, SampleMap::Rotate180, bg1),
        remapped(twice, once, w, h, w, h, SampleMap::Rotate180, bg2),
    ensures
        twice == src,
{
    assert forall|x: int, y: int| 0 <= x < w && 0 <= y < h implies twice[idx(x, y, w)] == src[idx(x, y, w)] by {
        assert(once[idx(w - 1 - x, h - 1 - y, w)] == sample_at(src, w, h, w, h, SampleMap::Rotate180, bg1, w - 1 - x, h - 1 - y));
    }
    lemma_grid_ext(twice, src, w, h);
}

/// A clockwise quarter turn followed by a counter-clockwise one restores the image.
pub proof fn quarter_turn_back_restores<T>(src: Seq<T>, once: Seq<T>, twice: Seq<T>, w: int, h: int, bg1: T, bg2: T)
    requires
        w > 0,
        h > 0,
        src.len() == w * h,
        remapped(once, src, w, h, h, w, SampleMap::Rotate90, bg1),
        remapped(twice, once, h, w, w, h, SampleMap::Rotate270, bg2),
    ensures
        twice == src,
{
    assert forall|x: int, y: int| 0 <= x < w && 0 <= y < h implies twice[idx(x, y, w)] == src[idx(x, y, w)] by {
        // twice(x, y) = once(h - 1 - y, x) = src(x, h - 1 - (h - 1 - y)).
        assert(once[idx(h - 1 - y, x, h)] == sample_at(src, w, h, h, w, SampleMap::Rotate90, bg1, h - 1 - y, x));
    }
    lemma_grid_ext(twice, src, w, h);
}

/// Cropping the whole canvas copies the image unchanged.
pub proof fn full_crop_is_identity<T>(src: Seq<T>, out: Seq<T>, w: int, h: int, bg: T)
    requires
        w > 0,
        h > 0,
        src.len() == w * h,
        remapped(out, src, w, h, w, h, SampleMap::Offset { dx: 0, dy: 0 }, bg),
    ensures
        out == src,
{
    lemma_grid_ext(out, src, w, h);
}

/// A clockwise quarter turn of a `w` x `h` image (square or not) puts source pixel `(x, y)`
/// at output `(h - 1 - y, x)` of the `h` x `w` result.
pub proof fn clockwise_quarter_turn_positions<T>(src: Seq<T>, out: Seq<T>, w: int, h: int, bg: T)
    requires
        w > 0,
        h > 0,
        src.len() == w * h,
        remapped(out, src, w, h, h, w, SampleMap::Rotate90, bg),
    ensures
        forall|x: int, y: int|
            0 <= x < w && 0 <= y < h ==> out[idx(h - 1 - y, x, h)] == #[trigger] src[idx(x, y, w)],
{
    assert forall|x: int, y: int| 0 <= x < w && 0 <= y < h implies out[idx(h - 1 - y, x, h)] == #[trigger] src[idx(
        x,
        y,
        w,
    )] by {
        assert(out[idx(h - 1 - y, x, h)] == sample_at(src, w, h, h, w, SampleMap::Rotate90, bg, h - 1 - y, x));
    }
}

/// A counter-clockwise quarter turn of a `w` x `h` image puts source pixel `(x, y)` at
/// output `(y, w - 1 - x)` of the `h` x `w` result.
pub proof fn counter_clockwise_quarter_turn_positions<T>(src: Seq<T>, out: Seq<T>, w: int, h: int, bg: T)
    requires
        w > 0,
        h > 0,
        src.len() == w * h,
        remapped(out, src, w, h, h, w, SampleMap::Rotate270, bg),
    ensures
        forall|x: int, y: int|
            0 <= x < w && 0 <= y < h ==> out[idx(y, w - 1 - x, h)] == #[trigger] src[idx(x, y, w)],
{
    assert forall|x: int, y: int| 0 <= x < w && 0 <= y < h implies out[idx(y, w - 1 - x, h)] == #[trigger] src[idx(
        x,
        y,
        w,
    )] by {
        assert(out[idx(y, w - 1 - x, h)] == sample_at(src, w, h, h, w, SampleMap::Rotate270, bg, y, w - 1 - x));
    }
}

/// A half turn of a `w` x `h` image puts source pixel `(x, y)` at output
/// `(w - 1 - x, h - 1 - y)`.
pub proof fn half_turn_positions<T>(src: Seq<T>, out: Seq<T>, w: int, h: int, bg: T)
    requires
        w > 0,
        h > 0,
        src.len() == w * h,
        remapped(out, src, w, h, w, h, SampleMap::Rotate180, bg),
    ensures
        forall|x: int, y: int|
            0 <= x < w && 0 <= y < h ==> out[idx(w - 1 - x, h - 1 - y, w)] == #[trigger] src[idx(x, y, w)],
{
    assert forall|x: int, y: int| 0 <= x < w && 0 <= y < h implies out[idx(w - 1 - x, h - 1 - y, w)]
        == #[trigger] src[idx(x, y, w)] by {
        assert(out[idx(w - 1 - x, h - 1 - y, w)] == sample_at(
            src,
            w,
            h,
            w,
            h,
            SampleMap::Rotate180,
            bg,
            w - 1 - x,
            h - 1 - y,
        ));
    }
}

/// A flip mirrors the image across its vertical axis (horizontal flip) or its horizontal
/// axis (vertical flip): source pixel `(x, y)` goes to `(w - 1 - x, y)` or `(x, h - 1 - y)`.
pub proof fn flip_positions<T>(src: Seq<T>, out: Seq<T>, w: int, h: int, axis: FlipAxis, bg: T)
    requires
        w > 0,
        h > 0,
        src.len() == w * h,
        remapped(out, src, w, h, w, h, flip_map(axis), bg),
    ensures
        axis == FlipAxis::Horizontal ==> forall|x: int, y: int|
            0 <= x < w && 0 <= y < h ==> out[idx(w - 1 - x, y, w)] == #[trigger] src[idx(x, y, w)],
        axis == FlipAxis::Vertical ==> forall|x: int, y: int|
            0 <= x < w && 0 <= y < h ==> out[idx(x, h - 1 - y, w)] == #[trigger] src[idx(x, y, w)],
{
    assert forall|x: int, y: int| 0 <= x < w && 0 <= y < h && axis == FlipAxis::Horizontal implies out[idx(
        w - 1 - x,
        y,
        w,
    )] == #[trigger] src[idx(x, y, w)] by {
        assert(out[idx(w - 1 - x, y, w)] == sample_at(src, w, h, w, h, flip_map(axis), bg, w - 1 - x, y));
    }
    assert forall|x: int, y: int| 0 <= x < w && 0 <= y < h && axis == FlipAxis::Vertical implies out[idx(
        x,
        h - 1 - y,
        w,
    )] == #[trigger] src[idx(x, y, w)] by {
        assert(out[idx(x, h - 1 - y, w)] == sample_at(src, w, h, w, h, flip_map(axis), bg, x, h - 1 - y));
    }
}

} // verus!
