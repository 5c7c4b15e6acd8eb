//! Disposable derived snapshots on disk: a magic, the cache key, the payload and a trailing
//! SHA-256 of everything before it. Flat snapshots hold one raster; document snapshots hold
//! JSON editing metadata followed by length-prefixed rasters. Pixel samples are exact
//! little-endian `f32` bits, which this module carries as opaque bytes.
use crate::error::{ErrorCode, PicError};
use crate::limits::ResourceLimits;
use crate::project::cache::{ImageSize, OVERHEAD};
use crate::project::storage::{sha256, sha256_digest};
use vstd::prelude::*;
use vstd::string::*;

verus! {

/// Bytes of one stored pixel: four little-endian `f32` samples.
pub const PIXEL_BYTES: usize = 16;

pub open spec fn flat_magic() -> Seq<u8> {
    seq![80u8, 73u8, 67u8, 70u8, 76u8, 84u8, 48u8, 49u8]
}

pub open spec fn document_magic() -> Seq<u8> {
    seq![80u8, 73u8, 67u8, 68u8, 79u8, 67u8, 48u8, 51u8]
}

pub open spec fn le32_bytes(v: u32) -> Seq<u8> {
    seq![(v & 0xff) as u8, ((v >> 8u32) & 0xff) as u8, ((v >> 16u32) & 0xff) as u8, (v >> 24u32) as u8]
}

/// The little-endian 32-bit value at `at`.
pub open spec fn le32_at(b: Seq<u8>, at: int) -> nat {
    (b[at] as nat) + (b[at + 1] as nat) * 0x100 + (b[at + 2] as nat) * 0x1_0000 + (b[at + 3] as nat)
        * 0x100_0000
}

/// The little-endian 64-bit value at `at`.
pub open spec fn le64_at(b: Seq<u8>, at: int) -> nat {
    le32_at(b, at) + le32_at(b, at + 4) * 0x1_0000_0000
}

pub proof fn lemma_le32_round_trip(v: u32)
    ensures
        le32_at(le32_bytes(v), 0) == v,
{
    let b = le32_bytes(v);
    assert((v & 0xff) < 256 && ((v >> 8u32) & 0xff) < 256 && ((v >> 16u32) & 0xff) < 256 && (v
        >> 24u32) < 256) by (bit_vector);
    assert((v & 0xff) + ((v >> 8u32) & 0xff) * 0x100 + ((v >> 16u32) & 0xff) * 0x1_0000 + (v >> 24u32)
        * 0x100_0000 == v) by (bit_vector);
    assert(b[0] as nat == (v & 0xff));
    assert(b[1] as nat == ((v >> 8u32) & 0xff));
    assert(b[2] as nat == ((v >> 16u32) & 0xff));
    assert(b[3] as nat == (v >> 24u32));
}

/// Everything a flat snapshot seals: magic, key, canvas and raster dimensions, pixel bytes.
pub open spec fn flat_body(key: Seq<u8>, canvas: ImageSize, width: u32, height: u32, pixels: Seq<u8>) -> Seq<
    u8,
> {
    flat_magic() + key + le32_bytes(canvas.width) + le32_bytes(canvas.height) + le32_bytes(width)
        + le32_bytes(height) + pixels
}

/// `body` followed by its SHA-256.
pub open spec fn sealed_bytes(body: Seq<u8>) -> Seq<u8> {
    body + sha256(body)@
}

pub open spec fn flat_snapshot(key: Seq<u8>, canvas: ImageSize, width: u32, height: u32, pixels: Seq<u8>) -> Seq<
    u8,
> {
    sealed_bytes(flat_body(key, canvas, width, height, pixels))
}

/// The file is long enough, carries a known magic and `key`, and its trailing 32 bytes are
/// the SHA-256 of the rest.
pub open spec fn intact(key: Seq<u8>, bytes: Seq<u8>) -> bool {
    &&& bytes.len() >= OVERHEAD
    &&& (bytes.subrange(0, 8) == flat_magic() || bytes.subrange(0, 8) == document_magic())
    &&& bytes.subrange(8, 72) == key
    &&& sha256(bytes.subrange(0, bytes.len() - 32))@ == bytes.subrange(bytes.len() - 32, bytes.len() as int)
}

/// What a snapshot file holds, once its header and checksum are checked.
#[derive(Debug, Clone, Copy, PartialEq, Eq)]
pub enum SnapshotFrame {
    /// One raster of `width` x `height` pixels, stored at bytes `88..len - 32`, for a canvas
    /// of `canvas`.
    Flat { canvas: ImageSize, width: u32, height: u32 },
    /// A document snapshot: its body is every byte but the trailing checksum.
    Document,
}

/// What reading `bytes` as the snapshot for `key` gives: the frame, or the code of the
/// first failed check.
pub open spec fn frame_of(key: Seq<u8>, bytes: Seq<u8>, limits: ResourceLimits) -> Result<SnapshotFrame, ErrorCode> {
    if !intact(key, bytes) {
        Err(ErrorCode::InvalidProject)
    } else if bytes.subrange(0, 8) == document_magic() {
        Ok(SnapshotFrame::Document)
    } else {
        let canvas = ImageSize { width: le32_at(bytes, 72) as u32, height: le32_at(bytes, 76) as u32 };
        let width = le32_at(bytes, 80) as u32;
        let height = le32_at(bytes, 84) as u32;
        match limits.dimensions_refusal(canvas.width, canvas.height) {
            Some(c) => Err(c),
            None => match limits.dimensions_refusal(width, height) {
                Some(c) => Err(c),
                None => if bytes.len() != width * height * 16 + OVERHEAD {
                    Err(ErrorCode::InvalidProject)
                } else {
                    Ok(SnapshotFrame::Flat { canvas, width, height })
                },
            },
        }
    }
}

fn invalid<T>(message: &str) -> (r: Result<T, PicError>)
    ensures
        r matches Err(e) && e.code == ErrorCode::InvalidProject,
{
    Err(PicError::new(ErrorCode::InvalidProject, message))
}

fn read_le32(b: &[u8], at: usize) -> (v: u32)
    requires
        at + 4 <= b@.len(),
    ensures
        v == le32_at(b@, at as int),
{
    b[at] as u32 + b[at + 1] as u32 * 0x100 + b[at + 2] as u32 * 0x1_0000 + b[at + 3] as u32 * 0x100_0000
}

fn push_le32(out: &mut Vec<u8>, v: u32)
    ensures
        final(out)@ == old(out)@ + le32_bytes(v),
{
    out.push((v & 0xff) as u8);
    out.push(((v >> 8u32) & 0xff) as u8);
    out.push(((v >> 16u32) & 0xff) as u8);
    out.push((v >> 24u32) as u8);
    assert(final(out)@ =~= old(out)@ + le32_bytes(v));
}

fn push_bytes(out: &mut Vec<u8>, bytes: &[u8])
    ensures
        final(out)@ == old(out)@ + bytes@,
{
    let mut i: usize = 0;
    while i < bytes.len()
        invariant
            i <= bytes@.len(),
            out@ == old(out)@ + bytes@.subrange(0, i as int),
        decreases bytes@.len() - i,
    {
        out.push(bytes[i]);
        i += 1;
        assert(out@ =~= old(out)@ + bytes@.subrange(0, i as int));
    }
    assert(bytes@.subrange(0, bytes@.len() as int) =~= bytes@);
}

fn same_bytes(a: &[u8], b: &[u8]) -> (r: bool)
    ensures
        r == (a@ == b@),
{
    if a.len() != b.len() {
        return false;
    }
    let mut i: usize = 0;
    while i < a.len()
        invariant
            a@.len() == b@.len(),
            i <= a@.len(),
            forall|j: int| 0 <= j < i ==> a@[j] == b@[j],
        decreases a@.len() - i,
    {
        if a[i] != b[i] {
            return false;
        }
        i += 1;
    }
    assert(a@ =~= b@);
    true
}

fn magic_is(b: &[u8], document: bool) -> (r: bool)
    requires
        b@.len() >= 8,
    ensures
        r == (b@.subrange(0, 8) == if document {
            document_magic()
        } else {
            flat_magic()
        }),
{
    let expected = if document {
        b[3] == 68 && b[4] == 79 && b[5] == 67 && b[7] == 51
    } else {
        b[3] == 70 && b[4] == 76 && b[5] == 84 && b[7] == 49
    };
    let r = b[0] == 80 && b[1] == 73 && b[2] == 67 && b[6] == 48 && expected;
    if r {
        assert(b@.subrange(0, 8) =~= if document {
            document_magic()
        } else {
            flat_magic()
        });
    } else {
        proof {
            let m = if document {
                document_magic()
            } else {
                flat_magic()
            };
            if b@.subrange(0, 8) == m {
                assert(b@.subrange(0, 8)[0] == m[0] && b@.subrange(0, 8)[1] == m[1]);
                assert(b@.subrange(0, 8)[2] == m[2] && b@.subrange(0, 8)[3] == m[3]);
                assert(b@.subrange(0, 8)[4] == m[4] && b@.subrange(0, 8)[5] == m[5]);
                assert(b@.subrange(0, 8)[6] == m[6] && b@.subrange(0, 8)[7] == m[7]);
            }
        }
    }
    r
}

/// `body` followed by its SHA-256.
pub fn seal(body: &mut Vec<u8>)
    ensures
        final(body)@ == sealed_bytes(old(body)@),
{
    let digest = sha256_digest(body.as_slice());
    push_bytes(body, &digest);
}

/// The unsealed start of a flat snapshot: magic, key and the four dimensions. The pixel
/// bytes follow, then `seal`.
pub fn flat_header(key: &str, canvas: ImageSize, width: u32, height: u32) -> (b: Vec<u8>)
    ensures
        b@ == flat_body(key.spec_bytes(), canvas, width, height, Seq::empty()),
{
    let mut b: Vec<u8> = Vec::new();
    b.push(80);
    b.push(73);
    b.push(67);
    b.push(70);
    b.push(76);
    b.push(84);
    b.push(48);
    b.push(49);
    assert(b@ =~= flat_magic());
    push_bytes(&mut b, key.as_bytes());
    push_le32(&mut b, canvas.width);
    push_le32(&mut b, canvas.height);
    push_le32(&mut b, width);
    push_le32(&mut b, height);
    assert(b@ =~= flat_body(key.spec_bytes(), canvas, width, height, Seq::empty()));
    b
}

/// A complete flat snapshot of one raster whose samples are `pixels`.
pub fn encode_flat(key: &str, canvas: ImageSize, width: u32, height: u32, pixels: &[u8]) -> (b: Vec<u8>)
    ensures
        b@ == flat_snapshot(key.spec_bytes(), canvas, width, height, pixels@),
{
    let mut b = flat_header(key, canvas, width, height);
    push_bytes(&mut b, pixels);
    assert(b@ =~= flat_body(key.spec_bytes(), canvas, width, height, pixels@));
    seal(&mut b);
    b
}

/// Check the header and checksum of the snapshot stored for `key`, and read the frame.
pub fn decode_frame(key: &str, bytes: &[u8], limits: &ResourceLimits) -> (r: Result<SnapshotFrame, PicError>)
    ensures
        match r {
            Ok(f) => frame_of(key.spec_bytes(), bytes@, *limits) == Ok::<SnapshotFrame, ErrorCode>(f),
            Err(e) => frame_of(key.spec_bytes(), bytes@, *limits) == Err::<SnapshotFrame, ErrorCode>(e.code),
        },
{
    let n = bytes.len();
    let header = "invalid derived snapshot header or checksum";
    if n < 120 {
        return invalid(header);
    }
    let document = magic_is(bytes, true);
    if !document && !magic_is(bytes, false) {
        return invalid(header);
    }
    if !same_bytes(&bytes[8..72], key.as_bytes()) {
        return invalid(header);
    }
    let digest = sha256_digest(&bytes[0..n - 32]);
    if !same_bytes(&digest, &bytes[n - 32..n]) {
        return invalid(header);
    }
    if document {
        return Ok(SnapshotFrame::Document);
    }
    let canvas = ImageSize { width: read_le32(bytes, 72), height: read_le32(bytes, 76) };
    limits.check_dimensions(canvas.width, canvas.height)?;
    let width = read_le32(bytes, 80);
    let height = read_le32(bytes, 84);
    let count = limits.check_dimensions(width, height)?;
    assert(count * 32 <= limits.max_buffer_bytes);
    if n as u64 != count as u64 * 16 + OVERHEAD {
        return invalid("invalid derived snapshot length");
    }
    Ok(SnapshotFrame::Flat { canvas, width, height })
}

/// A flat snapshot reads back as the frame it was written from, and its pixel bytes are
/// exactly the samples written.
pub proof fn flat_snapshot_round_trip(
    key: Seq<u8>,
    canvas: ImageSize,
    width: u32,
    height: u32,
    pixels: Seq<u8>,
    limits: ResourceLimits,
)
    requires
        key.len() == 64,
        limits.dimensions_refusal(canvas.width, canvas.height) is None,
        limits.dimensions_refusal(width, height) is None,
        pixels.len() == width * height * 16,
    ensures
        frame_of(key, flat_snapshot(key, canvas, width, height, pixels), limits) == Ok::<
            SnapshotFrame,
            ErrorCode,
        >(SnapshotFrame::Flat { canvas, width, height }),
        flat_snapshot(key, canvas, width, height, pixels).subrange(
            88,
            flat_snapshot(key, canvas, width, height, pixels).len() - 32,
        ) == pixels,
{
    let body = flat_body(key, canvas, width, height, pixels);
    let bytes = flat_snapshot(key, canvas, width, height, pixels);
    assert(body.len() == 88 + pixels.len());
    assert(sha256(body)@.len() == 32);
    assert(bytes.subrange(0, bytes.len() - 32) =~= body);
    assert(bytes.subrange(bytes.len() - 32, bytes.len() as int) =~= sha256(body)@);
    assert(bytes.subrange(0, 8) =~= flat_magic());
    assert(bytes.subrange(8, 72) =~= key);
    assert(flat_magic() != document_magic()) by {
        assert(flat_magic()[3] != document_magic()[3]);
    }
    lemma_le32_round_trip(canvas.width);
    lemma_le32_round_trip(canvas.height);
    lemma_le32_round_trip(width);
    lemma_le32_round_trip(height);
    assert(le32_at(bytes, 72) == le32_at(le32_bytes(canvas.width), 0));
    assert(le32_at(bytes, 76) == le32_at(le32_bytes(canvas.height), 0));
    assert(le32_at(bytes, 80) == le32_at(le32_bytes(width), 0));
    assert(le32_at(bytes, 84) == le32_at(le32_bytes(height), 0));
    assert(bytes.subrange(88, bytes.len() - 32) =~= pixels);
}

/// The length of a document snapshot's JSON metadata, stored little-endian at bytes 72..80
/// of the body; the metadata itself starts at byte 80.
pub fn document_metadata_length(body: &[u8], limits: &ResourceLimits) -> (r: Result<u64, PicError>)
    ensures
        match r {
            Ok(n) => body@.len() >= 80 && n == le64_at(body@, 72) && n <= limits.max_project_bytes,
            Err(e) => e.code == ErrorCode::InvalidProject && (body@.len() < 80 || le64_at(body@, 72)
                > limits.max_project_bytes),
        },
{
    if body.len() < 80 {
        return invalid("truncated document snapshot");
    }
    let low = read_le32(body, 72) as u64;
    let high = read_le32(body, 76) as u64;
    if high > u64::MAX / 0x1_0000_0000 {
        return invalid("snapshot metadata exceeds budget");
    }
    let length = low + high * 0x1_0000_0000;
    if length > limits.max_project_bytes {
        return invalid("snapshot metadata exceeds budget");
    }
    Ok(length)
}

/// Why the raster at byte `p` of `d` is refused, if it is: its two little-endian dimensions
/// must be there and admissible, and all `16 * width * height` pixel bytes must follow.
pub open spec fn raster_refusal(d: Seq<u8>, p: int, limits: ResourceLimits) -> Option<ErrorCode> {
    if p + 8 > d.len() {
        Some(ErrorCode::InvalidProject)
    } else {
        let w = le32_at(d, p) as u32;
        let h = le32_at(d, p + 4) as u32;
        if limits.dimensions_refusal(w, h) is Some {
            limits.dimensions_refusal(w, h)
        } else if w * h * 16 > usize::MAX || p + 8 + w * h * 16 > d.len() {
            Some(ErrorCode::InvalidProject)
        } else {
            None
        }
    }
}

/// A cursor over a document snapshot's body.
pub struct SnapshotReader<'a> {
    bytes: &'a [u8],
    offset: usize,
}

impl<'a> SnapshotReader<'a> {
    pub closed spec fn data(&self) -> Seq<u8> {
        self.bytes@
    }

    pub closed spec fn position(&self) -> nat {
        self.offset as nat
    }

    /// A reader of `bytes` at `offset`.
    pub fn new(bytes: &'a [u8], offset: usize) -> (r: Self)
        ensures
            r.data() == bytes@,
            r.position() == offset,
    {
        SnapshotReader { bytes, offset }
    }

    /// Whether every byte has been read.
    pub fn finished(&self) -> (r: bool)
        ensures
            r == (self.position() == self.data().len()),
    {
        self.offset == self.bytes.len()
    }

    /// The next `count` bytes.
    pub fn take(&mut self, count: usize) -> (r: Result<&'a [u8], PicError>)
        ensures
            final(self).data() == old(self).data(),
            match r {
                Ok(s) => old(self).position() + count <= old(self).data().len() && s@ == old(self).data().subrange(
                    old(self).position() as int,
                    old(self).position() + count,
                ) && final(self).position() == old(self).position() + count,
                Err(e) => old(self).position() + count > old(self).data().len() && e.code
                    == ErrorCode::InvalidProject && final(self).position() == old(self).position(),
            },
    {
        let n = self.bytes.len();
        let end = match self.offset.checked_add(count) {
            Some(end) => end,
            None => return invalid("snapshot length overflow"),
        };
        if end > self.bytes.len() {
            return invalid("truncated snapshot payload");
        }
        let value = &self.bytes[self.offset..end];
        self.offset = end;
        Ok(value)
    }

    /// The next raster: its width and height, little-endian, then its pixel bytes.
    pub fn raster(&mut self, limits: &ResourceLimits) -> (r: Result<(u32, u32, &'a [u8]), PicError>)
        ensures
            final(self).data() == old(self).data(),
            match r {
                Ok((w, h, pixels)) => {
                    let p = old(self).position() as int;
                    let d = old(self).data();
                    &&& p + 8 + w * h * 16 <= d.len()
                    &&& w == le32_at(d, p) && h == le32_at(d, p + 4)
                    &&& limits.dimensions_refusal(w, h) is None
                    &&& pixels@ == d.subrange(p + 8, p + 8 + w * h * 16)
                    &&& final(self).position() == p + 8 + w * h * 16
                },
                Err(e) => raster_refusal(old(self).data(), old(self).position() as int, *limits) == Some(
                    e.code,
                ),
            },
            r is Ok <==> raster_refusal(old(self).data(), old(self).position() as int, *limits) is None,
    {
        let width_bytes = self.take(4)?;
        let width = read_le32(width_bytes, 0);
        let height_bytes = self.take(4)?;
        let height = read_le32(height_bytes, 0);
        let count = limits.check_dimensions(width, height)?;
        let size = match count.checked_mul(16) {
            Some(size) => size,
            None => return invalid("snapshot raster overflow"),
        };
        let pixels = self.take(size)?;
        Ok((width, height, pixels))
    }
}

} // verus!
