use pic_core::codec::encoding::Format;
use pic_core::codec::decode::{decode, ColorKind};
use pic_core::codec::exif;
use pic_core::codec::input_contract::{jpeg, png};
use pic_core::codec::sniff::inspect_input;
use pic_core::limits::ResourceLimits;
use pic_core::project::cache::ImageSize;
use pic_core::project::snapshot::{
    decode_frame, document_metadata_length, encode_flat, flat_header, seal, SnapshotFrame,
    SnapshotReader,
};
use pic_core::project::storage::{check_hash, digest, hash, verify};
use pic_core::ErrorCode;
use std::io::Cursor;

fn encoded(format: image::ImageFormat) -> Vec<u8> {
    let image = image::RgbImage::from_pixel(3, 2, image::Rgb([200, 10, 30]));
    let mut bytes = Cursor::new(Vec::new());
    image.write_to(&mut bytes, format).unwrap();
    bytes.into_inner()
}

fn chunk(kind: &[u8; 4], data: &[u8]) -> Vec<u8> {
    let mut out = (data.len() as u32).to_be_bytes().to_vec();
    out.extend_from_slice(kind);
    out.extend_from_slice(data);
    out.extend_from_slice(&[0, 0, 0, 0]);
    out
}

/// Little-endian classic TIFF whose primary directory holds only an orientation.
fn oriented_tiff(orientation: u16) -> Vec<u8> {
    let mut t = b"II*\0".to_vec();
    t.extend_from_slice(&8u32.to_le_bytes());
    t.extend_from_slice(&1u16.to_le_bytes());
    t.extend_from_slice(&[0x12, 0x01, 3, 0, 1, 0, 0, 0]);
    t.extend_from_slice(&orientation.to_le_bytes());
    t.extend_from_slice(&[0, 0]);
    t.extend_from_slice(&0u32.to_le_bytes());
    t
}

fn jpeg_with_exif(j: &[u8], tiffs: &[Vec<u8>]) -> Vec<u8> {
    let mut out = j[..2].to_vec();
    for t in tiffs {
        let mut data = b"Exif\0\0".to_vec();
        data.extend_from_slice(t);
        out.extend_from_slice(&[0xff, 0xe1]);
        out.extend_from_slice(&((data.len() + 2) as u16).to_be_bytes());
        out.extend_from_slice(&data);
    }
    out.extend_from_slice(&j[2..]);
    out
}

fn png_with(extra: &[Vec<u8>]) -> Vec<u8> {
    let mut out = vec![0x89, b'P', b'N', b'G', 0x0d, 0x0a, 0x1a, 0x0a];
    out.extend(chunk(b"IHDR", &[0, 0, 0, 1, 0, 0, 0, 1, 8, 6, 0, 0, 0]));
    for c in extra {
        out.extend_from_slice(c);
    }
    out.extend(chunk(b"IDAT", &[1, 2, 3]));
    out.extend(chunk(b"IEND", &[]));
    out
}

#[test]
fn encoded_png_and_jpeg_inputs_are_admitted() {
    let limits = ResourceLimits::default();
    let p = encoded(image::ImageFormat::Png);
    let meta = inspect_input(&p, &limits).unwrap();
    assert_eq!(meta.format, Format::Png);
    assert_eq!(meta.exif_orientation, None);
    let j = encoded(image::ImageFormat::Jpeg);
    assert!(jpeg(&j).is_ok());
    assert_eq!(inspect_input(&j, &limits).unwrap().format, Format::Jpeg);
    assert_eq!(inspect_input(b"GIF89a....", &limits).unwrap_err().code, ErrorCode::UnsupportedFormat);
    let tiny = ResourceLimits { max_input_bytes: 4, ..ResourceLimits::default() };
    assert_eq!(inspect_input(&p, &tiny).unwrap_err().code, ErrorCode::ResourceLimit);
}

#[test]
fn png_chunks_decide_color_metadata_and_animation() {
    assert_eq!(png(&png_with(&[])).unwrap(), (false, None));
    assert_eq!(png(&png_with(&[chunk(b"sRGB", &[0])])).unwrap(), (true, None));
    assert_eq!(png(&png_with(&[chunk(b"iCCP", &[0; 4])])).unwrap_err().code, ErrorCode::UnsupportedColor);
    assert_eq!(png(&png_with(&[chunk(b"eXIf", &[0; 4])])).unwrap_err().code, ErrorCode::UnsupportedMetadata);
    assert_eq!(png(&png_with(&[chunk(b"eXIf", &oriented_tiff(6))])).unwrap(), (false, Some((6, false))));
    let twice = [chunk(b"eXIf", &oriented_tiff(6)), chunk(b"eXIf", &oriented_tiff(6))];
    assert_eq!(png(&png_with(&twice)).unwrap_err().code, ErrorCode::UnsupportedMetadata);
    assert_eq!(png(&png_with(&[chunk(b"acTL", &[0; 8])])).unwrap_err().code, ErrorCode::UnsupportedFormat);
    let mut sixteen_bit = png_with(&[]);
    sixteen_bit[8 + 8 + 8] = 16;
    assert_eq!(png(&sixteen_bit).unwrap_err().code, ErrorCode::UnsupportedColor);
    let truncated = &png_with(&[])[..30];
    assert_eq!(png(truncated).unwrap_err().code, ErrorCode::DecodeFailed);
    let mut trailing = png_with(&[]);
    trailing.push(0);
    assert_eq!(png(&trailing).unwrap_err().code, ErrorCode::DecodeFailed);
}

#[test]
fn jpeg_segments_read_one_exif_and_refuse_icc_and_missing_scans() {
    let j = encoded(image::ImageFormat::Jpeg);
    assert_eq!(jpeg(&j).unwrap(), None);
    let oriented = jpeg_with_exif(&j, &[oriented_tiff(6)]);
    assert_eq!(jpeg(&oriented).unwrap(), Some((6, false)));
    let limits = ResourceLimits::default();
    assert_eq!(inspect_input(&oriented, &limits).unwrap().exif_orientation, Some(6));
    for bad in [vec![oriented_tiff(6), oriented_tiff(6)], vec![oriented_tiff(0)], vec![oriented_tiff(9)], vec![Vec::new()]] {
        assert_eq!(jpeg(&jpeg_with_exif(&j, &bad)).unwrap_err().code, ErrorCode::UnsupportedMetadata);
    }
    let mut with_icc = j[..2].to_vec();
    let mut icc = b"ICC_PROFILE\0".to_vec();
    icc.extend_from_slice(&[1, 1]);
    with_icc.extend_from_slice(&[0xff, 0xe2, 0x00, (icc.len() + 2) as u8]);
    with_icc.extend_from_slice(&icc);
    with_icc.extend_from_slice(&j[2..]);
    assert_eq!(jpeg(&with_icc).unwrap_err().code, ErrorCode::UnsupportedColor);
    assert_eq!(jpeg(&[0xff, 0xd8, 0xff, 0xd9]).unwrap_err().code, ErrorCode::DecodeFailed);
}

#[test]
fn exif_orientation_is_read_from_the_primary_directory() {
    let mut le = b"II*\0".to_vec();
    le.extend_from_slice(&8u32.to_le_bytes());
    le.extend_from_slice(&1u16.to_le_bytes());
    le.extend_from_slice(&[0x12, 0x01, 3, 0, 1, 0, 0, 0, 6, 0, 0, 0]);
    le.extend_from_slice(&0u32.to_le_bytes());
    assert_eq!(exif::read(&le).unwrap(), (6, false));
    let mut be = b"MM\0*".to_vec();
    be.extend_from_slice(&8u32.to_be_bytes());
    be.extend_from_slice(&0u16.to_be_bytes());
    be.extend_from_slice(&0u32.to_be_bytes());
    assert_eq!(exif::read(&be).unwrap(), (1, false));
    assert_eq!(exif::read(b"XX*\0\0\0\0\0").unwrap_err().code, ErrorCode::UnsupportedMetadata);
}

#[test]
fn digests_name_content_and_references_are_never_paths() {
    let name = hash(b"abc");
    assert_eq!(name, "ba7816bf8f01cfea414140de5dae2223b00361a396177a9cb410ff61f20015ad");
    assert!(verify(&name, b"abc").is_ok());
    assert_eq!(verify(&name, b"abd").unwrap_err().code, ErrorCode::IntegrityMismatch);
    assert!(check_hash(&name).is_ok());
    assert_eq!(check_hash("../../etc/passwd").unwrap_err().code, ErrorCode::UnsafePath);
    assert_eq!(check_hash(&name.to_uppercase()).unwrap_err().code, ErrorCode::UnsafePath);
    let operand = format!("asset:{name}");
    assert_eq!(digest(&operand).unwrap(), name);
    assert_eq!(digest("assets/input.png").unwrap_err().code, ErrorCode::UnsafePath);
}

#[test]
fn flat_snapshots_round_trip_and_reject_corruption() {
    let limits = ResourceLimits::default();
    let key = hash(b"prefix key");
    let pixels: Vec<u8> = (0..2 * 16).map(|n| n as u8).collect();
    let canvas = ImageSize { width: 4, height: 3 };
    let bytes = encode_flat(&key, canvas, 2, 1, &pixels);
    assert_eq!(bytes.len(), 120 + pixels.len());
    assert_eq!(&bytes[..8], b"PICFLT01");
    assert_eq!(
        decode_frame(&key, &bytes, &limits).unwrap(),
        SnapshotFrame::Flat { canvas, width: 2, height: 1 }
    );
    assert_eq!(&bytes[88..bytes.len() - 32], &pixels[..]);
    let mut split = flat_header(&key, canvas, 2, 1);
    split.extend_from_slice(&pixels);
    seal(&mut split);
    assert_eq!(split, bytes);
    let mut flipped = bytes.clone();
    flipped[90] ^= 1;
    assert_eq!(decode_frame(&key, &flipped, &limits).unwrap_err().code, ErrorCode::InvalidProject);
    let other = hash(b"other key");
    assert_eq!(decode_frame(&other, &bytes, &limits).unwrap_err().code, ErrorCode::InvalidProject);
    assert_eq!(decode_frame(&key, &bytes[..100], &limits).unwrap_err().code, ErrorCode::InvalidProject);
    let short = encode_flat(&key, canvas, 2, 2, &pixels);
    assert_eq!(decode_frame(&key, &short, &limits).unwrap_err().code, ErrorCode::InvalidProject);
    let empty = encode_flat(&key, canvas, 0, 1, &[]);
    assert_eq!(decode_frame(&key, &empty, &limits).unwrap_err().code, ErrorCode::InvalidArgument);
}

#[test]
fn document_snapshots_are_read_field_by_field() {
    let limits = ResourceLimits::default();
    let key = hash(b"document");
    let metadata = br#"{"canvas":{"width":1,"height":1}}"#;
    let mut body = b"PICDOC03".to_vec();
    body.extend_from_slice(key.as_bytes());
    body.extend_from_slice(&(metadata.len() as u64).to_le_bytes());
    body.extend_from_slice(metadata);
    body.extend_from_slice(&1u32.to_le_bytes());
    body.extend_from_slice(&1u32.to_le_bytes());
    body.extend_from_slice(&[7; 16]);
    let mut sealed = body.clone();
    seal(&mut sealed);
    assert_eq!(decode_frame(&key, &sealed, &limits).unwrap(), SnapshotFrame::Document);
    let length = document_metadata_length(&body, &limits).unwrap();
    assert_eq!(length as usize, metadata.len());
    let mut reader = SnapshotReader::new(&body, 80);
    assert_eq!(reader.take(length as usize).unwrap(), &metadata[..]);
    let (w, h, samples) = reader.raster(&limits).unwrap();
    assert_eq!((w, h), (1, 1));
    assert_eq!(samples, &[7; 16]);
    assert!(reader.finished());
    assert_eq!(reader.take(1).unwrap_err().code, ErrorCode::InvalidProject);
    // Dimensions without all their pixel bytes, and a zero dimension, are refused.
    let mut short = SnapshotReader::new(&body, 80 + metadata.len());
    let cut = &body[..body.len() - 1];
    let mut truncated = SnapshotReader::new(cut, 80 + metadata.len());
    assert!(short.raster(&limits).is_ok());
    assert_eq!(truncated.raster(&limits).unwrap_err().code, ErrorCode::InvalidProject);
    let zero = [0u8, 0, 0, 0, 1, 0, 0, 0];
    assert_eq!(SnapshotReader::new(&zero, 0).raster(&limits).unwrap_err().code, ErrorCode::InvalidArgument);
    assert_eq!(SnapshotReader::new(&zero[..6], 0).raster(&limits).unwrap_err().code, ErrorCode::InvalidProject);
    let small = ResourceLimits { max_project_bytes: 3, ..ResourceLimits::default() };
    assert_eq!(document_metadata_length(&body, &small).unwrap_err().code, ErrorCode::InvalidProject);
    assert_eq!(document_metadata_length(&body[..79], &limits).unwrap_err().code, ErrorCode::InvalidProject);
}

fn crc32(bytes: &[u8]) -> u32 {
    let mut crc = 0xffff_ffffu32;
    for &b in bytes {
        crc ^= u32::from(b);
        for _ in 0..8 {
            crc = if crc & 1 == 1 { (crc >> 1) ^ 0xedb8_8320 } else { crc >> 1 };
        }
    }
    !crc
}

fn sealed_chunk(kind: &[u8; 4], data: &[u8]) -> Vec<u8> {
    let mut out = (data.len() as u32).to_be_bytes().to_vec();
    let mut body = kind.to_vec();
    body.extend_from_slice(data);
    out.extend_from_slice(&body);
    out.extend_from_slice(&crc32(&body).to_be_bytes());
    out
}

/// A 16x8 RGBA PNG whose stored pixel (x, y) is (x, y, 0, 255), with an eXIf chunk after IHDR.
fn labeled_png_with_orientation(orientation: u16) -> Vec<u8> {
    let image = image::RgbaImage::from_fn(16, 8, |x, y| image::Rgba([x as u8, y as u8, 0, 255]));
    let mut bytes = Cursor::new(Vec::new());
    image.write_to(&mut bytes, image::ImageFormat::Png).unwrap();
    let plain = bytes.into_inner();
    let ihdr_end = 8 + 8 + 13 + 4;
    let mut out = plain[..ihdr_end].to_vec();
    out.extend(sealed_chunk(b"eXIf", &oriented_tiff(orientation)));
    out.extend_from_slice(&plain[ihdr_end..]);
    out
}

#[test]
fn decoding_applies_the_exif_orientation_to_the_samples() {
    let limits = ResourceLimits::default();
    let (meta, image) = decode(&labeled_png_with_orientation(6), false, &limits).unwrap();
    assert_eq!(meta.exif_orientation, Some(6));
    assert_eq!((image.stored_width, image.stored_height), (16, 8));
    assert_eq!((image.width, image.height), (8, 16));
    assert_eq!(image.pixels[0], [0, 7, 0, 255]);
    assert_eq!(image.color, ColorKind::Rgba);
    let (_, upright) = decode(&labeled_png_with_orientation(1), false, &limits).unwrap();
    assert_eq!((upright.width, upright.height), (16, 8));
    assert_eq!(upright.pixels[17], [1, 1, 0, 255]);
    let (_, flipped) = decode(&labeled_png_with_orientation(2), false, &limits).unwrap();
    assert_eq!(flipped.pixels[0], [15, 0, 0, 255]);
    let (_, turned) = decode(&labeled_png_with_orientation(3), false, &limits).unwrap();
    assert_eq!(turned.pixels[0], [15, 7, 0, 255]);
    let (_, left) = decode(&labeled_png_with_orientation(8), false, &limits).unwrap();
    assert_eq!((left.width, left.height), (8, 16));
    assert_eq!(left.pixels[0], [15, 0, 0, 255]);
}

#[test]
fn jpeg_exif_orientations_swap_the_size_from_five_on() {
    let limits = ResourceLimits::default();
    let j = encoded(image::ImageFormat::Jpeg);
    for orientation in 1..=8u16 {
        let (meta, image) = decode(&jpeg_with_exif(&j, &[oriented_tiff(orientation)]), false, &limits).unwrap();
        assert_eq!(meta.exif_orientation, Some(orientation as u8));
        assert_eq!((image.stored_width, image.stored_height), (3, 2));
        let expected = if orientation >= 5 { (2, 3) } else { (3, 2) };
        assert_eq!((image.width, image.height), expected);
        assert_eq!(image.pixels.len(), 6);
    }
}

#[test]
fn masks_must_be_gray_coverage() {
    let limits = ResourceLimits::default();
    let color = encoded(image::ImageFormat::Png);
    assert_eq!(decode(&color, true, &limits).unwrap_err().code, ErrorCode::InvalidMask);
    let gray = image::GrayImage::from_pixel(2, 2, image::Luma([90]));
    let mut bytes = Cursor::new(Vec::new());
    gray.write_to(&mut bytes, image::ImageFormat::Png).unwrap();
    let (_, mask) = decode(&bytes.into_inner(), true, &limits).unwrap();
    assert_eq!(mask.pixels, vec![[90, 90, 90, 255]; 4]);
    assert_eq!(mask.color, ColorKind::Gray);
    let tight = ResourceLimits { max_dimension: 1, ..ResourceLimits::default() };
    assert_eq!(decode(&color, false, &tight).unwrap_err().code, ErrorCode::ResourceLimit);
}

fn exif_orientation(value: u16, little: bool) -> Vec<u8> {
    if little {
        let mut bytes = b"II\x2a\0\x08\0\0\0\x01\0\x12\x01\x03\0\x01\0\0\0".to_vec();
        bytes.extend(value.to_le_bytes());
        bytes.extend([0; 6]);
        bytes
    } else {
        let mut bytes = b"MM\0\x2a\0\0\0\x08\0\x01\x01\x12\0\x03\0\0\0\x01".to_vec();
        bytes.extend(value.to_be_bytes());
        bytes.extend([0; 6]);
        bytes
    }
}

fn png_chunk(kind: &[u8; 4], data: &[u8]) -> Vec<u8> {
    let mut chunk = Vec::new();
    chunk.extend_from_slice(&(data.len() as u32).to_be_bytes());
    chunk.extend_from_slice(kind);
    chunk.extend_from_slice(data);
    let mut crc = u32::MAX;
    for byte in &chunk[4..] {
        crc ^= u32::from(*byte);
        for _ in 0..8 {
            crc = (crc >> 1) ^ (0xedb8_8320 & (0u32.wrapping_sub(crc & 1)));
        }
    }
    chunk.extend_from_slice(&(!crc).to_be_bytes());
    chunk
}

fn jpeg_segment(bytes: &[u8], marker: u8, payload: &[u8], late: bool) -> Vec<u8> {
    let offset = if late { bytes.len() - 2 } else { 2 };
    let mut output = bytes[..offset].to_vec();
    output.extend([0xff, marker]);
    output.extend(((payload.len() + 2) as u16).to_be_bytes());
    output.extend(payload);
    output.extend(&bytes[offset..]);
    output
}

fn fixture_source() -> image::RgbaImage {
    image::RgbaImage::from_fn(16, 8, |x, y| {
        image::Rgba([(x * 17) as u8, (y * 31) as u8, 89, if y == 0 { 0 } else { (x * 17) as u8 }])
    })
}

fn fixture_png() -> Vec<u8> {
    let mut bytes = Cursor::new(Vec::new());
    fixture_source().write_to(&mut bytes, image::ImageFormat::Png).unwrap();
    bytes.into_inner()
}

fn fixture_jpeg() -> Vec<u8> {
    let jpeg = image::RgbImage::from_pixel(16, 8, image::Rgb([64, 128, 192]));
    let mut bytes = Vec::new();
    image::codecs::jpeg::JpegEncoder::new_with_quality(&mut bytes, 100)
        .encode(jpeg.as_raw(), 16, 8, image::ExtendedColorType::Rgb8)
        .unwrap();
    bytes
}

fn decode_code(bytes: &[u8]) -> ErrorCode {
    decode(bytes, false, &ResourceLimits::default()).unwrap_err().code
}

#[test]
fn truncated_jpeg_and_metadata_after_scan_are_not_silently_accepted() {
    let original = fixture_jpeg();
    assert!(decode(&original, false, &ResourceLimits::default()).is_ok());
    let mut bytes = original[..original.len() - 2].to_vec();
    assert_eq!(decode_code(&bytes), ErrorCode::DecodeFailed);
    bytes.extend_from_slice(b"\xff\xe1\x00\x08Exif\0\0\xff\xd9");
    assert_eq!(decode_code(&bytes), ErrorCode::UnsupportedMetadata);
}

#[test]
fn png_exif_and_malformed_or_ambiguous_orientation_have_explicit_behavior() {
    let source = fixture_source();
    let encoded = fixture_png();
    let mut png = encoded[..33].to_vec();
    png.extend(png_chunk(b"eXIf", &exif_orientation(6, true)));
    png.extend(&encoded[33..]);
    let (_, output) = decode(&png, false, &ResourceLimits::default()).unwrap();
    assert_eq!((output.width, output.height), (8, 16));
    assert_eq!(output.pixels[0], source.get_pixel(0, 7).0);
    let jpeg = fixture_jpeg();
    let mut duplicate = exif_orientation(1, true);
    duplicate[8] = 2;
    duplicate.splice(22..22, exif_orientation(6, true)[10..22].iter().copied());
    let mut bad_pointer = exif_orientation(1, true);
    bad_pointer[4..8].copy_from_slice(&u32::MAX.to_le_bytes());
    let mut wrong_type = exif_orientation(1, true);
    wrong_type[12] = 4;
    for exif in [exif_orientation(0, true), exif_orientation(9, false), duplicate, bad_pointer, wrong_type] {
        let mut payload = b"Exif\0\0".to_vec();
        payload.extend(exif);
        assert_eq!(decode_code(&jpeg_segment(&jpeg, 0xe1, &payload, false)), ErrorCode::UnsupportedMetadata);
    }
    let mut payload = b"Exif\0\0".to_vec();
    payload.extend(exif_orientation(1, true));
    let tagged = jpeg_segment(&jpeg, 0xe1, &payload, false);
    assert!(decode(&tagged, false, &ResourceLimits::default()).is_ok());
    assert_eq!(decode_code(&jpeg_segment(&tagged, 0xe1, &payload, true)), ErrorCode::UnsupportedMetadata);
}

#[test]
fn corrupt_images_whose_header_exceeds_the_limits_are_resource_limits() {
    let encoded = fixture_png();
    let mut corrupt = encoded[..33].to_vec();
    corrupt.extend(png_chunk(b"IDAT", b"not a zlib stream"));
    corrupt.extend(png_chunk(b"IEND", b""));
    assert_eq!(decode_code(&corrupt), ErrorCode::DecodeFailed);
    let mut limits = ResourceLimits::default();
    limits.max_pixels = 100;
    assert_eq!(decode(&encoded, false, &limits).unwrap_err().code, ErrorCode::ResourceLimit);
    assert_eq!(decode(&corrupt, false, &limits).unwrap_err().code, ErrorCode::ResourceLimit);
}

#[test]
fn unsupported_color_orientation_animation_and_bit_depth_are_explicit_errors() {
    let original = fixture_png();
    for (kind, data, code) in [
        (b"gAMA", vec![0, 0, 177, 143], ErrorCode::UnsupportedColor),
        (b"iCCP", vec![1], ErrorCode::UnsupportedColor),
        (b"cHRM", vec![0; 32], ErrorCode::UnsupportedColor),
        (b"eXIf", vec![0; 26], ErrorCode::UnsupportedMetadata),
        (b"acTL", vec![0, 0, 0, 2, 0, 0, 0, 0], ErrorCode::UnsupportedFormat),
    ] {
        let mut bytes = original[..33].to_vec();
        bytes.extend(png_chunk(kind, &data));
        bytes.extend_from_slice(&original[33..]);
        assert_eq!(decode_code(&bytes), code);
    }
    let mut tagged = original[..33].to_vec();
    tagged.extend(png_chunk(b"sRGB", &[0]));
    tagged.extend_from_slice(&original[33..]);
    let (info, _) = decode(&tagged, false, &ResourceLimits::default()).unwrap();
    assert!(info.declared_srgb);
    let mut bytes = Vec::new();
    image::ImageEncoder::write_image(
        image::codecs::png::PngEncoder::new(&mut bytes),
        &[0; 8],
        1,
        1,
        image::ExtendedColorType::Rgba16,
    )
    .unwrap();
    assert_eq!(decode_code(&bytes), ErrorCode::UnsupportedColor);
    let original = fixture_jpeg();
    for (marker, data, code) in [
        (0xe1, b"Exif\0\0".as_slice(), ErrorCode::UnsupportedMetadata),
        (0xe2, b"ICC_PROFILE\0".as_slice(), ErrorCode::UnsupportedColor),
    ] {
        let mut bytes = original[..2].to_vec();
        bytes.extend([0xff, marker]);
        bytes.extend_from_slice(&((data.len() + 2) as u16).to_be_bytes());
        bytes.extend_from_slice(data);
        bytes.extend_from_slice(&original[2..]);
        assert_eq!(decode_code(&bytes), code);
    }
}

#[test]
fn exif_non_srgb_colors_and_unsupported_png_jpeg_representations_are_rejected() {
    let jpeg = fixture_jpeg();
    for color in [1u16, 2, 65535] {
        let mut tiff = exif_orientation(1, true);
        tiff[10..12].copy_from_slice(&0x8769u16.to_le_bytes());
        tiff[12..14].copy_from_slice(&4u16.to_le_bytes());
        tiff[18..22].copy_from_slice(&26u32.to_le_bytes());
        let mut sub = exif_orientation(color, true)[8..].to_vec();
        sub[2..4].copy_from_slice(&0xa001u16.to_le_bytes());
        tiff.extend(sub);
        let mut payload = b"Exif\0\0".to_vec();
        payload.extend(tiff);
        let bytes = jpeg_segment(&jpeg, 0xe1, &payload, false);
        if color == 1 {
            let (info, _) = decode(&bytes, false, &ResourceLimits::default()).unwrap();
            assert!(info.declared_srgb);
        } else {
            assert_eq!(decode_code(&bytes), ErrorCode::UnsupportedColor);
        }
    }
    let frame = jpeg.windows(2).position(|b| b == [0xff, 0xc0]).unwrap();
    for (field, value) in [(frame + 4, 12), (frame + 9, 4)] {
        let mut bytes = jpeg.clone();
        bytes[field] = value;
        assert_eq!(decode_code(&bytes), ErrorCode::UnsupportedColor);
    }
    let png = fixture_png();
    for (depth, color) in [(8, 3), (1, 0), (4, 0), (16, 6)] {
        let mut header = png[16..29].to_vec();
        header[8] = depth;
        header[9] = color;
        let mut bytes = png[..8].to_vec();
        bytes.extend(png_chunk(b"IHDR", &header));
        bytes.extend(&png[33..]);
        assert_eq!(decode_code(&bytes), ErrorCode::UnsupportedColor);
    }
}
