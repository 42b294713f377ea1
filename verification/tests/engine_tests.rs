use exif_engine::engine::{embed_timestamp, parse_format};
use exif_engine::locator::{locate_segment, Location};
use exif_engine::model::MetadataModel;
use exif_engine::writer::crc32;
use exif_engine::{ByteOrder, EngineError, ImageFormat};

const TS: &str = "2024:01:15 10:30:00";

/// SOI, APP0/JFIF, SOS, EOI: a minimal JPEG with no metadata.
fn minimal_jpeg() -> Vec<u8> {
    let mut v = vec![0xFF, 0xD8];
    // APP0, length 16, JFIF header
    v.extend_from_slice(&[0xFF, 0xE0, 0x00, 0x10]);
    v.extend_from_slice(b"JFIF\0");
    v.extend_from_slice(&[0x01, 0x01, 0x00, 0x00, 0x01, 0x00, 0x01, 0x00, 0x00]);
    // SOS, then entropy data and EOI
    v.extend_from_slice(&[0xFF, 0xDA, 0x00, 0x04, 0x01, 0x00]);
    v.extend_from_slice(&[0x12, 0x34]);
    v.extend_from_slice(&[0xFF, 0xD9]);
    v
}

fn find_app1(out: &Vec<u8>) -> (usize, usize, usize, usize) {
    match locate_segment(out, ImageFormat::Jpeg).expect("well-formed jpeg") {
        Location::Found { lo, payload_lo, payload_hi, hi } => (lo, payload_lo, payload_hi, hi),
        Location::Absent { .. } => panic!("expected an APP1 segment"),
    }
}

#[test]
fn jpeg_scenario_fresh_segment() {
    let img = minimal_jpeg();
    let out = embed_timestamp(&img, TS, ImageFormat::Jpeg).expect("embed succeeds");
    // the APP1 segment sits right after the APP0/JFIF segment, which is the
    // first segment after SOI
    let (lo, plo, phi, hi) = find_app1(&out);
    assert_eq!(lo, 20);
    assert_eq!(&out[lo..lo + 2], &[0xFF, 0xE1]);
    // signature Exif\0\0
    assert_eq!(&out[lo + 4..lo + 10], b"Exif\0\0");
    // the payload decodes to a model holding exactly the timestamp
    let tiff: Vec<u8> = out[plo..phi].to_vec();
    let m = MetadataModel::from_segment(&tiff).expect("decodable IFD");
    assert_eq!(m.get_tag("DateTimeOriginal"), Some(TS.as_bytes().to_vec()));
    assert_eq!(m.primary.len(), 0);
    assert_eq!(m.exif.len(), 1);
    // exactly one APP1 segment: the rest of the container is unchanged, and
    // the original had none
    assert_eq!(&out[..20], &img[..20]);
    assert_eq!(&out[hi..], &img[20..]);
}

#[test]
fn malformed_truncated_png() {
    // a PNG cut off right after its signature: no IHDR
    let img: Vec<u8> = vec![137, 80, 78, 71, 13, 10, 26, 10];
    let r = embed_timestamp(&img, TS, ImageFormat::Png);
    assert_eq!(r, Err(EngineError::MalformedContainer));
    // the input is untouched: the engine never returns a partial buffer
    assert_eq!(img, vec![137, 80, 78, 71, 13, 10, 26, 10]);
}

#[test]
fn empty_model_round_trip() {
    let m = MetadataModel::empty(ByteOrder::Little);
    let seg = m.to_segment(ImageFormat::Png).expect("small model encodes");
    let back = MetadataModel::from_segment(&seg).expect("own encoding decodes");
    assert!(matches!(back.byte_order, ByteOrder::Little));
    assert_eq!(back.primary.len(), 0);
    assert_eq!(back.exif.len(), 0);
}

#[test]
fn tag_round_trip_through_segment() {
    let mut m = MetadataModel::empty(ByteOrder::Little);
    m.set_tag("DateTimeOriginal", TS).expect("valid timestamp");
    let seg = m.to_segment(ImageFormat::Png).expect("small model encodes");
    let back = MetadataModel::from_segment(&seg).expect("own encoding decodes");
    assert_eq!(back.get_tag("DateTimeOriginal"), Some(TS.as_bytes().to_vec()));
}

#[test]
fn embedding_twice_is_idempotent() {
    let img = minimal_jpeg();
    let once = embed_timestamp(&img, TS, ImageFormat::Jpeg).expect("first embed");
    let twice = embed_timestamp(&once, TS, ImageFormat::Jpeg).expect("second embed");
    assert_eq!(once, twice);
}

fn png_with_exif(tiff: &[u8]) -> Vec<u8> {
    let mut v: Vec<u8> = vec![137, 80, 78, 71, 13, 10, 26, 10];
    // IHDR chunk, 13-byte payload
    v.extend_from_slice(&[0, 0, 0, 13]);
    v.extend_from_slice(b"IHDR");
    v.extend_from_slice(&[0, 0, 0, 1, 0, 0, 0, 1, 8, 0, 0, 0, 0]);
    v.extend_from_slice(&[0, 0, 0, 0]); // CRC (not checked on read)
    v.extend_from_slice(&(tiff.len() as u32).to_be_bytes());
    v.extend_from_slice(b"eXIf");
    v.extend_from_slice(tiff);
    v.extend_from_slice(&[0, 0, 0, 0]); // CRC (not checked on read)
    // IEND
    v.extend_from_slice(&[0, 0, 0, 0]);
    v.extend_from_slice(b"IEND");
    v.extend_from_slice(&[0xAE, 0x42, 0x60, 0x82]);
    v
}

#[test]
fn big_endian_header_is_preserved() {
    let mut m = MetadataModel::empty(ByteOrder::Big);
    m.set_tag("Make", "TestCam").expect("valid make");
    let tiff = m.to_segment(ImageFormat::Png).expect("encodes");
    assert_eq!(&tiff[0..2], &[0x4D, 0x4D]);
    let img = png_with_exif(&tiff);
    let out = embed_timestamp(&img, TS, ImageFormat::Png).expect("embed succeeds");
    let (plo, phi) = match locate_segment(&out, ImageFormat::Png).expect("well-formed png") {
        Location::Found { payload_lo, payload_hi, .. } => (payload_lo, payload_hi),
        Location::Absent { .. } => panic!("expected an eXIf chunk"),
    };
    // still big-endian, and both tags read back
    assert_eq!(&out[plo..plo + 2], &[0x4D, 0x4D]);
    let back = MetadataModel::from_segment(&out[plo..phi].to_vec()).expect("decodes");
    assert!(matches!(back.byte_order, ByteOrder::Big));
    assert_eq!(back.get_tag("Make"), Some(b"TestCam".to_vec()));
    assert_eq!(back.get_tag("DateTimeOriginal"), Some(TS.as_bytes().to_vec()));
}

#[test]
fn unrelated_tags_survive_timestamp_edit() {
    // a JPEG whose APP1 already holds unrelated tags
    let mut m = MetadataModel::empty(ByteOrder::Little);
    m.set_tag("Make", "TestCam").expect("valid make");
    m.set_tag("ImageDescription", "holiday").expect("valid description");
    let payload = m.to_segment(ImageFormat::Jpeg).expect("encodes");
    let mut img = vec![0xFF, 0xD8];
    img.extend_from_slice(&[0xFF, 0xE1]);
    img.extend_from_slice(&((payload.len() + 2) as u16).to_be_bytes());
    img.extend_from_slice(&payload);
    img.extend_from_slice(&[0xFF, 0xDA, 0x00, 0x04, 0x01, 0x00, 0xFF, 0xD9]);

    let out = embed_timestamp(&img, TS, ImageFormat::Jpeg).expect("embed succeeds");
    let (_, plo, phi, _) = find_app1(&out);
    let back = MetadataModel::from_segment(&out[plo..phi].to_vec()).expect("decodes");
    assert_eq!(back.get_tag("Make"), Some(b"TestCam".to_vec()));
    assert_eq!(back.get_tag("ImageDescription"), Some(b"holiday".to_vec()));
    assert_eq!(back.get_tag("DateTimeOriginal"), Some(TS.as_bytes().to_vec()));
}

#[test]
fn bytes_outside_segment_are_preserved() {
    let mut m = MetadataModel::empty(ByteOrder::Little);
    m.set_tag("Make", "OldCam").expect("valid make");
    let tiff = m.to_segment(ImageFormat::Png).expect("encodes");
    let img = png_with_exif(&tiff);
    let (lo, hi) = match locate_segment(&img, ImageFormat::Png).expect("well-formed") {
        Location::Found { lo, hi, .. } => (lo, hi),
        Location::Absent { .. } => panic!("expected an eXIf chunk"),
    };
    let out = embed_timestamp(&img, TS, ImageFormat::Png).expect("embed succeeds");
    // every byte outside the replaced chunk is bit-identical
    assert_eq!(&out[..lo], &img[..lo]);
    assert_eq!(&out[out.len() - (img.len() - hi)..], &img[hi..]);
}

#[test]
fn webp_fresh_segment_updates_riff_size() {
    let mut img: Vec<u8> = Vec::new();
    img.extend_from_slice(b"RIFF");
    img.extend_from_slice(&14u32.to_le_bytes());
    img.extend_from_slice(b"WEBP");
    img.extend_from_slice(b"VP8 ");
    img.extend_from_slice(&2u32.to_le_bytes());
    img.extend_from_slice(&[0xAB, 0xCD]);
    let out = embed_timestamp(&img, TS, ImageFormat::Webp).expect("embed succeeds");
    // EXIF chunk inserted after the VP8 chunk
    match locate_segment(&out, ImageFormat::Webp).expect("well-formed webp") {
        Location::Found { lo, .. } => assert_eq!(lo, 22),
        Location::Absent { .. } => panic!("expected an EXIF chunk"),
    }
    // RIFF size field tracks the new total length
    let size = u32::from_le_bytes([out[4], out[5], out[6], out[7]]) as usize;
    assert_eq!(size + 8, out.len());
    // leading bytes preserved
    assert_eq!(&out[8..22], &img[8..22]);
}

#[test]
fn unknown_tag_is_rejected() {
    let mut m = MetadataModel::empty(ByteOrder::Little);
    assert_eq!(m.set_tag("NotATag", "x"), Err(EngineError::UnknownTag));
}

#[test]
fn wrong_length_timestamp_is_type_mismatch() {
    let mut m = MetadataModel::empty(ByteOrder::Little);
    assert_eq!(
        m.set_tag("DateTimeOriginal", "2024:01:15"),
        Err(EngineError::TypeMismatch)
    );
    assert_eq!(
        m.set_tag("DateTimeOriginal", "2024:01:15 10:30:00:99"),
        Err(EngineError::TypeMismatch)
    );
}

#[test]
fn invalid_format_name() {
    assert_eq!(parse_format("gif"), Err(EngineError::InvalidFormat));
    assert_eq!(parse_format("jpeg"), Ok(ImageFormat::Jpeg));
    assert_eq!(parse_format("png"), Ok(ImageFormat::Png));
    assert_eq!(parse_format("webp"), Ok(ImageFormat::Webp));
}

#[test]
fn truncated_ifd_is_detected() {
    // a TIFF header promising one entry, with no entry bytes behind it
    let seg: Vec<u8> = vec![0x49, 0x49, 42, 0, 8, 0, 0, 0, 1, 0];
    assert!(matches!(
        MetadataModel::from_segment(&seg),
        Err(EngineError::TruncatedIfd)
    ));
}

#[test]
fn oversized_segment_is_rejected_for_jpeg() {
    let mut m = MetadataModel::empty(ByteOrder::Little);
    let big = "x".repeat(70_000);
    m.set_tag("Make", &big).expect("variable-length tag accepts it");
    assert_eq!(m.to_segment(ImageFormat::Jpeg), Err(EngineError::SegmentTooLarge));
    // the same model fits a PNG chunk
    assert!(m.to_segment(ImageFormat::Png).is_ok());
}

#[test]
fn crc32_known_value() {
    let data = b"123456789".to_vec();
    assert_eq!(crc32(&data), 0xCBF43926);
}

#[test]
fn unrecognized_value_types_are_preserved() {
    // a little-endian TIFF whose single entry has value type 200 (unknown):
    // tolerant decode keeps its 4 value bytes opaquely
    let mut seg: Vec<u8> = vec![0x49, 0x49, 42, 0, 8, 0, 0, 0];
    seg.extend_from_slice(&[1, 0]); // one entry
    seg.extend_from_slice(&[0x0E, 0x01]); // code 0x010E
    seg.extend_from_slice(&[200, 0]); // unrecognized type
    seg.extend_from_slice(&[2, 0, 0, 0]); // count
    seg.extend_from_slice(&[9, 8, 7, 6]); // raw value bytes
    seg.extend_from_slice(&[0, 0, 0, 0]); // next IFD
    let m = MetadataModel::from_segment(&seg).expect("tolerant decode");
    let out = m.to_segment(ImageFormat::Png).expect("re-encodes");
    let back = MetadataModel::from_segment(&out).expect("decodes again");
    match &back.primary[0].value {
        exif_engine::model::TagValue::Opaque { type_code, count, data } => {
            assert_eq!(*type_code, 200);
            assert_eq!(*count, 2);
            assert_eq!(data, &vec![9, 8, 7, 6]);
        }
        _ => panic!("expected an opaque value"),
    }
}

#[test]
fn unsorted_entries_are_malformed() {
    let mut seg: Vec<u8> = vec![0x49, 0x49, 42, 0, 8, 0, 0, 0];
    seg.extend_from_slice(&[2, 0]); // two entries, out of order
    seg.extend_from_slice(&[0x10, 0x01, 200, 0, 1, 0, 0, 0, 1, 2, 3, 4]);
    seg.extend_from_slice(&[0x0E, 0x01, 200, 0, 1, 0, 0, 0, 5, 6, 7, 8]);
    seg.extend_from_slice(&[0, 0, 0, 0]);
    assert!(matches!(
        MetadataModel::from_segment(&seg),
        Err(EngineError::MalformedContainer)
    ));
}

#[test]
fn format_mismatch_is_malformed() {
    let img = minimal_jpeg();
    assert_eq!(
        embed_timestamp(&img, TS, ImageFormat::Png),
        Err(EngineError::MalformedContainer)
    );
    assert_eq!(
        embed_timestamp(&img, TS, ImageFormat::Webp),
        Err(EngineError::MalformedContainer)
    );
}
