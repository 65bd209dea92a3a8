use std::io::Write;

use base64::engine::general_purpose::STANDARD as BASE64;
use base64::Engine as _;
use flate2::write::ZlibEncoder;
use flate2::Compression;
use rtwkit::tavern::{
    check_portrait_binding, decode_metadata_payload, extract_png_chara_and_artwork,
    read_card_carriage, trim_ascii_bytes, AssetRef, CardError, PngProblem, TAVERN_PNG_MEDIA_TYPE,
};
use rtwkit::tavern_card::import_tavern_v2;
use serde_json::Value;
use sha2::{Digest, Sha256};

const CARD: &str = r#"{"spec":"chara_card_v2","spec_version":"2.0","vendor_top":{"keep":true},"data":{"name":"Alice","description":"Portable description","personality":"Curious","scenario":"A train platform","first_mes":"Hello from the platform.","alternate_greetings":["Hi.","Good evening."],"extensions":{"unknown_scalar":42}}}"#;

fn card_json() -> Vec<u8> {
    CARD.as_bytes().to_vec()
}

fn card_name(json: &[u8]) -> String {
    let value: Value = serde_json::from_slice(json).unwrap();
    value["data"]["name"].as_str().unwrap().to_string()
}

fn png_header() -> Vec<u8> {
    let mut png = b"\x89PNG\r\n\x1a\n".to_vec();
    let ihdr = [0, 0, 0, 1, 0, 0, 0, 1, 8, 6, 0, 0, 0];
    push_png_chunk(&mut png, b"IHDR", &ihdr);
    png
}

fn push_png_chunk(png: &mut Vec<u8>, chunk_type: &[u8; 4], data: &[u8]) {
    png.extend_from_slice(&(data.len() as u32).to_be_bytes());
    png.extend_from_slice(chunk_type);
    png.extend_from_slice(data);
    let mut hasher = crc32fast::Hasher::new();
    hasher.update(chunk_type);
    hasher.update(data);
    png.extend_from_slice(&hasher.finalize().to_be_bytes());
}

fn zlib(data: &[u8]) -> Vec<u8> {
    let mut encoder = ZlibEncoder::new(Vec::new(), Compression::default());
    encoder.write_all(data).unwrap();
    encoder.finish().unwrap()
}

fn base64_png() -> Vec<u8> {
    let mut text = b"chara\0".to_vec();
    text.extend_from_slice(BASE64.encode(card_json()).as_bytes());
    let mut png = png_header();
    push_png_chunk(&mut png, b"tEXt", &text);
    push_png_chunk(&mut png, b"IEND", &[]);
    png
}

#[test]
fn test_should_import_base64_tavern_v2_from_png_text_chunk() {
    let png = base64_png();
    let (json, artwork) = extract_png_chara_and_artwork(&png).unwrap();
    assert_eq!(card_name(&json), "Alice");
    let value: Value = serde_json::from_slice(&json).unwrap();
    assert_eq!(
        value["data"]["alternate_greetings"].as_array().unwrap().len(),
        2
    );
    let mut expected = png_header();
    push_png_chunk(&mut expected, b"IEND", &[]);
    assert_eq!(artwork, expected);
    let template = import_tavern_v2(&png).unwrap();
    assert_eq!(template.name, "Alice");
    assert_eq!(template.session.alternate_greetings.len(), 2);
}

#[test]
fn test_should_import_compressed_and_international_png_text_carriage() {
    let encoded = BASE64.encode(card_json());

    let mut ztxt = b"chara\0\0".to_vec();
    ztxt.extend_from_slice(&zlib(encoded.as_bytes()));
    let mut ztxt_png = png_header();
    push_png_chunk(&mut ztxt_png, b"zTXt", &ztxt);
    push_png_chunk(&mut ztxt_png, b"IEND", &[]);
    let (json, _) = extract_png_chara_and_artwork(&ztxt_png).unwrap();
    assert_eq!(card_name(&json), "Alice");
    assert_eq!(import_tavern_v2(&ztxt_png).unwrap().name, "Alice");

    let mut itxt = b"chara\0\0\0\0\0".to_vec();
    itxt.extend_from_slice(encoded.as_bytes());
    let mut itxt_png = png_header();
    push_png_chunk(&mut itxt_png, b"iTXt", &itxt);
    push_png_chunk(&mut itxt_png, b"IEND", &[]);
    let (json, _) = extract_png_chara_and_artwork(&itxt_png).unwrap();
    assert_eq!(card_name(&json), "Alice");
    assert_eq!(import_tavern_v2(&itxt_png).unwrap().name, "Alice");
}

#[test]
fn test_should_import_legacy_base64_zlib_json_payload() {
    let encoded = BASE64.encode(zlib(&card_json()));
    let mut text = b"chara\0".to_vec();
    text.extend_from_slice(encoded.as_bytes());
    let mut png = png_header();
    push_png_chunk(&mut png, b"tEXt", &text);
    push_png_chunk(&mut png, b"IEND", &[]);
    let (json, _) = extract_png_chara_and_artwork(&png).unwrap();
    assert_eq!(card_name(&json), "Alice");
    assert_eq!(import_tavern_v2(&png).unwrap().name, "Alice");
}

#[test]
fn test_should_reject_png_with_corrupt_chunk_crc() {
    let mut text = b"chara\0".to_vec();
    text.extend_from_slice(BASE64.encode(card_json()).as_bytes());
    let mut png = png_header();
    push_png_chunk(&mut png, b"tEXt", &text);
    let last = png.len() - 1;
    png[last] ^= 0xff;

    assert!(extract_png_chara_and_artwork(&png).is_err());
    assert_eq!(
        extract_png_chara_and_artwork(&png).unwrap_err(),
        CardError::InvalidPng(PngProblem::CrcMismatch)
    );
}

#[test]
fn test_should_validate_remaining_png_chunks_after_card_metadata() {
    let mut text = b"chara\0".to_vec();
    text.extend_from_slice(BASE64.encode(card_json()).as_bytes());
    let mut png = png_header();
    push_png_chunk(&mut png, b"tEXt", &text);
    let corrupt_start = png.len();
    push_png_chunk(&mut png, b"tEXt", b"note\0after-card");
    let corrupt_crc = png.len() - 1;
    png[corrupt_crc] ^= 0xff;
    push_png_chunk(&mut png, b"IEND", &[]);

    assert!(corrupt_start < corrupt_crc);
    assert!(extract_png_chara_and_artwork(&png).is_err());
}

#[test]
fn png_problems_are_named() {
    assert_eq!(
        extract_png_chara_and_artwork(b"not a png").unwrap_err(),
        CardError::InvalidPng(PngProblem::InvalidSignature)
    );

    let mut no_end = png_header();
    push_png_chunk(&mut no_end, b"tEXt", b"chara\0{}");
    assert_eq!(
        extract_png_chara_and_artwork(&no_end).unwrap_err(),
        CardError::InvalidPng(PngProblem::MissingEnd)
    );

    let mut no_card = png_header();
    push_png_chunk(&mut no_card, b"IEND", &[]);
    assert_eq!(
        extract_png_chara_and_artwork(&no_card).unwrap_err(),
        CardError::MissingPngCardPayload
    );

    let mut twice = png_header();
    push_png_chunk(&mut twice, b"tEXt", b"chara\0{}");
    push_png_chunk(&mut twice, b"tEXt", b"chara\0{}");
    push_png_chunk(&mut twice, b"IEND", &[]);
    assert_eq!(
        extract_png_chara_and_artwork(&twice).unwrap_err(),
        CardError::InvalidPng(PngProblem::AmbiguousCardChunks)
    );

    let mut headless = b"\x89PNG\r\n\x1a\n".to_vec();
    push_png_chunk(&mut headless, b"tEXt", b"chara\0{}");
    push_png_chunk(&mut headless, b"IEND", &[]);
    assert_eq!(
        extract_png_chara_and_artwork(&headless).unwrap_err(),
        CardError::InvalidPng(PngProblem::FirstChunkNotHeader)
    );
    assert_eq!(PngProblem::CrcMismatch.text(), "PNG chunk CRC mismatch");
}

#[test]
fn metadata_payload_forms() {
    assert_eq!(
        decode_metadata_payload(b"  {\"a\":1}\n").unwrap(),
        b"{\"a\":1}".to_vec()
    );
    assert_eq!(
        decode_metadata_payload(BASE64.encode(b"{\"a\":1}").as_bytes()).unwrap(),
        b"{\"a\":1}".to_vec()
    );
    assert_eq!(
        decode_metadata_payload(b"!!!").unwrap_err(),
        CardError::InvalidMetadataPayload
    );
    assert_eq!(trim_ascii_bytes(b" \t x \r\n"), b"x".to_vec());
}

#[test]
fn plain_json_carriage_has_no_artwork() {
    let (json, artwork) = read_card_carriage(CARD.as_bytes()).unwrap();
    assert_eq!(json, card_json());
    assert!(artwork.is_none());
    let reference = AssetRef {
        digest: vec![0; 32],
        size: 1,
        media_type: TAVERN_PNG_MEDIA_TYPE.to_string(),
    };
    assert_eq!(
        check_portrait_binding(None, &reference).unwrap_err(),
        CardError::MissingPngArtwork
    );
}

#[test]
fn portrait_binds_only_to_the_extracted_artwork() {
    let png = base64_png();
    let (_, artwork) = read_card_carriage(&png).unwrap();
    let artwork = artwork.unwrap();
    assert_eq!(artwork.media_type(), "image/png");
    let bytes = artwork.bytes().to_vec();
    let reference = AssetRef {
        digest: Sha256::digest(&bytes).to_vec(),
        size: bytes.len() as u64,
        media_type: TAVERN_PNG_MEDIA_TYPE.to_string(),
    };
    assert!(artwork.matches_reference(&reference));
    assert!(check_portrait_binding(Some(&artwork), &reference).is_ok());

    let wrong = AssetRef {
        digest: Sha256::digest(b"other").to_vec(),
        size: bytes.len() as u64,
        media_type: TAVERN_PNG_MEDIA_TYPE.to_string(),
    };
    assert_eq!(
        check_portrait_binding(Some(&artwork), &wrong).unwrap_err(),
        CardError::PortraitAssetMismatch
    );
}

#[test]
fn bound_portrait_keeps_the_template() {
    let png = base64_png();
    let imported = rtwkit::tavern_card::import_tavern_v2_with_artwork(&png).unwrap();
    let bytes = imported.portrait.as_ref().unwrap().bytes().to_vec();
    let reference = AssetRef {
        digest: Sha256::digest(&bytes).to_vec(),
        size: bytes.len() as u64,
        media_type: TAVERN_PNG_MEDIA_TYPE.to_string(),
    };
    let greeting = imported.template.session.greeting.clone();
    let digest = reference.digest.clone();
    let template = imported.bind_portrait(reference).unwrap();
    assert_eq!(template.name, "Alice");
    assert_eq!(template.session.greeting, greeting);
    let portrait = template.assets.portrait.unwrap();
    assert_eq!(portrait.digest, digest);
    assert_eq!(portrait.size, bytes.len() as u64);
}
