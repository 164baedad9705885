use base64::Engine;
use cbc::cipher::block_padding::NoPadding;
use cbc::cipher::block_padding::Pkcs7;
use cbc::cipher::BlockEncryptMut;
use cbc::cipher::KeyIvInit;
use miassistant_core::device::DeviceInfo;
use miassistant_core::errors::Error;
use miassistant_core::validate::build_request_doc;
use miassistant_core::validate::build_request_form;
use miassistant_core::validate::build_request_plaintext;
use miassistant_core::validate::parse_plaintext;
use miassistant_core::validate::pkcs7_pad;
use miassistant_core::validate::validate_response;
use miassistant_core::validate::PackageRom;
use miassistant_core::validate::ValidationResult;

fn sample_info() -> DeviceInfo {
    DeviceInfo {
        device: "venus".to_string(),
        version: "V14".to_string(),
        sn: "SN1".to_string(),
        codebase: "13".to_string(),
        branch: "F".to_string(),
        language: "en-US".to_string(),
        region: "GLOBAL".to_string(),
        romzone: "2".to_string(),
    }
}

const SAMPLE_MD5: &str = "d41d8cd98f00b204e9800998ecf8427e";

fn expected_doc() -> Vec<u8> {
    let mut doc = Vec::new();
    doc.extend_from_slice(b"{\"d\":\"venus\",\"v\":\"V14\",\"c\":\"13\",\"b\":\"F\",\"sn\":\"SN1\",");
    doc.extend_from_slice(b"\"l\":\"en-US\",\"f\":\"1\",\"options\":{\"zone\":\"2\"},");
    doc.extend_from_slice(b"\"pkg\":\"d41d8cd98f00b204e9800998ecf8427e\"}");
    doc
}

#[test]
fn request_document_is_exact_compact_json() {
    let doc = build_request_doc(&sample_info(), SAMPLE_MD5);
    assert_eq!(doc, expected_doc());
}

#[test]
fn request_plaintext_is_padded_document() {
    // The AES plaintext must be the compact JSON, PKCS#7-padded.
    let plain = build_request_plaintext(&sample_info(), SAMPLE_MD5);
    let doc = expected_doc();
    let pad = 16 - doc.len() % 16;
    let mut expected = doc;
    for _ in 0..pad {
        expected.push(pad as u8);
    }
    assert_eq!(plain, expected);
}

#[test]
fn pad_appends_full_block_when_aligned() {
    let out = pkcs7_pad(vec![0u8; 16]);
    assert_eq!(out.len(), 32);
    assert!(out[16..].iter().all(|&b| b == 16));
    let out = pkcs7_pad(vec![1u8, 2, 3]);
    assert_eq!(out.len(), 16);
    assert!(out[3..].iter().all(|&b| b == 13));
}

#[test]
fn flash_token_extracted_from_noisy_plaintext() {
    let plain = b"garbage{\"PkgRom\":{\"Validate\":\"abc\",\"Erase\":\"1\"}}trailing";
    match parse_plaintext(plain, true).unwrap() {
        ValidationResult::FlashToken { token, erase } => {
            assert_eq!(token, "abc");
            assert!(erase);
        }
        other => panic!("expected a flash token, got {:?}", other),
    }
}

#[test]
fn erase_zero_means_false() {
    let plain = b"{\"PkgRom\":{\"Validate\":\"abc\",\"Erase\":\"0\"}}";
    match parse_plaintext(plain, true).unwrap() {
        ValidationResult::FlashToken { token, erase } => {
            assert_eq!(token, "abc");
            assert!(!erase);
        }
        other => panic!("expected a flash token, got {:?}", other),
    }
}

#[test]
fn missing_pkg_rom_is_invalid_response() {
    let plain = b"{\"Code\":0}";
    match parse_plaintext(plain, true) {
        Err(Error::InvalidResponse(m)) => assert_eq!(m, "PkgRom missing"),
        other => panic!("expected an invalid-response error, got {:?}", other),
    }
}

#[test]
fn no_json_object_is_invalid_response() {
    match parse_plaintext(b"plain nonsense", true) {
        Err(Error::InvalidResponse(m)) => assert_eq!(m, "JSON not found"),
        other => panic!("expected an invalid-response error, got {:?}", other),
    }
    // A lone closing brace before the first opening brace is noise too.
    match parse_plaintext(b"}x{", false) {
        Err(Error::InvalidResponse(_)) => {}
        other => panic!("expected an invalid-response error, got {:?}", other),
    }
}

#[test]
fn listing_round_trips_through_pretty_print() {
    let plain = b"xx{\"Listing\":[{\"name\":\"rom-a\"},{\"name\":\"rom-b\"}]}yy";
    match parse_plaintext(plain, false).unwrap() {
        ValidationResult::Listing(v) => {
            let pretty = serde_json::to_string_pretty(&v).unwrap();
            let back: serde_json::Value = serde_json::from_str(&pretty).unwrap();
            assert_eq!(back, v);
            assert_eq!(
                back.get("Listing").unwrap().as_array().unwrap().len(),
                2
            );
        }
        other => panic!("expected a listing, got {:?}", other),
    }
}

#[test]
fn package_rom_field_mapping() {
    // Erase means erase only when it is exactly the string "1".
    let pkg = PackageRom { validate: Some("T".to_string()), erase: None };
    let (token, erase) = pkg.flash_fields();
    assert_eq!(token, "T");
    assert!(!erase);
    let pkg = PackageRom { validate: Some("T".to_string()), erase: Some("yes".to_string()) };
    let (token, erase) = pkg.flash_fields();
    assert_eq!(token, "T");
    assert!(!erase);
    let pkg = PackageRom { validate: Some("T".to_string()), erase: Some("1".to_string()) };
    let (_, erase) = pkg.flash_fields();
    assert!(erase);
}

#[test]
fn missing_validate_is_invalid_response() {
    // PkgRom.Validate is required: a PkgRom without it authorizes nothing.
    let plain = b"{\"PkgRom\":{\"Erase\":\"1\"}}";
    match parse_plaintext(plain, true) {
        Err(Error::InvalidResponse(m)) => assert_eq!(m, "Validate missing"),
        other => panic!("expected an invalid-response error, got {:?}", other),
    }
    // A Validate that is not a string counts as missing too.
    let plain = b"{\"PkgRom\":{\"Validate\":7,\"Erase\":\"1\"}}";
    match parse_plaintext(plain, true) {
        Err(Error::InvalidResponse(m)) => assert_eq!(m, "Validate missing"),
        other => panic!("expected an invalid-response error, got {:?}", other),
    }
}

/// AES-128-CBC with the fixed key and IV, padded, as the server would
/// produce it; built directly on the cipher crates.
fn encrypt_like_server(plain: &[u8]) -> Vec<u8> {
    let key = b"miuiotavalided11";
    let iv = b"0102030405060708";
    let enc = cbc::Encryptor::<aes::Aes128>::new_from_slices(key, iv).unwrap();
    enc.encrypt_padded_vec_mut::<Pkcs7>(plain)
}

#[test]
fn response_decodes_through_real_crypto() {
    // A full response body: AES-encrypted, Base64-encoded.
    let plain = b"ok{\"PkgRom\":{\"Validate\":\"tok-1\",\"Erase\":\"1\"}}";
    let body = base64::engine::general_purpose::STANDARD.encode(encrypt_like_server(plain));
    match validate_response(body.as_bytes(), true).unwrap() {
        ValidationResult::FlashToken { token, erase } => {
            assert_eq!(token, "tok-1");
            assert!(erase);
        }
        other => panic!("expected a flash token, got {:?}", other),
    }
}

#[test]
fn bad_base64_is_crypto_error() {
    match validate_response(b"!!!not base64!!!", true) {
        Err(Error::Crypto(_)) => {}
        other => panic!("expected a crypto error, got {:?}", other),
    }
}

#[test]
fn bad_ciphertext_is_crypto_error() {
    // Valid Base64, but not whole AES blocks.
    let body = base64::engine::general_purpose::STANDARD.encode(b"short");
    match validate_response(body.as_bytes(), true) {
        Err(Error::Crypto(_)) => {}
        other => panic!("expected a crypto error, got {:?}", other),
    }
}

#[test]
fn request_form_matches_reference_pipeline() {
    // The form body must be q=<urlencoded base64 of the raw-CBC encryption
    // of the once-padded document>&t=&s=1.
    let info = sample_info();
    let form = build_request_form(&info, SAMPLE_MD5);
    let mut padded = expected_doc();
    let pad = 16 - padded.len() % 16;
    for _ in 0..pad {
        padded.push(pad as u8);
    }
    let key = b"miuiotavalided11";
    let iv = b"0102030405060708";
    let enc = cbc::Encryptor::<aes::Aes128>::new_from_slices(key, iv).unwrap();
    let ct = enc.encrypt_padded_vec_mut::<NoPadding>(&padded);
    // Exactly one layer of padding: the ciphertext is as long as the
    // padded document.
    assert_eq!(ct.len(), padded.len());
    let b64 = base64::engine::general_purpose::STANDARD.encode(ct);
    let expected = format!("q={}&t=&s=1", urlencoding::encode(&b64));
    assert_eq!(String::from_utf8(form).unwrap(), expected);
}

#[test]
fn request_ciphertext_decrypts_back_to_document() {
    // Decrypting the outbound ciphertext with the same key and IV strips
    // the one pad layer and returns the exact document.
    let info = sample_info();
    let form = build_request_form(&info, SAMPLE_MD5);
    let body = String::from_utf8(form).unwrap();
    let encoded = &body[2..body.len() - "&t=&s=1".len()];
    let b64 = urlencoding::decode(encoded).unwrap();
    let ct = base64::engine::general_purpose::STANDARD
        .decode(b64.as_bytes())
        .unwrap();
    let key = b"miuiotavalided11";
    let iv = b"0102030405060708";
    let dec = cbc::Decryptor::<aes::Aes128>::new_from_slices(key, iv).unwrap();
    let plain = cbc::cipher::BlockDecryptMut::decrypt_padded_vec_mut::<Pkcs7>(dec, &ct).unwrap();
    assert_eq!(plain, expected_doc());
}
