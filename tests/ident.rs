use ethstore::filename::vault_file_name;
use ethstore::ident::{address_string, parse_address, parse_uuid, uuid_string};

#[test]
fn uuid_text_round_trip() {
    let id = [
        0x3f, 0x8a, 0x00, 0x01, 0xb2, 0xc4, 0x4d, 0xe5, 0x9a, 0x10, 0xff, 0xee, 0x01, 0x23, 0x45, 0x67,
    ];
    let text = uuid_string(&id);
    assert_eq!(parse_uuid(&text), Some(id));
}

#[test]
fn parse_uuid_accepts_upper_case() {
    assert_eq!(
        parse_uuid("3F8A0001-B2C4-4DE5-9A10-FFEE01234567"),
        parse_uuid("3f8a0001-b2c4-4de5-9a10-ffee01234567")
    );
    assert_eq!(parse_uuid("00000000-0000-0000-0000-0000000000ff").unwrap()[15], 0xff);
}

#[test]
fn parse_uuid_rejects_malformed_text() {
    assert_eq!(parse_uuid(""), None);
    assert_eq!(parse_uuid("3f8a0001b2c44de59a10ffee01234567"), None);
    assert_eq!(parse_uuid("3f8a0001-b2c4-4de5-9a10-ffee0123456g"), None);
    assert_eq!(parse_uuid("3f8a0001-b2c4-4de5-9a10_ffee01234567"), None);
}

#[test]
fn address_text_round_trip() {
    let mut address = [0u8; 20];
    for (i, b) in address.iter_mut().enumerate() {
        *b = (i as u8) * 13;
    }
    let text = address_string(&address);
    assert_eq!(text.len(), 40);
    assert_eq!(&text[0..6], "000d1a");
    assert_eq!(parse_address(&text), Some(address));
}

#[test]
fn parse_address_rejects_malformed_text() {
    assert_eq!(parse_address("00"), None);
    assert_eq!(parse_address("zz0d1a2734414e5b6875828f9ca9b6c3d0ddeaf7"), None);
    assert_eq!(parse_address("000D1A2734414E5B6875828F9CA9B6C3D0DDEAF7").unwrap()[1], 13);
}

#[test]
fn vault_marker_name() {
    assert_eq!(vault_file_name(), "vault.json");
}
