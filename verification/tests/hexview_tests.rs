use ez_shark::hexview::{bytes_to_hex_structs, string_to_body_hex, BodyHex};

#[test]
fn hex_rows_partition() {
    let data: Vec<u8> = (0u8..20u8).collect();
    let rows = bytes_to_hex_structs(&data);
    assert_eq!(rows.len(), 2);
    assert_eq!(rows[0].offset_address, 0);
    assert_eq!(rows[1].offset_address, 16);
    assert_eq!(rows[0].hex.len(), 16);
    assert_eq!(rows[1].hex.len(), 4);
    assert_eq!(rows[0].character_view.chars().count(), 16);
    assert_eq!(rows[1].character_view.chars().count(), 4);
}

#[test]
fn hex_rows_exact_multiple() {
    let data: Vec<u8> = vec![0x41; 32];
    let rows = bytes_to_hex_structs(&data);
    assert_eq!(rows.len(), 2);
    assert_eq!(rows[1].hex.len(), 16);
}

#[test]
fn hex_rows_empty() {
    let rows = bytes_to_hex_structs(&[]);
    assert_eq!(rows.len(), 0);
}

#[test]
fn char_view_printable_and_binary() {
    let row = BodyHex::new(0, vec![0x41, 0x7e, 0x20, 0x1f, 0x7f, 0x00, 0xff]);
    assert_eq!(row.character_view, "A~ \u{20}\u{20}\u{20}\u{20}");
    assert_eq!(row.character_view, "A~     ");
}

#[test]
fn format_offset_padded() {
    let row = BodyHex::new(255, vec![]);
    assert_eq!(row.format_offset(), "000000ff");
    let big = BodyHex::new(0xdeadbeef, vec![]);
    assert_eq!(big.format_offset(), "deadbeef");
}

#[test]
fn format_hex_spaced_lowercase() {
    let row = BodyHex::new(0, vec![0x00, 0xff, 0x10]);
    assert_eq!(row.format_hex(), "00 ff 10");
}

#[test]
fn string_rows_use_utf8_bytes() {
    let rows = string_to_body_hex("hé");
    assert_eq!(rows.len(), 1);
    assert_eq!(rows[0].hex, "hé".as_bytes().to_vec());
    assert_eq!(rows[0].character_view.chars().count(), 3);
}
