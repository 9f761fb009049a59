use velo_de::theme::Rgba8;

#[test]
fn hex_round_trip() {
    let c = Rgba8::from_hex("#8ab4d4").unwrap();
    assert_eq!(c.to_hex(false), "#8ab4d4");
    assert_eq!(c.r, 0x8a);
}

#[test]
fn hex_round_trip_with_alpha() {
    let c = Rgba8::from_hex("#8ab4d414").unwrap();
    assert_eq!(c.to_hex(true), "#8ab4d414");
}

#[test]
fn rejects_bad_hex() {
    assert!(Rgba8::from_hex("#zzzzzz").is_err());
    assert!(Rgba8::from_hex("#fff").is_err());
}

#[test]
fn six_digits_mean_opaque() {
    assert_eq!(Rgba8::from_hex("#09090c"), Ok(Rgba8 { r: 0x09, g: 0x09, b: 0x0c, a: 0xff }));
    assert_eq!(Rgba8::from_hex("  ##4D8FB8\t"), Ok(Rgba8 { r: 0x4d, g: 0x8f, b: 0xb8, a: 0xff }));
}

#[test]
fn palette_colours_write_back_in_lowercase() {
    assert_eq!(Rgba8 { r: 0x09, g: 0x09, b: 0x0c, a: 255 }.to_hex(false), "#09090c");
    assert_eq!(Rgba8 { r: 0x4d, g: 0x8f, b: 0xb8, a: 255 }.to_hex(false), "#4d8fb8");
    assert_eq!(Rgba8 { r: 0x8a, g: 0xb4, b: 0xd4, a: 0x14 }.to_hex(true), "#8ab4d414");
}

#[test]
fn error_messages_name_the_body() {
    assert_eq!(Rgba8::from_hex("#fff"), Err("invalid color: \"fff\" (expected #rrggbb or #rrggbbaa)".to_string()));
    assert_eq!(Rgba8::from_hex(" #zzzzzz "), Err("invalid color: \"zzzzzz\"".to_string()));
}

#[test]
fn length_is_counted_in_utf8_bytes() {
    // three two-byte characters make six bytes: the digits are invalid,
    // not the length
    assert_eq!(Rgba8::from_hex("ééé"), Err("invalid color: \"ééé\"".to_string()));
    // six characters but more than eight bytes: the length is wrong
    assert!(Rgba8::from_hex("éééééé").unwrap_err().ends_with("(expected #rrggbb or #rrggbbaa)"));
}

#[test]
fn only_hex_digits_make_a_byte() {
    assert_eq!(Rgba8::from_hex("#+f+f+f"), Err("invalid color: \"+f+f+f\"".to_string()));
    assert!(Rgba8::from_hex("+a0000").is_err());
    assert!(Rgba8::from_hex("-a0000").is_err());
    assert!(Rgba8::from_hex("#8ab4d4+1").is_err());
}
