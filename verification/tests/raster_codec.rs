use zebras::{
    create_graphic_field_from_image, image_to_zpl_hex, parse_graphic_field_from_zpl, rgb_to_grayscale,
    RasterImage, Rgb, ZplCommand,
};

fn black() -> Rgb {
    Rgb { r: 0, g: 0, b: 0 }
}

fn white() -> Rgb {
    Rgb {
        r: 255,
        g: 255,
        b: 255,
    }
}

#[test]
fn grayscale_uses_the_fixed_weights() {
    assert_eq!(rgb_to_grayscale(black()), 0);
    assert_eq!(rgb_to_grayscale(white()), 255);
    assert_eq!(rgb_to_grayscale(Rgb { r: 255, g: 0, b: 0 }), 76);
    assert_eq!(rgb_to_grayscale(Rgb { r: 0, g: 255, b: 0 }), 149);
    assert_eq!(rgb_to_grayscale(Rgb { r: 0, g: 0, b: 255 }), 29);
}

#[test]
fn encode_packs_dark_pixels_most_significant_first() {
    // one row of 8 pixels: black, white, black, white, ...
    let mut pixels = Vec::new();
    for x in 0..8 {
        pixels.push(if x % 2 == 0 { black() } else { white() });
    }
    let img = RasterImage {
        width: 8,
        height: 1,
        pixels,
    };
    assert_eq!(image_to_zpl_hex(&img, 128), "AA");
}

#[test]
fn encode_pads_partial_bytes_with_zero_bits() {
    // 9 black pixels in one row: 0xFF then only the top bit of the second byte
    let img = RasterImage {
        width: 9,
        height: 1,
        pixels: vec![black(); 9],
    };
    assert_eq!(image_to_zpl_hex(&img, 128), "FF80");
}

#[test]
fn lower_threshold_classifies_fewer_pixels_black() {
    let gray = Rgb {
        r: 100,
        g: 100,
        b: 100,
    };
    let img = RasterImage {
        width: 8,
        height: 1,
        pixels: vec![gray; 8],
    };
    assert_eq!(image_to_zpl_hex(&img, 50), "00");
    assert_eq!(image_to_zpl_hex(&img, 150), "FF");
}

#[test]
fn encode_concatenates_rows_without_separators() {
    let mut pixels = vec![black(); 8];
    pixels.extend(vec![white(); 8]);
    let img = RasterImage {
        width: 8,
        height: 2,
        pixels,
    };
    assert_eq!(image_to_zpl_hex(&img, 128), "FF00");
}

#[test]
fn round_trip_recovers_geometry_and_payload() {
    let mut pixels = Vec::new();
    for y in 0..2 {
        for x in 0..16 {
            pixels.push(if (x + y) % 3 == 0 { black() } else { white() });
        }
    }
    let img = RasterImage {
        width: 16,
        height: 2,
        pixels,
    };
    let encoded = image_to_zpl_hex(&img, 128);
    let cmd = create_graphic_field_from_image(&img, 128);
    let wire = cmd.to_zpl_string();
    let (width, height, payload) = parse_graphic_field_from_zpl(&wire).unwrap();
    assert_eq!(width, 16);
    assert_eq!(height, 2);
    assert_eq!(payload, encoded);
}

#[test]
fn decode_reads_header_fields_and_normalizes_payload() {
    let r = parse_graphic_field_from_zpl("^XA^GFA,4,4,2,ff00 aa,55^FS^XZ").unwrap();
    assert_eq!(r, (16, 2, "FF00AA55".to_string()));
}

#[test]
fn decode_accepts_lowercase_command() {
    let r = parse_graphic_field_from_zpl("^gfa,1,1,1,80").unwrap();
    assert_eq!(r, (8, 1, "80".to_string()));
}

#[test]
fn decode_fails_without_a_graphic_field() {
    assert_eq!(parse_graphic_field_from_zpl("^XA^FO10,10^XZ"), None);
    assert_eq!(parse_graphic_field_from_zpl(""), None);
}

#[test]
fn decode_fails_on_short_or_malformed_headers() {
    assert_eq!(parse_graphic_field_from_zpl("^GFA,4,4"), None);
    assert_eq!(parse_graphic_field_from_zpl("^GFA,x,4,2,FF"), None);
    assert_eq!(parse_graphic_field_from_zpl("^GFA,4,4,y,FF"), None);
}

#[test]
fn decode_rejects_zero_bytes_per_row() {
    // a zero stride must not be divided into: the decode yields nothing
    assert_eq!(parse_graphic_field_from_zpl("^GFA,0,0,0,AB"), None);
    assert_eq!(parse_graphic_field_from_zpl("^GFA,4,4,0,FF00"), None);
}

#[test]
fn graphic_command_declares_the_bitmap_geometry() {
    let img = RasterImage {
        width: 8,
        height: 1,
        pixels: vec![black(); 8],
    };
    match create_graphic_field_from_image(&img, 128) {
        ZplCommand::GraphicField {
            width,
            height,
            data,
        } => {
            assert_eq!(width, 8);
            assert_eq!(height, 1);
            assert_eq!(data, "FF");
        }
        other => panic!("unexpected command {:?}", other),
    }
}
