use zebras::{commands_to_zpl, FieldOrientation, FieldRotation, FontOrientation, ZplCommand};

#[test]
fn fixed_commands_serialize_to_their_tokens() {
    assert_eq!(ZplCommand::StartFormat.to_zpl_string(), "^XA");
    assert_eq!(ZplCommand::EndFormat.to_zpl_string(), "^XZ");
    assert_eq!(ZplCommand::FieldSeparator.to_zpl_string(), "^FS");
    assert_eq!(ZplCommand::MediaModeDelayed.to_zpl_string(), "^MMD");
    assert_eq!(ZplCommand::MediaModeTearOff.to_zpl_string(), "^MMT");
    assert_eq!(ZplCommand::CutNow.to_zpl_string(), "~JK");
}

#[test]
fn field_origin_serializes_coordinates() {
    let c = ZplCommand::FieldOrigin { x: 10, y: 20 };
    assert_eq!(c.to_zpl_string(), "^FO10,20");
    let c = ZplCommand::FieldOrigin { x: 0, y: 0 };
    assert_eq!(c.to_zpl_string(), "^FO0,0");
    let c = ZplCommand::FieldOrigin {
        x: u32::MAX,
        y: 1,
    };
    assert_eq!(c.to_zpl_string(), "^FO4294967295,1");
}

#[test]
fn font_serializes_orientation_and_size() {
    let c = ZplCommand::Font {
        orientation: FontOrientation::Normal,
        height: 30,
        width: 25,
    };
    assert_eq!(c.to_zpl_string(), "^A0N,30,25");
    let c = ZplCommand::Font {
        orientation: FontOrientation::Rotated90,
        height: 1,
        width: 2,
    };
    assert_eq!(c.to_zpl_string(), "^A0R,1,2");
}

#[test]
fn field_data_passes_payload_through() {
    let c = ZplCommand::FieldData {
        data: "Hello, World!".to_string(),
    };
    assert_eq!(c.to_zpl_string(), "^FDHello, World!");
}

#[test]
fn graphic_box_omits_absent_trailing_parameters() {
    let c = ZplCommand::GraphicBox {
        width: 100,
        height: 100,
        thickness: 1,
        color: None,
        rounding: None,
    };
    assert_eq!(c.to_zpl_string(), "^GB100,100,1");
}

#[test]
fn graphic_box_emits_color_without_rounding() {
    let c = ZplCommand::GraphicBox {
        width: 1,
        height: 2,
        thickness: 3,
        color: Some('B'),
        rounding: None,
    };
    assert_eq!(c.to_zpl_string(), "^GB1,2,3,B");
}

#[test]
fn graphic_box_emits_color_and_rounding() {
    let c = ZplCommand::GraphicBox {
        width: 1,
        height: 2,
        thickness: 3,
        color: Some('W'),
        rounding: Some(4),
    };
    assert_eq!(c.to_zpl_string(), "^GB1,2,3,W,4");
}

#[test]
fn graphic_box_keeps_positional_slot_for_absent_color() {
    let c = ZplCommand::GraphicBox {
        width: 1,
        height: 2,
        thickness: 3,
        color: None,
        rounding: Some(4),
    };
    assert_eq!(c.to_zpl_string(), "^GB1,2,3,,4");
}

#[test]
fn change_font_serializes_name_and_size() {
    let c = ZplCommand::ChangeFont {
        font: "0".to_string(),
        size: 40,
    };
    assert_eq!(c.to_zpl_string(), "^CF0,40");
}

#[test]
fn field_orientation_serializes_rotation() {
    let c = ZplCommand::FieldOrientation {
        rotation: FieldRotation::Rotated180,
    };
    assert_eq!(c.to_zpl_string(), "^FWI");
}

#[test]
fn barcode_default_serializes_whole_ratio_without_fraction() {
    let c = ZplCommand::BarcodeFieldDefault {
        width: 2,
        ratio_tenths: 30,
        height: 10,
    };
    assert_eq!(c.to_zpl_string(), "^BY2,3,10");
}

#[test]
fn barcode_default_serializes_fractional_ratio() {
    let c = ZplCommand::BarcodeFieldDefault {
        width: 2,
        ratio_tenths: 25,
        height: 10,
    };
    assert_eq!(c.to_zpl_string(), "^BY2,2.5,10");
}

#[test]
fn code128_serializes_flags_as_letters() {
    let c = ZplCommand::Code128Barcode {
        orientation: FieldOrientation::Normal,
        height: 100,
        print_interpretation: true,
        print_above: false,
        check_digit: false,
        mode: FieldOrientation::Normal,
    };
    assert_eq!(c.to_zpl_string(), "^BCN,100,Y,N,N,N");
}

#[test]
fn graphic_field_computes_counts_from_declared_geometry() {
    let c = ZplCommand::GraphicField {
        width: 16,
        height: 2,
        data: "FF00FF00".to_string(),
    };
    assert_eq!(c.to_zpl_string(), "^GFA,4,4,2,FF00FF00");
}

#[test]
fn graphic_field_pads_width_to_whole_bytes() {
    let c = ZplCommand::GraphicField {
        width: 9,
        height: 1,
        data: "FFFF".to_string(),
    };
    assert_eq!(c.to_zpl_string(), "^GFA,2,2,2,FFFF");
}

#[test]
fn graphic_field_normalizes_payload() {
    let c = ZplCommand::GraphicField {
        width: 16,
        height: 1,
        data: "ff, 0a\r\n1b".to_string(),
    };
    assert_eq!(c.to_zpl_string(), "^GFA,2,2,2,FF0A1B");
}

#[test]
fn download_graphic_serializes_name_counts_and_payload() {
    let c = ZplCommand::DownloadGraphic {
        name: "LOGO".to_string(),
        width: 8,
        height: 2,
        data: "a0 b1".to_string(),
    };
    assert_eq!(c.to_zpl_string(), "~DGLOGO,2,1,A0B1");
}

#[test]
fn recall_graphic_serializes_name_and_magnification() {
    let c = ZplCommand::RecallGraphic {
        name: "LOGO".to_string(),
        magnification_x: 2,
        magnification_y: 3,
    };
    assert_eq!(c.to_zpl_string(), "^XGLOGO,2,3");
}

#[test]
fn sequences_join_with_newlines_in_order() {
    let cmds = vec![
        ZplCommand::StartFormat,
        ZplCommand::FieldOrigin { x: 50, y: 50 },
        ZplCommand::FieldData {
            data: "hi".to_string(),
        },
        ZplCommand::FieldSeparator,
        ZplCommand::EndFormat,
    ];
    assert_eq!(commands_to_zpl(&cmds), "^XA\n^FO50,50\n^FDhi\n^FS\n^XZ");
}

#[test]
fn empty_sequence_serializes_to_empty_text() {
    let cmds: Vec<ZplCommand> = vec![];
    assert_eq!(commands_to_zpl(&cmds), "");
}

#[test]
fn serialization_is_deterministic() {
    let cmds = vec![
        ZplCommand::StartFormat,
        ZplCommand::GraphicBox {
            width: 10,
            height: 20,
            thickness: 2,
            color: Some('B'),
            rounding: Some(1),
        },
        ZplCommand::EndFormat,
    ];
    let first = commands_to_zpl(&cmds);
    let second = commands_to_zpl(&cmds);
    assert_eq!(first, second);
}

#[test]
fn label_builder_produces_complete_label() {
    let zpl = zebras::ZplLabel::new()
        .field_origin(50, 50)
        .font(FontOrientation::Normal, 30, 30)
        .field_data("Hello".to_string())
        .field_separator()
        .graphic_box(200, 100, 2)
        .field_separator()
        .build();
    assert_eq!(
        zpl,
        "^XA\n^FO50,50\n^A0N,30,30\n^FDHello\n^FS\n^GB200,100,2\n^FS\n^XZ"
    );
}

#[test]
fn command_names_describe_each_variant() {
    assert_eq!(ZplCommand::StartFormat.command_name(), "Start Format (^XA)");
    assert_eq!(
        ZplCommand::GraphicField {
            width: 1,
            height: 1,
            data: String::new()
        }
        .command_name(),
        "Graphic Field (^GFA)"
    );
    assert_eq!(ZplCommand::CutNow.command_name(), "Cut Now (~JK)");
}

#[test]
fn command_palette_lists_ten_kinds() {
    let all = ZplCommand::all_command_types();
    assert_eq!(all.len(), 10);
    assert_eq!(all[0].0, "Start Format (^XA)");
    assert_eq!(all[0].1, ZplCommand::StartFormat);
    assert_eq!(all[9].0, "Recall Graphic (^XG)");
    for (name, cmd) in &all {
        assert_eq!(*name, cmd.command_name());
    }
}

#[test]
fn default_command_is_field_separator() {
    assert_eq!(ZplCommand::default(), ZplCommand::FieldSeparator);
}

#[test]
fn normalization_is_idempotent_on_messy_payload() {
    let messy: Vec<char> = "ff, 00\r\nA7 b,c".chars().collect();
    let once = zebras::text::normalize_hex(&messy);
    let twice = zebras::text::normalize_hex(&once);
    assert_eq!(once, twice);
    let text: String = once.iter().collect();
    assert_eq!(text, "FF00A7BC");
}

#[test]
fn default_label_is_a_fresh_format() {
    let zpl = zebras::ZplLabel::default().build();
    assert_eq!(zpl, "^XA\n^XZ");
}
