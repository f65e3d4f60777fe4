use escpos_rs::{
    Error, Font, Instruction, Justification, PrintData, Printer, PrinterConnectionData,
    PrinterDetails, PrinterModel, PrinterProfile,
};

const ALL_FONTS: [Font; 7] = [
    Font::FontA,
    Font::FontB,
    Font::FontC,
    Font::FontD,
    Font::FontE,
    Font::SpecialFontA,
    Font::SpecialFontB,
];

#[test]
fn vp_id_of_each_model() {
    assert_eq!(PrinterModel::ZKTeco.vp_id(), (0x6868, 0x0200, Some(0x02)));
    assert_eq!(PrinterModel::TMT20.vp_id(), (0x04b8, 0x0e15, Some(0x01)));
}

#[test]
fn usb_profile_of_the_zkteco() {
    let profile = PrinterModel::ZKTeco.usb_profile();
    assert_eq!(
        profile.connection(),
        PrinterConnectionData::Usb {
            vendor_id: 0x6868,
            product_id: 0x0200,
            endpoint: Some(0x02),
            timeout_millis: 2000,
        }
    );
    assert_eq!(profile.width(), 384);
    for font in ALL_FONTS {
        let expected = match font {
            Font::FontA => Some(32),
            Font::FontB => Some(42),
            _ => None,
        };
        assert_eq!(profile.columns_for(font), expected);
    }
}

#[test]
fn usb_profile_of_the_tmt20() {
    let profile = PrinterModel::TMT20.usb_profile();
    assert_eq!(
        profile.connection(),
        PrinterConnectionData::Usb {
            vendor_id: 0x04b8,
            product_id: 0x0e15,
            endpoint: Some(0x01),
            timeout_millis: 2000,
        }
    );
    assert_eq!(profile.width(), 576);
    for font in ALL_FONTS {
        let expected = match font {
            Font::FontA => Some(48),
            _ => None,
        };
        assert_eq!(profile.columns_for(font), expected);
    }
}

#[test]
fn details_start_from_the_protocol_defaults() {
    let details = PrinterDetails::builder(0x1234, 0x5678).build();
    assert_eq!(
        details.profile().connection(),
        PrinterConnectionData::Usb {
            vendor_id: 0x1234,
            product_id: 0x5678,
            endpoint: None,
            timeout_millis: 2000,
        }
    );
    assert_eq!(details.profile().width(), 384);
    assert_eq!(details.profile().columns_for(Font::FontA), Some(32));
    for font in &ALL_FONTS[1..] {
        assert_eq!(details.profile().columns_for(*font), None);
    }
    assert_eq!(details.font(), Font::FontA);
    assert_eq!(details.justification(), Justification::Left);
}

#[test]
fn details_take_each_override() {
    let details = PrinterDetails::builder(1, 2)
        .with_font_width(Font::FontA, 48)
        .with_font_width(Font::FontB, 64)
        .with_font_width(Font::FontA, 40)
        .with_width(576)
        .with_endpoint(3)
        .with_timeout_millis(500)
        .with_font(Font::FontB)
        .with_justification(Justification::Right)
        .build();
    assert_eq!(
        details.profile().connection(),
        PrinterConnectionData::Usb {
            vendor_id: 1,
            product_id: 2,
            endpoint: Some(3),
            timeout_millis: 500,
        }
    );
    assert_eq!(details.profile().width(), 576);
    assert_eq!(details.profile().columns_for(Font::FontA), Some(40));
    assert_eq!(details.profile().columns_for(Font::FontB), Some(64));
    assert_eq!(details.profile().columns_for(Font::FontC), None);
    assert_eq!(details.font(), Font::FontB);
    assert_eq!(details.justification(), Justification::Right);
}

#[test]
fn a_zero_override_changes_nothing() {
    let details = PrinterDetails::builder(1, 2)
        .with_font_width(Font::FontA, 0)
        .with_font_width(Font::FontB, 0)
        .with_width(0)
        .build();
    assert_eq!(details.profile().columns_for(Font::FontA), Some(32));
    assert_eq!(details.profile().columns_for(Font::FontB), None);
    assert_eq!(details.profile().width(), 384);
    let profile = PrinterProfile::usb(1, 2).with_width(500).with_width(0).with_font_width(Font::FontC, 9)
        .with_font_width(Font::FontC, 0);
    assert_eq!(profile.width(), 500);
    assert_eq!(profile.columns_for(Font::FontC), Some(9));
}

#[test]
fn a_new_profile_supports_no_font() {
    let connection = PrinterConnectionData::Usb {
        vendor_id: 7,
        product_id: 8,
        endpoint: Some(1),
        timeout_millis: 10,
    };
    let profile = PrinterProfile::new(connection);
    assert_eq!(profile.connection(), connection);
    assert_eq!(profile.width(), 384);
    for font in ALL_FONTS {
        assert_eq!(profile.columns_for(font), None);
    }
    let printer = Printer::with_profile(profile);
    assert_eq!(printer.print("x"), Err(Error::UnsupportedFont(Font::FontA)));
}

#[test]
fn end_to_end() {
    let details = PrinterDetails::builder(0x0001, 0x0001).with_font_width(Font::FontA, 32).build();
    let printer = Printer::new(details);
    let instruction = Instruction::text(
        "Hello, %name%!",
        Font::FontA,
        Justification::Center,
        vec!["%name%".to_string()],
    );
    let data = PrintData::builder().replacement("%name%", "Carlos").build();
    let stream = printer.instruction(&instruction, &data).unwrap();
    assert_eq!(
        stream,
        vec![
            0x1b, 0x4d, 0x00, 0x1b, 0x61, 0x01, 0x48, 0x65, 0x6c, 0x6c, 0x6f, 0x2c, 0x20, 0x43,
            0x61, 0x72, 0x6c, 0x6f, 0x73, 0x21, 0x0a,
        ]
    );
    let john = PrintData::builder().replacement("%name%", "John").build();
    let stream = printer.instruction(&instruction, &john).unwrap();
    assert_eq!(&stream[6..stream.len() - 1], b"Hello, John!");
}

#[test]
fn an_instruction_is_wrapped_after_it_is_resolved() {
    let printer = Printer::with_profile(PrinterProfile::usb(1, 1).with_font_width(Font::FontB, 8));
    let instruction =
        Instruction::text("Hi %name%!", Font::FontB, Justification::Left, vec!["%name%".to_string()]);
    let data = PrintData::builder().replacement("%name%", "Carlos Alberto").build();
    let stream = printer.instruction(&instruction, &data).unwrap();
    assert_eq!(&stream[..6], &[0x1b, 0x4d, 0x01, 0x1b, 0x61, 0x00]);
    assert_eq!(&stream[6..], b"Hi\nCarlos\nAlberto!\n");
}

#[test]
fn a_missing_value_is_reported_before_an_unsupported_font() {
    let printer = Printer::with_profile(PrinterModel::TMT20.usb_profile());
    let instruction =
        Instruction::text("Hi %name%!", Font::FontB, Justification::Left, vec!["%name%".to_string()]);
    let empty = PrintData::builder().build();
    assert_eq!(
        printer.instruction(&instruction, &empty),
        Err(Error::MissingSubstitution("%name%".to_string()))
    );
    let data = PrintData::builder().replacement("%name%", "Carlos").build();
    assert_eq!(printer.instruction(&instruction, &data), Err(Error::UnsupportedFont(Font::FontB)));
}

#[test]
fn print_uses_the_font_and_justification_of_plain_text() {
    let printer = Printer::with_profile(PrinterModel::ZKTeco.usb_profile());
    assert_eq!(printer.details().font(), Font::FontA);
    assert_eq!(printer.details().justification(), Justification::Left);
    assert_eq!(
        printer.print("Hello, world!"),
        Ok(vec![
            0x1b, 0x4d, 0x00, 0x1b, 0x61, 0x00, b'H', b'e', b'l', b'l', b'o', b',', b' ', b'w',
            b'o', b'r', b'l', b'd', b'!', 0x0a,
        ])
    );
    let details = PrinterDetails::builder(1, 1)
        .with_font_width(Font::FontB, 42)
        .with_font(Font::FontB)
        .with_justification(Justification::Center)
        .build();
    let printer = Printer::new(details);
    assert_eq!(printer.print("ok"), Ok(vec![0x1b, 0x4d, 0x01, 0x1b, 0x61, 0x01, b'o', b'k', 0x0a]));
}

#[test]
fn print_fails_where_the_printer_lacks_the_font_of_plain_text() {
    let details = PrinterDetails::builder(1, 1).with_font(Font::FontC).build();
    let printer = Printer::new(details);
    assert_eq!(printer.print("ok"), Err(Error::UnsupportedFont(Font::FontC)));
}

#[test]
fn a_written_stream_settles_as_success() {
    assert_eq!(Printer::settle(Ok(())), Ok(()));
}

#[test]
fn a_failed_write_settles_as_the_failure_of_the_transport() {
    assert_eq!(
        Printer::settle(Err("device busy".to_string())),
        Err(Error::Transport("device busy".to_string()))
    );
}
