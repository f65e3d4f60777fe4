use escpos_rs::{encode_image, Bitmap, Error, Printer, PrinterModel, PrinterProfile};

fn bits(rows: &[&str]) -> Vec<bool> {
    rows.iter().flat_map(|row| row.chars().map(|c| c == '#')).collect()
}

#[test]
fn a_bitmap_needs_one_value_for_each_dot() {
    assert!(Bitmap::new(2, 2, vec![true; 4]).is_some());
    assert!(Bitmap::new(2, 2, vec![true; 3]).is_none());
    assert!(Bitmap::new(2, 2, vec![true; 5]).is_none());
    assert!(Bitmap::new(0, 2, vec![]).is_none());
    assert!(Bitmap::new(2, 0, vec![]).is_none());
    assert!(Bitmap::new(0, 0, vec![]).is_none());
    let bitmap = Bitmap::new(3, 2, vec![false; 6]).unwrap();
    assert_eq!(bitmap.width(), 3);
    assert_eq!(bitmap.height(), 2);
}

#[test]
fn a_single_dot_is_the_highest_bit() {
    let bitmap = Bitmap::new(1, 1, vec![true]).unwrap();
    let profile = PrinterModel::TMT20.usb_profile();
    assert_eq!(
        encode_image(&bitmap, &profile),
        Ok(vec![0x1d, 0x76, 0x30, 0x00, 0x01, 0x00, 0x01, 0x00, 0x80])
    );
    let blank = Bitmap::new(1, 1, vec![false]).unwrap();
    assert_eq!(
        encode_image(&blank, &profile),
        Ok(vec![0x1d, 0x76, 0x30, 0x00, 0x01, 0x00, 0x01, 0x00, 0x00])
    );
}

#[test]
fn rows_are_packed_eight_dots_to_a_byte() {
    let pixels = bits(&["#.#.#.#.##", "........#.", "#######..#"]);
    let bitmap = Bitmap::new(10, 3, pixels).unwrap();
    let profile = PrinterModel::ZKTeco.usb_profile();
    assert_eq!(
        encode_image(&bitmap, &profile),
        Ok(vec![
            0x1d, 0x76, 0x30, 0x00, 0x02, 0x00, 0x03, 0x00, 0xaa, 0xc0, 0x00, 0x80, 0xfe, 0x40,
        ])
    );
}

#[test]
fn a_full_byte_needs_no_padding() {
    let bitmap = Bitmap::new(8, 2, bits(&["########", "#......#"])).unwrap();
    let profile = PrinterModel::ZKTeco.usb_profile();
    assert_eq!(
        encode_image(&bitmap, &profile),
        Ok(vec![0x1d, 0x76, 0x30, 0x00, 0x01, 0x00, 0x02, 0x00, 0xff, 0x81])
    );
}

#[test]
fn the_header_holds_both_sizes_low_byte_first() {
    let bitmap = Bitmap::new(384, 300, vec![true; 384 * 300]).unwrap();
    let profile = PrinterModel::ZKTeco.usb_profile();
    let stream = encode_image(&bitmap, &profile).unwrap();
    assert_eq!(&stream[..8], &[0x1d, 0x76, 0x30, 0x00, 48, 0, 0x2c, 0x01]);
    assert_eq!(stream.len(), 8 + 48 * 300);
    assert!(stream[8..].iter().all(|b| *b == 0xff));
    let wide = Bitmap::new(2049, 1, vec![false; 2049]).unwrap();
    let profile = PrinterProfile::usb(1, 1).with_width(4000);
    let stream = encode_image(&wide, &profile).unwrap();
    assert_eq!(&stream[..8], &[0x1d, 0x76, 0x30, 0x00, 0x01, 0x01, 0x01, 0x00]);
    assert_eq!(stream.len(), 8 + 257);
}

#[test]
fn an_image_wider_than_the_printer_fails() {
    let profile = PrinterModel::ZKTeco.usb_profile();
    let bitmap = Bitmap::new(385, 1, vec![true; 385]).unwrap();
    assert_eq!(encode_image(&bitmap, &profile), Err(Error::ImageTooWide { actual: 385, max: 384 }));
    let fits = Bitmap::new(384, 1, vec![true; 384]).unwrap();
    assert!(encode_image(&fits, &profile).is_ok());
}

#[test]
fn the_printer_encodes_images_with_its_own_profile() {
    let bitmap = Bitmap::new(577, 1, vec![false; 577]).unwrap();
    let printer = Printer::with_profile(PrinterModel::TMT20.usb_profile());
    assert_eq!(printer.image(&bitmap), Err(Error::ImageTooWide { actual: 577, max: 576 }));
    let small = Bitmap::new(2, 1, vec![false, true]).unwrap();
    assert_eq!(
        printer.image(&small),
        Ok(vec![0x1d, 0x76, 0x30, 0x00, 0x01, 0x00, 0x01, 0x00, 0x40])
    );
}
