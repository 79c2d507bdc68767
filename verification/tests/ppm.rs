use raytracer::color::Color;
use raytracer::pixmap::Pixmap;
use raytracer::ppm::PpmError;
use raytracer::ppm::PpmErrorKind;

fn fault(line: usize, kind: PpmErrorKind) -> Result<Pixmap, PpmError> {
    Err(PpmError { line, kind })
}

fn sample(width: u32, height: u32) -> Pixmap {
    let mut pixmap = Pixmap::new(width, height);
    let mut n: u32 = 0;
    for x in 0..width {
        for y in 0..height {
            let color = Color {
                r: (n * 37 % 256) as u8,
                g: (n * 101 % 256) as u8,
                b: (255 - n % 256) as u8,
            };
            pixmap.draw(x, y, color);
            n += 1;
        }
    }
    pixmap
}

#[test]
fn test_save_load_ppm() {
    let mut pixmap = Pixmap::new(4, 4);
    pixmap.draw(0, 0, Color { r: 5, g: 0, b: 0 });
    let text = pixmap.save_as_ppm();
    let loaded_pixmap = Pixmap::try_load_from_ppm(&text).unwrap();
    assert_eq!(pixmap, loaded_pixmap);
}

#[test]
fn writes_the_top_row_first() {
    let mut pixmap = Pixmap::new(2, 2);
    pixmap.draw(0, 0, Color { r: 1, g: 2, b: 3 });
    pixmap.draw(1, 0, Color { r: 4, g: 5, b: 6 });
    pixmap.draw(0, 1, Color { r: 70, g: 80, b: 90 });
    pixmap.draw(1, 1, Color { r: 100, g: 200, b: 255 });
    let text = pixmap.save_as_ppm();
    assert_eq!(
        String::from_utf8(text).unwrap(),
        "P3\n2 2\n255\n70 80 90 100 200 255 \n1 2 3 4 5 6 \n"
    );
}

#[test]
fn writes_a_single_pixel() {
    let mut pixmap = Pixmap::new(1, 1);
    pixmap.draw(0, 0, Color { r: 0, g: 10, b: 255 });
    assert_eq!(String::from_utf8(pixmap.save_as_ppm()).unwrap(), "P3\n1 1\n255\n0 10 255 \n");
}

#[test]
fn writes_images_without_pixels() {
    assert_eq!(String::from_utf8(Pixmap::new(0, 0).save_as_ppm()).unwrap(), "P3\n0 0\n255\n");
    assert_eq!(String::from_utf8(Pixmap::new(3, 0).save_as_ppm()).unwrap(), "P3\n3 0\n255\n");
    assert_eq!(String::from_utf8(Pixmap::new(0, 2).save_as_ppm()).unwrap(), "P3\n0 2\n255\n\n\n");
}

#[test]
fn writes_numbers_of_every_length() {
    let mut pixmap = Pixmap::new(12, 1);
    pixmap.draw(11, 0, Color { r: 9, g: 99, b: 199 });
    let text = String::from_utf8(pixmap.save_as_ppm()).unwrap();
    assert!(text.starts_with("P3\n12 1\n255\n0 0 0 "));
    assert!(text.ends_with("0 0 0 9 99 199 \n"));
}

#[test]
fn written_image_reads_back() {
    let sizes = [(1, 1), (0, 0), (0, 3), (3, 0), (1, 5), (5, 1), (3, 2), (16, 16), (7, 40)];
    for (width, height) in sizes {
        let pixmap = sample(width, height);
        let loaded = Pixmap::try_load_from_ppm(&pixmap.save_as_ppm()).unwrap();
        assert_eq!(loaded.width(), width);
        assert_eq!(loaded.height(), height);
        assert_eq!(pixmap, loaded);
    }
}

#[test]
fn every_channel_value_reads_back() {
    let mut pixmap = Pixmap::new(256, 1);
    for v in 0..256u32 {
        pixmap.draw(v, 0, Color { r: v as u8, g: (255 - v) as u8, b: (v / 2) as u8 });
    }
    let loaded = Pixmap::try_load_from_ppm(&pixmap.save_as_ppm()).unwrap();
    for v in 0..256u32 {
        assert_eq!(
            loaded.get_color(v, 0),
            Color { r: v as u8, g: (255 - v) as u8, b: (v / 2) as u8 }
        );
    }
}

#[test]
fn reads_rows_from_the_top() {
    let pixmap = Pixmap::try_load_from_ppm(b"P3\n2 2\n255\n70 80 90 100 200 255\n1 2 3 4 5 6\n").unwrap();
    assert_eq!(pixmap.width(), 2);
    assert_eq!(pixmap.height(), 2);
    assert_eq!(pixmap.get_color(0, 1), Color { r: 70, g: 80, b: 90 });
    assert_eq!(pixmap.get_color(1, 1), Color { r: 100, g: 200, b: 255 });
    assert_eq!(pixmap.get_color(0, 0), Color { r: 1, g: 2, b: 3 });
    assert_eq!(pixmap.get_color(1, 0), Color { r: 4, g: 5, b: 6 });
}

#[test]
fn reads_a_text_that_stops_early() {
    assert_eq!(Pixmap::try_load_from_ppm(b"").unwrap(), Pixmap::new(0, 0));
    assert_eq!(Pixmap::try_load_from_ppm(b"P3").unwrap(), Pixmap::new(0, 0));
    assert_eq!(Pixmap::try_load_from_ppm(b"P3\n").unwrap(), Pixmap::new(0, 0));
    assert_eq!(Pixmap::try_load_from_ppm(b"P3\n2 3").unwrap(), Pixmap::new(2, 3));
    assert_eq!(Pixmap::try_load_from_ppm(b"P3\n2 3\n255\n").unwrap(), Pixmap::new(2, 3));
    let pixmap = Pixmap::try_load_from_ppm(b"P3\n2 2\n255\n1 2 3 4 5 6\n").unwrap();
    assert_eq!(pixmap.get_color(0, 1), Color { r: 1, g: 2, b: 3 });
    assert_eq!(pixmap.get_color(1, 1), Color { r: 4, g: 5, b: 6 });
    assert_eq!(pixmap.get_color(0, 0), Color { r: 0, g: 0, b: 0 });
    assert_eq!(pixmap.get_color(1, 0), Color { r: 0, g: 0, b: 0 });
}

#[test]
fn does_not_look_at_the_third_line() {
    let pixmap = Pixmap::try_load_from_ppm(b"P3\n1 1\nanything at all\n7 8 9\n").unwrap();
    assert_eq!(pixmap.get_color(0, 0), Color { r: 7, g: 8, b: 9 });
}

#[test]
fn reads_lines_that_end_in_carriage_return_and_line_feed() {
    let pixmap = Pixmap::try_load_from_ppm(b"P3\r\n1 2\r\n255\r\n7 8 9\r\n1 2 3\r\n").unwrap();
    assert_eq!(pixmap.get_color(0, 1), Color { r: 7, g: 8, b: 9 });
    assert_eq!(pixmap.get_color(0, 0), Color { r: 1, g: 2, b: 3 });
    assert_eq!(Pixmap::try_load_from_ppm(b"P3\r"), fault(1, PpmErrorKind::Magic));
    assert_eq!(Pixmap::try_load_from_ppm(b"P3\r\r\n1 1\n"), fault(1, PpmErrorKind::Magic));
}

#[test]
fn reads_numbers_with_plus_sign_and_leading_zeros() {
    let pixmap = Pixmap::try_load_from_ppm(b"P3\n+1 001\n255\n+7 08 000000000000000000255\n").unwrap();
    assert_eq!(pixmap.width(), 1);
    assert_eq!(pixmap.height(), 1);
    assert_eq!(pixmap.get_color(0, 0), Color { r: 7, g: 8, b: 255 });
}

#[test]
fn reads_words_between_any_blanks() {
    let pixmap = Pixmap::try_load_from_ppm(b"P3\n \t2\x0b\x0c 1 \r\n255\n\t1 2  3\t\t4 5 6   \n").unwrap();
    assert_eq!(pixmap.width(), 2);
    assert_eq!(pixmap.height(), 1);
    assert_eq!(pixmap.get_color(0, 0), Color { r: 1, g: 2, b: 3 });
    assert_eq!(pixmap.get_color(1, 0), Color { r: 4, g: 5, b: 6 });
}

#[test]
fn reads_a_last_row_without_line_feed() {
    let pixmap = Pixmap::try_load_from_ppm(b"P3\n1 1\n255\n7 8 9").unwrap();
    assert_eq!(pixmap.get_color(0, 0), Color { r: 7, g: 8, b: 9 });
}

#[test]
fn refuses_another_first_line() {
    assert_eq!(Pixmap::try_load_from_ppm(b"P6\n1 1\n255\n0 0 0\n"), fault(1, PpmErrorKind::Magic));
    assert_eq!(Pixmap::try_load_from_ppm(b"\nP3\n"), fault(1, PpmErrorKind::Magic));
    assert_eq!(Pixmap::try_load_from_ppm(b"P3 \n"), fault(1, PpmErrorKind::Magic));
    assert_eq!(Pixmap::try_load_from_ppm(b" P3\n"), fault(1, PpmErrorKind::Magic));
    assert_eq!(Pixmap::try_load_from_ppm(b"p3\n"), fault(1, PpmErrorKind::Magic));
    assert_eq!(Pixmap::try_load_from_ppm(b"P"), fault(1, PpmErrorKind::Magic));
    assert_eq!(Pixmap::try_load_from_ppm(b"\n"), fault(1, PpmErrorKind::Magic));
}

#[test]
fn refuses_a_size_line_without_two_words() {
    assert_eq!(Pixmap::try_load_from_ppm(b"P3\n1\n"), fault(2, PpmErrorKind::Dimensions));
    assert_eq!(Pixmap::try_load_from_ppm(b"P3\n1 2 3\n"), fault(2, PpmErrorKind::Dimensions));
    assert_eq!(Pixmap::try_load_from_ppm(b"P3\n\n"), fault(2, PpmErrorKind::Dimensions));
    assert_eq!(Pixmap::try_load_from_ppm(b"P3\n   \n"), fault(2, PpmErrorKind::Dimensions));
}

#[test]
fn refuses_a_width_that_is_no_number() {
    assert_eq!(Pixmap::try_load_from_ppm(b"P3\nx 1\n"), fault(2, PpmErrorKind::Width));
    assert_eq!(Pixmap::try_load_from_ppm(b"P3\n-1 1\n"), fault(2, PpmErrorKind::Width));
    assert_eq!(Pixmap::try_load_from_ppm(b"P3\n+ 1\n"), fault(2, PpmErrorKind::Width));
    assert_eq!(Pixmap::try_load_from_ppm(b"P3\n1.0 1\n"), fault(2, PpmErrorKind::Width));
    assert_eq!(Pixmap::try_load_from_ppm(b"P3\n4294967296 1\n"), fault(2, PpmErrorKind::Width));
    assert_eq!(Pixmap::try_load_from_ppm(b"P3\n99999999999999999999999999 y\n"), fault(2, PpmErrorKind::Width));
    assert_eq!(Pixmap::try_load_from_ppm(b"P3\n++1 1\n"), fault(2, PpmErrorKind::Width));
}

#[test]
fn refuses_a_height_that_is_no_number() {
    assert_eq!(Pixmap::try_load_from_ppm(b"P3\n1 y\n"), fault(2, PpmErrorKind::Height));
    assert_eq!(Pixmap::try_load_from_ppm(b"P3\n1 4294967296\n"), fault(2, PpmErrorKind::Height));
    assert_eq!(Pixmap::try_load_from_ppm(b"P3\n1 1e3\n"), fault(2, PpmErrorKind::Height));
}

#[test]
fn refuses_more_pixels_than_can_be_counted() {
    assert_eq!(Pixmap::try_load_from_ppm(b"P3\n65536 65536\n"), fault(2, PpmErrorKind::Size));
    assert_eq!(Pixmap::try_load_from_ppm(b"P3\n4294967295 4294967295\n"), fault(2, PpmErrorKind::Size));
    assert_eq!(Pixmap::try_load_from_ppm(b"P3\n4294967295 2\n255\n"), fault(2, PpmErrorKind::Size));
}

#[test]
fn refuses_a_row_of_the_wrong_length() {
    assert_eq!(Pixmap::try_load_from_ppm(b"P3\n1 1\n255\n0 0\n"), fault(4, PpmErrorKind::RowLength));
    assert_eq!(Pixmap::try_load_from_ppm(b"P3\n1 1\n255\n0 0 0 0\n"), fault(4, PpmErrorKind::RowLength));
    assert_eq!(Pixmap::try_load_from_ppm(b"P3\n1 1\n255\n\n"), fault(4, PpmErrorKind::RowLength));
    assert_eq!(Pixmap::try_load_from_ppm(b"P3\n2 2\n255\n1 2 3 4 5 6\n1 2 3\n"), fault(5, PpmErrorKind::RowLength));
    assert_eq!(Pixmap::try_load_from_ppm(b"P3\n0 2\n255\n\n1\n"), fault(5, PpmErrorKind::RowLength));
}

#[test]
fn refuses_a_channel_that_is_no_byte() {
    assert_eq!(Pixmap::try_load_from_ppm(b"P3\n1 1\n255\n256 0 0\n"), fault(4, PpmErrorKind::Red));
    assert_eq!(Pixmap::try_load_from_ppm(b"P3\n1 1\n255\n0 -1 0\n"), fault(4, PpmErrorKind::Green));
    assert_eq!(Pixmap::try_load_from_ppm(b"P3\n1 1\n255\n0 0 b\n"), fault(4, PpmErrorKind::Blue));
    assert_eq!(Pixmap::try_load_from_ppm(b"P3\n2 1\n255\n0 0 0 r 0 0\n"), fault(4, PpmErrorKind::Red));
    assert_eq!(Pixmap::try_load_from_ppm(b"P3\n2 1\n255\n0 0 0 0 1000 0\n"), fault(4, PpmErrorKind::Green));
    assert_eq!(Pixmap::try_load_from_ppm(b"P3\n2 1\n255\n0 0 0 0 0 0.5\n"), fault(4, PpmErrorKind::Blue));
    assert_eq!(Pixmap::try_load_from_ppm(b"P3\n2 1\n255\n0 x 0 y 0 0\n"), fault(4, PpmErrorKind::Green));
    assert_eq!(Pixmap::try_load_from_ppm(b"P3\n1 1\n255\n\xc2\xa00 0 0\n"), fault(4, PpmErrorKind::Red));
}

#[test]
fn refuses_a_line_after_the_last_row() {
    assert_eq!(Pixmap::try_load_from_ppm(b"P3\n1 1\n255\n0 0 0\n0 0 0\n"), fault(5, PpmErrorKind::ExtraRow));
    assert_eq!(Pixmap::try_load_from_ppm(b"P3\n1 1\n255\n0 0 0\n\n"), fault(5, PpmErrorKind::ExtraRow));
    assert_eq!(Pixmap::try_load_from_ppm(b"P3\n1 0\n255\n0 0 0\n"), fault(4, PpmErrorKind::ExtraRow));
    assert_eq!(Pixmap::try_load_from_ppm(b"P3\n0 0\n255\n\n"), fault(4, PpmErrorKind::ExtraRow));
}

#[test]
fn reports_the_first_fault() {
    assert_eq!(Pixmap::try_load_from_ppm(b"P3\n1 1\n255\nx y z\n0 0\n"), fault(4, PpmErrorKind::Red));
    assert_eq!(Pixmap::try_load_from_ppm(b"P3\n1 2\n255\n0 0 0\n0 0\nx\n"), fault(5, PpmErrorKind::RowLength));
    assert_eq!(Pixmap::try_load_from_ppm(b"P3\nx y z\n"), fault(2, PpmErrorKind::Dimensions));
    assert_eq!(Pixmap::try_load_from_ppm(b"P3\nx y\n"), fault(2, PpmErrorKind::Width));
}

#[test]
fn a_fault_says_what_its_kind_says() {
    let e = Pixmap::try_load_from_ppm(b"P3\n1 1\n255\n0 0 0\n\n").unwrap_err();
    assert_eq!(e, PpmError { line: 5, kind: PpmErrorKind::ExtraRow });
    assert_eq!(e.message(), PpmErrorKind::ExtraRow.message());
}

#[test]
fn every_fault_has_its_message() {
    assert_eq!(PpmErrorKind::Magic.message(), "Header does not equal 'P3'");
    assert_eq!(PpmErrorKind::Dimensions.message(), "Dimensions should consist of width and height");
    assert_eq!(PpmErrorKind::Width.message(), "Cannot parse width.");
    assert_eq!(PpmErrorKind::Height.message(), "Cannot parse height.");
    assert_eq!(PpmErrorKind::Size.message(), "Width times height is too large.");
    assert_eq!(
        PpmErrorKind::RowLength.message(),
        "A row should consist of three values for each pixel"
    );
    assert_eq!(PpmErrorKind::Red.message(), "Cannot parse r color");
    assert_eq!(PpmErrorKind::Green.message(), "Cannot parse g color");
    assert_eq!(PpmErrorKind::Blue.message(), "Cannot parse b color");
    assert_eq!(PpmErrorKind::ExtraRow.message(), "There are more rows than the height allows.");
}
