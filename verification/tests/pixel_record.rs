use rtiow::color::pixel_record;

/// Quantizes a channel the way a caller with real-valued channels does:
/// scale by 255.999, then cut the fraction off.
fn quantize(channel: f64) -> u8 {
    (255.999 * channel) as u8
}

#[test]
fn black_is_three_zeros() {
    let line = pixel_record(quantize(0.0), quantize(0.0), quantize(0.0));
    assert_eq!(line, "0 0 0");
}

#[test]
fn white_is_three_times_255() {
    assert_eq!(quantize(1.0), 255u8);
    let line = pixel_record(quantize(1.0), quantize(1.0), quantize(1.0));
    assert_eq!(line, "255 255 255");
}

#[test]
fn channel_just_below_one_is_cut_not_rounded() {
    let line = pixel_record(quantize(0.999), quantize(0.0), quantize(0.0));
    assert_eq!(line, "255 0 0");
}

#[test]
fn half_intensity_is_cut_to_127() {
    assert_eq!(quantize(0.5), 127u8);
    let line = pixel_record(quantize(0.5), quantize(0.25), quantize(0.75));
    assert_eq!(line, "127 63 191");
}

#[test]
fn channels_keep_their_order() {
    assert_eq!(pixel_record(1, 2, 3), "1 2 3");
    assert_eq!(pixel_record(3, 2, 1), "3 2 1");
    assert_eq!(pixel_record(0, 128, 255), "0 128 255");
}

#[test]
fn digit_count_changes_at_ten_and_hundred() {
    assert_eq!(pixel_record(9, 10, 99), "9 10 99");
    assert_eq!(pixel_record(100, 101, 199), "100 101 199");
    assert_eq!(pixel_record(200, 250, 109), "200 250 109");
}

#[test]
fn inner_zero_digits_are_kept() {
    assert_eq!(pixel_record(10, 100, 105), "10 100 105");
    assert_eq!(pixel_record(20, 200, 201), "20 200 201");
}

#[test]
fn every_byte_reads_as_the_standard_decimal_text() {
    let mut n: u8 = 0;
    loop {
        let other: u8 = 255 - n;
        let expected = format!("{} {} {}", n, other, n);
        assert_eq!(pixel_record(n, other, n), expected);
        if n == 255 {
            break;
        }
        n += 1;
    }
}

#[test]
fn record_has_nothing_around_the_numbers() {
    let line = pixel_record(12, 34, 56);
    assert_eq!(line.len(), 8usize);
    assert!(!line.ends_with('\n'));
    assert!(!line.ends_with(' '));
    assert!(!line.starts_with(' '));
    assert_eq!(line.matches(' ').count(), 2usize);
}

#[test]
fn record_length_is_between_five_and_eleven() {
    assert_eq!(pixel_record(0, 0, 0).len(), 5usize);
    assert_eq!(pixel_record(255, 255, 255).len(), 11usize);
    let mut r: u8 = 0;
    loop {
        let line = pixel_record(r, 7, 77);
        assert!(line.len() >= 5 && line.len() <= 11);
        assert!(line.chars().all(|c| c.is_ascii_digit() || c == ' '));
        if r == 255 {
            break;
        }
        r += 1;
    }
}

#[test]
fn same_digits_split_differently_give_different_records() {
    assert_eq!(pixel_record(1, 23, 4), "1 23 4");
    assert_eq!(pixel_record(12, 3, 4), "12 3 4");
    assert_ne!(pixel_record(1, 23, 4), pixel_record(12, 3, 4));
    assert_ne!(pixel_record(1, 2, 34), pixel_record(1, 23, 4));
}

#[test]
fn record_reads_back_to_the_same_channels() {
    let samples: Vec<u8> = vec![0, 1, 9, 10, 11, 42, 99, 100, 101, 127, 128, 199, 200, 254, 255];
    for &r in samples.iter() {
        for &g in samples.iter() {
            for &b in samples.iter() {
                let line = pixel_record(r, g, b);
                let read: Vec<u8> = line.split(' ').map(|part| part.parse::<u8>().unwrap()).collect();
                assert_eq!(read, vec![r, g, b]);
            }
        }
    }
}

#[test]
fn gradient_corner_pixels() {
    let size: usize = 256;
    let at = |i: usize| i as f64 / (size - 1) as f64;
    assert_eq!(pixel_record(quantize(at(0)), quantize(at(0)), quantize(0.0)), "0 0 0");
    assert_eq!(pixel_record(quantize(at(0)), quantize(at(255)), quantize(0.0)), "0 255 0");
    assert_eq!(pixel_record(quantize(at(255)), quantize(at(0)), quantize(0.0)), "255 0 0");
    assert_eq!(pixel_record(quantize(at(255)), quantize(at(255)), quantize(0.0)), "255 255 0");
}
