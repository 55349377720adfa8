use glyphgrid::image::{decode, parse_pbm, parse_pgm};

#[test]
fn one_bit_round_trip_flips_rows() {
    let img = decode(b"P1\n2 2\n0 1\n1 0\n").unwrap();
    assert_eq!(img.width, 2);
    assert_eq!(img.height, 2);
    // source rows: [255, 0] then [0, 255]; output row 0 is the last source row
    assert_eq!(img.pixels, vec![0, 255, 255, 0]);
}

#[test]
fn one_bit_sample_mapping() {
    let img = decode(b"P1\n2 1\n0 1\n").unwrap();
    assert_eq!(img.width, 2);
    assert_eq!(img.height, 1);
    assert_eq!(img.pixels, vec![255, 0]);
}

#[test]
fn one_bit_samples_span_lines() {
    let img = decode(b"P1\n4 1\n0 1\n1 0\n").unwrap();
    assert_eq!(img.pixels, vec![255, 0, 0, 255]);
}

#[test]
fn eight_bit_round_trip_flips_rows() {
    let r = parse_pgm(b"P2\n2 2\n255\n1\n2\n3\n4\n").unwrap();
    assert_eq!(r.0, 2);
    assert_eq!(r.1, 2);
    assert_eq!(r.2, vec![3, 4, 1, 2]);
}

#[test]
fn eight_bit_max_value_line_is_discarded() {
    // the value on the maximum line is not a sample
    let r = parse_pgm(b"P2\n1 1\n77\n9\n").unwrap();
    assert_eq!(r.2, vec![9]);
}

#[test]
fn decode_tries_both_formats() {
    assert_eq!(decode(b"P2\n1 1\n255\n7\n").unwrap().pixels, vec![7]);
    assert_eq!(decode(b"P1\n1 1\n1\n").unwrap().pixels, vec![0]);
}

#[test]
fn wrong_magic_is_rejected() {
    assert!(decode(b"P3\n1 1\n255\n7\n").is_none());
    assert!(parse_pgm(b"P1\n1 1\n1\n").is_none());
    assert!(parse_pbm(b"P2\n1 1\n255\n7\n").is_none());
    assert!(decode(b"").is_none());
}

#[test]
fn comment_lines_are_skipped() {
    let img = decode(b"P1\n# a comment\n2 1\n  # another\n0 1\n").unwrap();
    assert_eq!(img.pixels, vec![255, 0]);
    let r = parse_pgm(b"P2\n# size\n1 2\n255\n# data\n8\n9\n").unwrap();
    assert_eq!(r.2, vec![9, 8]);
}

#[test]
fn dimension_invariant_holds() {
    // too few samples
    assert!(decode(b"P1\n2 2\n0 1\n").is_none());
    // too many samples
    assert!(decode(b"P1\n1 1\n0 1\n").is_none());
    assert!(parse_pgm(b"P2\n2 1\n255\n5\n").is_none());
    // every accepted decode covers width * height exactly
    for data in [
        b"P1\n3 2\n0 1 0\n1 0 1\n".as_slice(),
        b"P2\n2 3\n255\n0\n1\n2\n3\n4\n5\n".as_slice(),
    ] {
        let img = decode(data).unwrap();
        assert_eq!(img.pixels.len(), (img.width * img.height) as usize);
    }
}

#[test]
fn malformed_dimension_lines_are_rejected() {
    assert!(decode(b"P1\n2\n0 1\n").is_none());
    assert!(decode(b"P1\n2 2 2\n0 1 1 0\n").is_none());
    assert!(decode(b"P1\nx 2\n0 1 1 0\n").is_none());
    assert!(decode(b"P1\n0 2\n").is_none());
    assert!(decode(b"P1\n2 0\n").is_none());
    assert!(decode(b"P2\n4294967296 1\n255\n1\n").is_none());
}

#[test]
fn out_of_range_samples_are_rejected() {
    assert!(decode(b"P1\n2 1\n0 2\n").is_none());
    assert!(parse_pgm(b"P2\n1 1\n255\n256\n").is_none());
    assert!(parse_pgm(b"P2\n1 1\n255\n-1\n").is_none());
    assert!(parse_pgm(b"P2\n2 1\n255\n1 2\n").is_none());
}

#[test]
fn pbm_tuple_interface_matches() {
    let (w, h, px) = parse_pbm(b"P1\n1 2\n0\n1\n").unwrap();
    assert_eq!((w, h), (1, 2));
    assert_eq!(px, vec![0, 255]);
}
