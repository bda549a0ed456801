use blob::{Blob, BlobError, BlobOptions, LineEndings, Newline};

const DATA: &[u8] = b"First line\r\nSecond line\nThird line\r\nFourth line";

#[test]
fn multipart() {
    let blob = Blob::new(vec![DATA.to_vec(), DATA.to_vec()], None);
    let mut data = DATA.to_vec();

    data.extend_from_slice(DATA);

    assert_eq!(blob.text(Newline::Lf).unwrap().as_bytes(), data);
    assert_eq!(blob.text(Newline::CrLf).unwrap().as_bytes(), data);
}

#[test]
fn slice() {
    let blob = Blob::new(vec![DATA.to_vec()], None);
    let slice = blob.slice(12, Some(23), None).unwrap();

    assert_eq!(slice.text(Newline::Lf).unwrap(), "Second line");
    assert_eq!(slice.text(Newline::CrLf).unwrap(), "Second line");
}

#[test]
fn text_native() {
    let blob = Blob::new(
        vec![DATA.to_vec()],
        Some(BlobOptions::new(LineEndings::Native, None)),
    );

    assert_eq!(
        blob.text(Newline::CrLf).unwrap(),
        "First line\r\nSecond line\r\nThird line\r\nFourth line"
    );

    assert_eq!(
        blob.text(Newline::Lf).unwrap(),
        "First line\nSecond line\nThird line\nFourth line"
    );
}

#[test]
fn text_transparent() {
    let blob = Blob::new(vec![DATA.to_vec()], None);
    assert_eq!(blob.text(Newline::Lf).unwrap().as_bytes(), DATA);
    assert_eq!(blob.text(Newline::CrLf).unwrap().as_bytes(), DATA);
}

#[test]
fn size_is_the_length_of_the_input() {
    assert_eq!(Blob::new(vec![DATA.to_vec()], None).size(), DATA.len());
    assert_eq!(Blob::new(vec![DATA.to_vec()], None).size(), 47);
    assert_eq!(Blob::new(vec![Vec::new()], None).size(), 0);
    assert_eq!(Blob::new(Vec::new(), None).size(), 0);
    assert_eq!(Blob::new(vec![vec![1, 2, 3], Vec::new(), vec![4]], None).size(), 4);
}

#[test]
fn slice_has_the_size_of_its_range() {
    let blob = Blob::new(vec![DATA.to_vec()], None);
    assert_eq!(blob.slice(0, Some(47), None).unwrap().size(), 47);
    assert_eq!(blob.slice(0, Some(1), None).unwrap().size(), 1);
    assert_eq!(blob.slice(46, Some(47), None).unwrap().size(), 1);
    assert_eq!(blob.slice(12, Some(23), None).unwrap().size(), 11);
    for a in 0..DATA.len() {
        for c in (a + 1)..=DATA.len() {
            let part = blob.slice(a, Some(c), None).unwrap();
            assert_eq!(part.size(), c - a);
            assert_eq!(part.as_bytes(), &DATA[a..c]);
        }
    }
}

#[test]
fn slice_without_end_runs_to_the_size() {
    let blob = Blob::new(vec![DATA.to_vec()], None);
    let tail = blob.slice(36, None, None).unwrap();
    assert_eq!(tail.as_bytes(), b"Fourth line");
    assert_eq!(tail.size(), 11);
}

#[test]
fn empty_range_is_out_of_range() {
    let blob = Blob::new(vec![DATA.to_vec()], None);
    assert_eq!(blob.slice(5, Some(5), None).unwrap_err(), BlobError::OutOfRange);
    assert_eq!(blob.slice(0, Some(0), None).unwrap_err(), BlobError::OutOfRange);
    assert_eq!(blob.slice(47, None, None).unwrap_err(), BlobError::OutOfRange);
}

#[test]
fn inverted_or_overlong_range_is_out_of_range() {
    let blob = Blob::new(vec![DATA.to_vec()], None);
    assert_eq!(blob.slice(6, Some(5), None).unwrap_err(), BlobError::OutOfRange);
    assert_eq!(blob.slice(0, Some(48), None).unwrap_err(), BlobError::OutOfRange);
    assert_eq!(blob.slice(48, Some(49), None).unwrap_err(), BlobError::OutOfRange);
    assert_eq!(
        blob.slice(usize::MAX, Some(usize::MAX), None).unwrap_err(),
        BlobError::OutOfRange
    );
    let empty = Blob::new(Vec::new(), None);
    assert_eq!(empty.slice(0, None, None).unwrap_err(), BlobError::OutOfRange);
    assert_eq!(empty.slice(0, Some(1), None).unwrap_err(), BlobError::OutOfRange);
}

#[test]
fn slice_of_a_slice_counts_from_the_arena() {
    let blob = Blob::new(vec![DATA.to_vec()], None);
    let second = blob.slice(12, Some(23), None).unwrap();
    let word = second.slice(12, Some(18), None).unwrap();
    assert_eq!(word.as_bytes(), b"Second");
    let line = second.slice(19, Some(23), None).unwrap();
    assert_eq!(line.as_bytes(), b"line");
    assert_eq!(second.slice(0, Some(11), None).unwrap_err(), BlobError::OutOfRange);
    assert_eq!(second.slice(11, Some(13), None).unwrap_err(), BlobError::OutOfRange);
    assert_eq!(second.slice(22, Some(24), None).unwrap_err(), BlobError::OutOfRange);
    // Without an end the slice stops at the offset `size()`, here 11, which
    // lies before the window of `second`.
    assert_eq!(second.slice(12, None, None).unwrap_err(), BlobError::OutOfRange);
}

#[test]
fn slice_leaves_the_parent_as_it_was() {
    let blob = Blob::new(vec![DATA.to_vec()], None);
    let part = blob.slice(12, Some(23), None).unwrap();
    assert_eq!(blob.size(), 47);
    assert_eq!(blob.as_bytes(), DATA);
    drop(blob);
    assert_eq!(part.as_bytes(), b"Second line");
}

#[test]
fn slice_decodes_unchanged_whatever_the_parent_does() {
    let blob = Blob::new(
        vec![DATA.to_vec()],
        Some(BlobOptions::new(LineEndings::Native, None)),
    );
    let part = blob.slice(0, Some(23), None).unwrap();
    assert_eq!(part.text(Newline::Lf).unwrap(), "First line\r\nSecond line");
    assert_eq!(part.text(Newline::CrLf).unwrap(), "First line\r\nSecond line");
}

#[test]
fn content_type_is_kept() {
    let blob = Blob::new(vec![DATA.to_vec()], None);
    assert_eq!(blob.ty(), None);

    let plain = Blob::new(
        vec![DATA.to_vec()],
        Some(BlobOptions::new(LineEndings::Transparent, Some(Box::from("text/plain")))),
    );
    assert_eq!(plain.ty(), Some("text/plain"));

    let part = plain.slice(0, Some(5), Some(String::from("text/csv"))).unwrap();
    assert_eq!(part.ty(), Some("text/csv"));
    assert_eq!(plain.slice(0, Some(5), None).unwrap().ty(), None);
}

#[test]
fn options_hold_what_they_were_given() {
    let options = BlobOptions::new(LineEndings::Native, Some(Box::from("text/html")));
    assert_eq!(options.line_endings(), LineEndings::Native);
    assert_eq!(options.ty(), Some("text/html"));

    let plain = BlobOptions::default();
    assert_eq!(plain.line_endings(), LineEndings::Transparent);
    assert_eq!(plain.ty(), None);
}

#[test]
fn cloned_options_hold_the_same() {
    let options = BlobOptions::new(LineEndings::Native, Some(Box::from("text/html")));
    let copy = options.clone();
    assert_eq!(copy.line_endings(), LineEndings::Native);
    assert_eq!(copy.ty(), Some("text/html"));
    assert_eq!(options.ty(), Some("text/html"));
}

#[test]
fn transparent_text_gives_the_bytes_back() {
    let inputs: [&[u8]; 6] = [
        b"",
        b"plain",
        b"\r\n\n\r",
        "gr\u{fc}\u{df}e\r\n".as_bytes(),
        "\u{65e5}\u{672c}\u{8a9e}\n".as_bytes(),
        "\u{1f600}".as_bytes(),
    ];
    for input in inputs {
        let blob = Blob::new(vec![input.to_vec()], None);
        assert_eq!(blob.text(Newline::Lf).unwrap().as_bytes(), input);
        assert_eq!(blob.text(Newline::CrLf).unwrap().as_bytes(), input);
    }
}

#[test]
fn segments_decode_like_the_joined_buffer() {
    let first = b"First \xE2\x82".to_vec();
    let second = b"\xAC line\r\n".to_vec();
    let mut joined = first.clone();
    joined.extend_from_slice(&second);

    for endings in [LineEndings::Native, LineEndings::Transparent] {
        for host in [Newline::Lf, Newline::CrLf] {
            let parts = Blob::new(
                vec![first.clone(), second.clone()],
                Some(BlobOptions::new(endings, None)),
            );
            let whole = Blob::new(vec![joined.clone()], Some(BlobOptions::new(endings, None)));
            assert_eq!(parts.as_bytes(), whole.as_bytes());
            assert_eq!(parts.text(host), whole.text(host));
        }
    }
    let parts = Blob::new(vec![first, second], None);
    assert_eq!(parts.text(Newline::Lf).unwrap(), "First \u{20ac} line\r\n");
}

#[test]
fn invalid_bytes_are_an_encoding_error() {
    let blob = Blob::new(vec![vec![0xFF, 0xFE]], None);
    assert_eq!(
        blob.text(Newline::Lf),
        Err(BlobError::InvalidEncoding { valid_up_to: 0 })
    );
    assert!(matches!(
        blob.text(Newline::CrLf),
        Err(BlobError::InvalidEncoding { .. })
    ));
}

#[test]
fn encoding_error_names_the_first_bad_offset() {
    let text = |bytes: &[u8]| Blob::new(vec![bytes.to_vec()], None).text(Newline::Lf);
    assert_eq!(text(b"ab\xFFcd"), Err(BlobError::InvalidEncoding { valid_up_to: 2 }));
    // A sequence that is cut off at the end.
    assert_eq!(text(b"a\xE2\x82"), Err(BlobError::InvalidEncoding { valid_up_to: 1 }));
    // An overlong encoding and a surrogate.
    assert_eq!(text(b"abc\xC0\x80"), Err(BlobError::InvalidEncoding { valid_up_to: 3 }));
    assert_eq!(
        text(b"\xE2\x82\xAC\xED\xA0\x80"),
        Err(BlobError::InvalidEncoding { valid_up_to: 3 })
    );
    // A continuation byte with nothing to continue.
    assert_eq!(text(b"\x80"), Err(BlobError::InvalidEncoding { valid_up_to: 0 }));
}

#[test]
fn encoding_is_checked_on_the_window_only() {
    let blob = Blob::new(vec![b"ok\xFFok".to_vec()], None);
    assert_eq!(
        blob.text(Newline::Lf),
        Err(BlobError::InvalidEncoding { valid_up_to: 2 })
    );
    assert_eq!(blob.slice(0, Some(2), None).unwrap().text(Newline::Lf).unwrap(), "ok");
    assert_eq!(blob.slice(3, Some(5), None).unwrap().text(Newline::Lf).unwrap(), "ok");
    // The offset counts from the start of the window.
    assert_eq!(
        blob.slice(1, Some(4), None).unwrap().text(Newline::Lf),
        Err(BlobError::InvalidEncoding { valid_up_to: 1 })
    );
    // A window that cuts a character in two does not decode.
    let euro = Blob::new(vec![b"\xE2\x82\xAC".to_vec()], None);
    assert_eq!(
        euro.slice(1, Some(3), None).unwrap().text(Newline::Lf),
        Err(BlobError::InvalidEncoding { valid_up_to: 0 })
    );
}

#[test]
fn invalid_bytes_fail_under_the_native_policy_too() {
    let blob = Blob::new(
        vec![b"a\r\n\xFF".to_vec()],
        Some(BlobOptions::new(LineEndings::Native, None)),
    );
    assert_eq!(
        blob.text(Newline::Lf),
        Err(BlobError::InvalidEncoding { valid_up_to: 3 })
    );
}

#[test]
fn native_text_without_foreign_terminators_is_unchanged() {
    let blob = Blob::new(
        vec![b"one\ntwo\n".to_vec()],
        Some(BlobOptions::new(LineEndings::Native, None)),
    );
    assert_eq!(blob.text(Newline::Lf).unwrap(), "one\ntwo\n");
    let empty = Blob::new(Vec::new(), Some(BlobOptions::new(LineEndings::Native, None)));
    assert_eq!(empty.text(Newline::Lf).unwrap(), "");
    assert_eq!(empty.text(Newline::CrLf).unwrap(), "");
}

#[test]
fn coalesce_copies_the_window() {
    let blob = Blob::new(vec![DATA.to_vec()], None);
    assert_eq!(blob.coalesce(), DATA.to_vec());
    let part = blob.slice(12, Some(23), None).unwrap();
    assert_eq!(part.coalesce(), b"Second line".to_vec());
    assert_eq!(part.coalesce().as_slice(), part.as_bytes());
    let three = Blob::new(vec![vec![1, 2], vec![], vec![3]], None);
    assert_eq!(three.coalesce(), vec![1, 2, 3]);
}

#[test]
fn stream_is_not_implemented() {
    assert_eq!(Blob::stream(), Err(BlobError::NotImplemented));
}
