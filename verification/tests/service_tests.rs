use qrgen::service::{generate_qr, generate_qr_get, generate_qr_post, parse_format, ServiceError};
use qrgen::OutputFormat;

#[test]
fn get_svg_scenario() {
    let r = generate_qr_get(Some(b"hello".to_vec()), Some(b"svg".to_vec()));
    assert_eq!(r.status, 200);
    assert_eq!(r.content_type, Some("image/svg+xml"));
    let body = String::from_utf8(r.body).unwrap();
    assert!(body.starts_with("<?xml version=\"1.0\" encoding=\"UTF-8\"?>\n<svg"));
    assert!(body.contains("<rect x="));
    assert!(body.ends_with("</svg>\n"));
    // version 1: the document is sized to a 21-module grid
    assert!(body.contains("width=\"21\""));
}

#[test]
fn get_defaults_to_png() {
    let r = generate_qr_get(Some(b"hello".to_vec()), None);
    assert_eq!(r.status, 200);
    assert_eq!(r.content_type, Some("image/png"));
    assert_eq!(&r.body[0..8], &[0x89, b'P', b'N', b'G', b'\r', b'\n', 0x1a, b'\n']);
}

#[test]
fn png_body_decodes_to_the_matrix() {
    let r = generate_qr_get(Some(b"hello".to_vec()), None);
    let img = image::load_from_memory(&r.body).unwrap().to_luma8();
    assert_eq!(img.width(), 21);
    assert_eq!(img.height(), 21);
    let m = qrgen::encode::encode(b"hello").unwrap();
    for row in 0..21u32 {
        for col in 0..21u32 {
            let dark = m.is_dark(row as usize, col as usize);
            let px = img.get_pixel(col, row).0[0];
            assert_eq!(px, if dark { 0 } else { 255 });
        }
    }
}

#[test]
fn post_defaults_to_unicode_text() {
    let r = generate_qr_post(Some((b"hi".to_vec(), None)));
    assert_eq!(r.status, 200);
    assert_eq!(r.content_type, Some("text/plain; charset=UTF-8"));
    let body = String::from_utf8(r.body).unwrap();
    assert!(body.ends_with("\n"));
    // 21 modules pack into 11 text rows
    assert_eq!(body.lines().count(), 11);
    assert!(body.contains('\u{2588}'));
}

#[test]
fn get_missing_data_is_rejected() {
    let r = generate_qr_get(None, None);
    assert_eq!(r.status, 400);
    assert_eq!(r.content_type, None);
    assert_eq!(r.body, b"Missing `data` parameter".to_vec());
}

#[test]
fn get_unsupported_format_is_rejected() {
    let r = generate_qr_get(Some(b"x".to_vec()), Some(b"bmp".to_vec()));
    assert_eq!(r.status, 400);
    assert_eq!(r.body, b"Unsupported format".to_vec());
}

#[test]
fn post_malformed_body_is_rejected() {
    let r = generate_qr_post(None);
    assert_eq!(r.status, 400);
    assert_eq!(r.body, b"Invalid JSON body".to_vec());
}

#[test]
fn get_and_post_agree_on_named_formats() {
    for name in [&b"png"[..], b"svg", b"unicode", b"unicode_inverted"] {
        let g = generate_qr_get(Some(b"same data".to_vec()), Some(name.to_vec()));
        let p = generate_qr_post(Some((b"same data".to_vec(), Some(name.to_vec()))));
        assert_eq!(g.status, 200);
        assert_eq!(g.status, p.status);
        assert_eq!(g.content_type, p.content_type);
        assert_eq!(g.body, p.body);
    }
}

#[test]
fn rendering_is_deterministic() {
    for f in [OutputFormat::Png, OutputFormat::Svg, OutputFormat::Unicode, OutputFormat::UnicodeInverted] {
        let a = generate_qr(b"determinism", f).unwrap();
        let b = generate_qr(b"determinism", f).unwrap();
        assert_eq!(a.0, b.0);
        assert_eq!(a.1, b.1);
    }
}

#[test]
fn unicode_and_inverted_swap_glyphs() {
    let plain = String::from_utf8(generate_qr(b"swap", OutputFormat::Unicode).unwrap().0).unwrap();
    let inv = String::from_utf8(generate_qr(b"swap", OutputFormat::UnicodeInverted).unwrap().0).unwrap();
    let plain_lines: Vec<&str> = plain.lines().collect();
    let inv_lines: Vec<&str> = inv.lines().collect();
    assert_eq!(plain_lines.len(), inv_lines.len());
    let last = plain_lines.len() - 1;
    for (i, (pl, il)) in plain_lines.iter().zip(inv_lines.iter()).enumerate() {
        for (a, b) in pl.chars().zip(il.chars()) {
            if i < last {
                // both half-pixels swap
                match a {
                    '\u{2588}' => assert_eq!(b, ' '),
                    ' ' => assert_eq!(b, '\u{2588}'),
                    '\u{2580}' => assert_eq!(b, '\u{2584}'),
                    '\u{2584}' => assert_eq!(b, '\u{2580}'),
                    _ => panic!("unexpected glyph"),
                }
            } else {
                // the odd final row has no bottom half-pixel in either rendering
                match a {
                    '\u{2580}' => assert_eq!(b, ' '),
                    ' ' => assert_eq!(b, '\u{2580}'),
                    _ => panic!("unexpected glyph on final row"),
                }
            }
        }
    }
}

#[test]
fn parse_format_recognizes_exactly_four_names() {
    assert_eq!(parse_format(b"png"), Some(OutputFormat::Png));
    assert_eq!(parse_format(b"svg"), Some(OutputFormat::Svg));
    assert_eq!(parse_format(b"unicode"), Some(OutputFormat::Unicode));
    assert_eq!(parse_format(b"unicode_inverted"), Some(OutputFormat::UnicodeInverted));
    assert_eq!(parse_format(b"bmp"), None);
    assert_eq!(parse_format(b"PNG"), None);
    assert_eq!(parse_format(b""), None);
    assert_eq!(parse_format(b"unicode_inverted2"), None);
}

#[test]
fn payload_too_large_is_a_client_error() {
    let data = vec![b'a'; 2954];
    let r = generate_qr_get(Some(data), Some(b"svg".to_vec()));
    assert_eq!(r.status, 400);
    assert_eq!(r.body, b"Payload too large".to_vec());
    assert_eq!(generate_qr(b"x", OutputFormat::Png).is_ok(), true);
    let err = generate_qr(&vec![b'a'; 2954], OutputFormat::Png).unwrap_err();
    assert_eq!(err, ServiceError::PayloadTooLarge);
}
