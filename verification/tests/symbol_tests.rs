use qrgen::encode::{encode, EncodeError};

fn side_of_version(v: u8) -> usize {
    4 * v as usize + 17
}

#[test]
fn side_length_follows_the_version() {
    for data in [&b""[..], b"hello", b"1234567890", b"HELLO WORLD", &[b'x'; 200]] {
        let m = encode(data).unwrap();
        assert!(m.version >= 1 && m.version <= 40);
        assert_eq!(m.side, side_of_version(m.version));
        assert_eq!(m.side % 2, 1);
        assert_eq!(m.modules.len(), m.side * m.side);
        assert!(m.mask < 8);
    }
}

#[test]
fn small_payloads_use_version_one() {
    let m = encode(b"hello").unwrap();
    assert_eq!(m.version, 1);
    assert_eq!(m.side, 21);
}

#[test]
fn finder_patterns_sit_at_three_corners() {
    let m = encode(b"corner check").unwrap();
    let s = m.side;
    // the classic ring: outer border dark, next ring light, 3x3 core dark
    let expect = |dr: usize, dc: usize| -> bool {
        dr == 0 || dr == 6 || dc == 0 || dc == 6 || (2..=4).contains(&dr) && (2..=4).contains(&dc)
    };
    for dr in 0..7 {
        for dc in 0..7 {
            let e = expect(dr, dc);
            assert_eq!(m.is_dark(dr, dc), e);
            assert_eq!(m.is_dark(dr, s - 7 + dc), e);
            assert_eq!(m.is_dark(s - 7 + dr, dc), e);
        }
    }
}

#[test]
fn byte_capacity_boundary_at_version_forty() {
    let at_cap = vec![b'z'; 2953];
    let m = encode(&at_cap).unwrap();
    assert_eq!(m.version, 40);
    assert_eq!(m.side, 177);
    let over_cap = vec![b'z'; 2954];
    assert!(matches!(encode(&over_cap), Err(EncodeError::PayloadTooLarge)));
}

#[test]
fn format_information_records_the_mask() {
    // the 15-bit words for level L, indexed by mask
    let words: [u16; 8] = [0x77c4, 0x72f3, 0x7daa, 0x789d, 0x662f, 0x6318, 0x6c41, 0x6976];
    let coords_a: [(usize, usize); 15] = [
        (8, 0), (8, 1), (8, 2), (8, 3), (8, 4), (8, 5), (8, 7), (8, 8),
        (7, 8), (5, 8), (4, 8), (3, 8), (2, 8), (1, 8), (0, 8),
    ];
    for data in [&b"abc"[..], b"0123456789012345", b"MASK CHECK"] {
        let m = encode(data).unwrap();
        let w = words[m.mask as usize];
        for (j, (r, c)) in coords_a.iter().enumerate() {
            let bit = (w >> (14 - j)) & 1 == 1;
            assert_eq!(m.is_dark(*r, *c), bit, "format bit {} of {:?}", j, data);
        }
    }
}

#[test]
fn matrices_match_the_reference_encoder() {
    let payloads: [&[u8]; 6] = [
        b"hello",
        b"hi",
        b"1234567890",
        b"HELLO WORLD",
        b"01234567890123456789012345678901234567890123456789",
        b"averylongpayloadthatneedsabiggersymbolversionxxxxyyyyzzzzaveragetextgoeshere",
    ];
    for data in payloads {
        let code = qrcode::QrCode::with_error_correction_level(data, qrcode::EcLevel::L).unwrap();
        let width = code.width();
        let colors = code.to_colors();
        let m = encode(data).unwrap();
        assert_eq!(m.side, width, "side for {:?}", data);
        for r in 0..width {
            for c in 0..width {
                let reference_dark = colors[r * width + c] == qrcode::Color::Dark;
                assert_eq!(m.is_dark(r, c), reference_dark, "module ({}, {}) for {:?}", r, c, data);
            }
        }
    }
}

#[test]
fn encoding_never_panics_on_odd_bytes() {
    let data: Vec<u8> = (0u8..=255u8).collect();
    let m = encode(&data).unwrap();
    assert_eq!(m.side, side_of_version(m.version));
}

#[test]
fn larger_matrices_match_the_reference_encoder() {
    // payload sizes that force symbols with version-information blocks
    // and the wider character-count indicator
    let payloads: Vec<Vec<u8>> = vec![
        vec![b'k'; 160],
        (0..300u32).map(|i| b'a' + (i % 23) as u8).collect(),
        vec![b'7'; 700],
    ];
    for data in payloads {
        let code = qrcode::QrCode::with_error_correction_level(&data, qrcode::EcLevel::L).unwrap();
        let width = code.width();
        let colors = code.to_colors();
        let m = encode(&data).unwrap();
        assert_eq!(m.side, width, "side for {} bytes", data.len());
        assert!(m.version >= 7);
        for r in 0..width {
            for c in 0..width {
                let reference_dark = colors[r * width + c] == qrcode::Color::Dark;
                assert_eq!(m.is_dark(r, c), reference_dark, "module ({}, {})", r, c);
            }
        }
    }
}
