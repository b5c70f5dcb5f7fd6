use bix::{parse_byte, parse_offset, ErrorKind};

fn std_offset(s: &str) -> Option<u64> {
    match s.strip_prefix("0x") {
        Some(stripped) => u64::from_str_radix(stripped, 16).ok(),
        None => s.parse::<u64>().ok(),
    }
}

#[test]
fn offset_parsing() {
    assert_eq!(parse_offset("0x10"), Ok(16));
    assert_eq!(parse_offset("16"), Ok(16));
    assert_eq!(parse_offset("0xZZ"), Err(ErrorKind::InvalidOffsetToken));
}

#[test]
fn offsets_in_hexadecimal() {
    assert_eq!(parse_offset("0x0"), Ok(0));
    assert_eq!(parse_offset("0xff"), Ok(255));
    assert_eq!(parse_offset("0xFF"), Ok(255));
    assert_eq!(parse_offset("0xDeadBeef"), Ok(0xDEAD_BEEF));
    assert_eq!(parse_offset("0x000000000000000000001"), Ok(1));
    assert_eq!(parse_offset("0xFFFFFFFFFFFFFFFF"), Ok(u64::MAX));
    assert_eq!(parse_offset("0x+1f"), Ok(31));
}

#[test]
fn offsets_in_decimal() {
    assert_eq!(parse_offset("0"), Ok(0));
    assert_eq!(parse_offset("007"), Ok(7));
    assert_eq!(parse_offset("+5"), Ok(5));
    assert_eq!(parse_offset("1234567890"), Ok(1_234_567_890));
    assert_eq!(parse_offset("18446744073709551615"), Ok(u64::MAX));
}

#[test]
fn malformed_offsets() {
    for token in [
        "", "0x", "+", "0x+", "-1", "0x-1", "0X10", "x10", " 16", "16 ", "1_000", "1 6", "0x1G",
        "12a", "++1", "+-1", "0x0x1", "١٢", "é", "1é",
    ] {
        assert_eq!(parse_offset(token), Err(ErrorKind::InvalidOffsetToken), "{:?}", token);
    }
}

#[test]
fn offsets_that_do_not_fit() {
    assert_eq!(parse_offset("18446744073709551616"), Err(ErrorKind::InvalidOffsetToken));
    assert_eq!(parse_offset("99999999999999999999999"), Err(ErrorKind::InvalidOffsetToken));
    assert_eq!(parse_offset("0x10000000000000000"), Err(ErrorKind::InvalidOffsetToken));
    assert_eq!(parse_offset("0xFFFFFFFFFFFFFFFFF"), Err(ErrorKind::InvalidOffsetToken));
    assert_eq!(parse_offset("18446744073709551616x"), Err(ErrorKind::InvalidOffsetToken));
}

#[test]
fn payload_bytes() {
    assert_eq!(parse_byte("AA"), Ok(0xAA));
    assert_eq!(parse_byte("dd"), Ok(0xDD));
    assert_eq!(parse_byte("Cc"), Ok(0xCC));
    assert_eq!(parse_byte("BA"), Ok(0xBA));
    assert_eq!(parse_byte("00"), Ok(0));
    assert_eq!(parse_byte("FF"), Ok(255));
    assert_eq!(parse_byte("7"), Ok(7));
    assert_eq!(parse_byte("+7"), Ok(7));
    assert_eq!(parse_byte("0000A"), Ok(10));
}

#[test]
fn malformed_payload_bytes() {
    for token in ["", "+", "G1", "1G", "0x10", "-1", " 1", "1 ", "100", "FFF", "1FF", "é"] {
        assert_eq!(parse_byte(token), Err(ErrorKind::InvalidByteToken), "{:?}", token);
    }
}

#[test]
fn every_byte_parses_from_its_two_digits() {
    for b in 0u8..=255 {
        assert_eq!(parse_byte(&format!("{:02X}", b)), Ok(b));
        assert_eq!(parse_byte(&format!("{:02x}", b)), Ok(b));
        assert_eq!(parse_byte(&format!("{:X}", b)), Ok(b));
    }
}

#[test]
fn tokens_parse_as_the_standard_library_reads_them() {
    let alphabet = ['0', '1', '9', 'a', 'F', 'g', 'x', '+', '-', ' ', '_', 'é'];
    let mut tokens: Vec<String> = vec![String::new()];
    let mut last: Vec<String> = vec![String::new()];
    for _ in 0..4 {
        let mut next = Vec::new();
        for t in &last {
            for c in alphabet {
                let mut longer = t.clone();
                longer.push(c);
                next.push(longer);
            }
        }
        tokens.extend(next.iter().cloned());
        last = next;
    }
    for t in &tokens {
        assert_eq!(parse_offset(t).ok(), std_offset(t), "{:?}", t);
        assert_eq!(parse_byte(t).ok(), u8::from_str_radix(t, 16).ok(), "{:?}", t);
    }
    for n in [0u64, 9, 10, 255, 256, 1 << 32, u64::MAX - 1, u64::MAX] {
        for t in [n.to_string(), format!("0x{:x}", n), format!("0x{:X}", n), format!("+{}", n), format!("{}0", n)] {
            assert_eq!(parse_offset(&t).ok(), std_offset(&t), "{:?}", t);
            assert_eq!(parse_byte(&t).ok(), u8::from_str_radix(&t, 16).ok(), "{:?}", t);
        }
    }
}
