use bix::hex::{hex_digit_of, push_hex_number, push_hex_pair};
use bix::layout::{footprint_fits, hex_column_footprint, LayoutMode, DEFAULT_WIDTH};
use bix::text::push_spaces;
use bix::window::display_char_of;
use bix::{parse_byte, render, render_raw, render_row, ByteWindow, ErrorKind, LayoutConfig, Row};

fn window(base_offset: u64, bytes: &[u8]) -> ByteWindow {
    ByteWindow::new(base_offset, bytes.to_vec()).unwrap()
}

fn layout(width: usize, address: bool, group: bool, ascii: bool) -> LayoutConfig {
    LayoutConfig::new(width, address, group, ascii, false).unwrap()
}

fn counting(n: usize) -> Vec<u8> {
    (0..n).map(|i| i as u8).collect()
}

fn bar_column(line: &str) -> usize {
    line.find('|').unwrap()
}

#[test]
fn example_row_with_address_and_ascii() {
    let lines = render(&window(0, &[0x41, 0x42, 0x0A, 0x20]), &layout(4, true, false, true));
    assert_eq!(lines, vec!["00000000: 41 42 0A 20 |AB. |\n".to_string()]);
}

#[test]
fn default_layout_full_and_short_row() {
    let lines = render(&window(0x10, &counting(20)), &LayoutConfig::default());
    let first = "00000010: 00 01 02 03 04 05 06 07  08 09 0A 0B 0C 0D 0E 0F |................|\n";
    let second = format!("00000020: 10 11 12 13 {}|....|\n", " ".repeat(37));
    assert_eq!(lines, vec![first.to_string(), second]);
}

#[test]
fn default_layout_is_sixteen_wide_with_all_columns() {
    let config = LayoutConfig::default();
    assert_eq!(DEFAULT_WIDTH, 16);
    assert_eq!(config, LayoutConfig::new(16, true, true, true, false).unwrap());
    assert_eq!(config.mode(), LayoutMode::Structured { address: true, group: true, ascii: true });
}

#[test]
fn row_count_is_ceiling_of_length_over_width() {
    for (len, width, rows) in [
        (0usize, 16usize, 0usize),
        (1, 16, 1),
        (15, 16, 1),
        (16, 16, 1),
        (17, 16, 2),
        (32, 16, 2),
        (33, 16, 3),
        (5, 1, 5),
        (7, 3, 3),
        (9, 3, 3),
        (10, 3, 4),
        (100, 7, 15),
    ] {
        let w = window(0, &counting(len));
        assert_eq!(w.row_count(width), rows);
        assert_eq!(w.rows(width).len(), rows);
        for group in [false, true] {
            for ascii in [false, true] {
                assert_eq!(render(&w, &layout(width, true, group, ascii)).len(), rows);
            }
        }
    }
}

#[test]
fn empty_window_renders_no_row() {
    let w = window(0x100, &[]);
    assert_eq!(render(&w, &LayoutConfig::default()), Vec::<String>::new());
    assert_eq!(w.rows(16), Vec::<Row>::new());
    assert_eq!(w.row(16, 0), None);
}

#[test]
fn empty_window_in_raw_mode_is_a_bare_newline() {
    let raw = LayoutConfig::new(16, true, true, true, true).unwrap();
    assert_eq!(render(&window(0, &[]), &raw), vec!["\n".to_string()]);
    assert_eq!(render_raw(&Vec::new()), "\n");
}

#[test]
fn raw_mode_is_one_line_of_hex_bytes() {
    assert_eq!(render_raw(&vec![0xDE, 0xAD, 0xBE, 0xEF]), "DE AD BE EF \n");
    assert_eq!(render_raw(&vec![0x00, 0x0a, 0xff]), "00 0A FF \n");
    let bytes = counting(40);
    let raw = LayoutConfig::new(16, true, true, true, true).unwrap();
    let lines = render(&window(7, &bytes), &raw);
    assert_eq!(lines.len(), 1);
    assert_eq!(lines[0], render_raw(&bytes));
    assert_eq!(lines[0].len(), 40 * 3 + 1);
}

#[test]
fn raw_mode_ignores_the_other_flags() {
    let w = window(0x1234, &counting(50));
    let reference = render(&w, &LayoutConfig::new(16, true, true, true, true).unwrap());
    for width in [1usize, 4, 16, 33] {
        for address in [false, true] {
            for group in [false, true] {
                for ascii in [false, true] {
                    let config = LayoutConfig::new(width, address, group, ascii, true).unwrap();
                    assert_eq!(config.mode(), LayoutMode::Raw);
                    assert_eq!(render(&w, &config), reference);
                }
            }
        }
    }
}

#[test]
fn grouping_gap_stands_after_the_eighth_byte() {
    let config = layout(16, false, true, false);
    let full = render(&window(0, &counting(16)), &config);
    assert_eq!(full, vec!["00 01 02 03 04 05 06 07  08 09 0A 0B 0C 0D 0E 0F \n".to_string()]);
    assert_eq!(full[0].matches("  ").count(), 1);
    assert_eq!(full[0].find("  "), Some(8 * 3 - 1));
    let seven = render(&window(0, &counting(7)), &config);
    assert_eq!(seven, vec!["00 01 02 03 04 05 06 \n".to_string()]);
    assert!(!seven[0].contains("  "));
    let eight = render(&window(0, &counting(8)), &config);
    assert_eq!(eight, vec!["00 01 02 03 04 05 06 07  \n".to_string()]);
    let two_rows = render(&window(0, &counting(32)), &config);
    for line in &two_rows {
        assert_eq!(line.matches("  ").count(), 1);
        assert_eq!(line.find("  "), Some(23));
    }
}

#[test]
fn grouping_off_leaves_single_blanks() {
    let lines = render(&window(0, &counting(16)), &layout(16, false, false, false));
    assert_eq!(lines, vec!["00 01 02 03 04 05 06 07 08 09 0A 0B 0C 0D 0E 0F \n".to_string()]);
}

#[test]
fn odd_width_groups_after_floor_of_half() {
    let lines = render(&window(0, &counting(7)), &layout(5, false, true, false));
    assert_eq!(lines, vec!["00 01  02 03 04 \n".to_string(), "05 06  \n".to_string()]);
    let lines = render(&window(0, &counting(3)), &layout(3, false, true, false));
    assert_eq!(lines, vec!["00  01 02 \n".to_string()]);
}

#[test]
fn width_one_has_no_gap() {
    let lines = render(&window(0, &[0xAB, 0xCD]), &layout(1, true, true, true));
    assert_eq!(
        lines,
        vec!["00000000: AB |.|\n".to_string(), "00000001: CD |.|\n".to_string()]
    );
}

#[test]
fn short_row_that_reaches_the_middle_is_padded_to_the_footprint() {
    let lines = render(&window(0, &counting(8)), &layout(16, false, true, true));
    let expected = format!("00 01 02 03 04 05 06 07  {}|........|\n", " ".repeat(24));
    assert_eq!(lines, vec![expected]);
    assert_eq!(bar_column(&lines[0]), 49);
}

#[test]
fn ascii_column_without_grouping_uses_three_columns_per_cell() {
    let lines = render(&window(0, b"Hello, world!"), &layout(8, false, false, true));
    assert_eq!(
        lines,
        vec![
            "48 65 6C 6C 6F 2C 20 77 |Hello, w|\n".to_string(),
            "6F 72 6C 64 21          |orld!|\n".to_string(),
        ]
    );
}

#[test]
fn delimiter_begins_at_the_same_column_in_every_row() {
    for (len, width, address, group, column) in [
        (20usize, 16usize, true, true, 59usize),
        (40, 16, true, true, 59),
        (40, 16, false, true, 49),
        (24, 16, true, true, 59),
        (25, 9, true, true, 38),
        (100, 32, false, true, 97),
        (10, 4, true, false, 22),
        (13, 8, false, false, 24),
        (3, 1, true, true, 13),
        (16, 8, true, true, 35),
        (5, 8, true, true, 34),
    ] {
        let lines = render(&window(0x40, &counting(len)), &layout(width, address, group, true));
        assert!(!lines.is_empty());
        for line in &lines {
            assert_eq!(bar_column(line), column);
        }
    }
}

#[test]
fn narrow_grouped_rows_are_longer_than_the_footprint() {
    let lines = render(&window(0, &counting(6)), &layout(4, false, true, true));
    assert_eq!(
        lines,
        vec!["00 01  02 03 |....|\n".to_string(), "04 05       |..|\n".to_string()]
    );
    assert_eq!(bar_column(&lines[0]), 13);
    assert_eq!(bar_column(&lines[1]), 12);
}

#[test]
fn address_grows_beyond_eight_digits() {
    let lines = render(&window(0xFFFF_FFF0, &counting(32)), &layout(16, true, false, false));
    assert!(lines[0].starts_with("FFFFFFF0: 00 01 "));
    assert!(lines[1].starts_with("100000000: 10 11 "));
    let lines = render(&window(u64::MAX - 3, &counting(4)), &layout(2, true, false, false));
    assert_eq!(
        lines,
        vec!["FFFFFFFFFFFFFFFC: 00 01 \n".to_string(), "FFFFFFFFFFFFFFFE: 02 03 \n".to_string()]
    );
}

#[test]
fn address_is_base_offset_plus_row_start() {
    let lines = render(&window(0x1F, &counting(12)), &layout(5, true, false, false));
    assert_eq!(
        lines,
        vec![
            "0000001F: 00 01 02 03 04 \n".to_string(),
            "00000024: 05 06 07 08 09 \n".to_string(),
            "00000029: 0A 0B \n".to_string(),
        ]
    );
}

#[test]
fn display_characters() {
    assert_eq!(display_char_of(0x00), '.');
    assert_eq!(display_char_of(0x0A), '.');
    assert_eq!(display_char_of(0x1F), '.');
    assert_eq!(display_char_of(0x20), ' ');
    assert_eq!(display_char_of(0x21), '!');
    assert_eq!(display_char_of(0x41), 'A');
    assert_eq!(display_char_of(0x7C), '|');
    assert_eq!(display_char_of(0x7E), '~');
    assert_eq!(display_char_of(0x7F), '.');
    assert_eq!(display_char_of(0x80), '.');
    assert_eq!(display_char_of(0xFF), '.');
    for b in 0u8..=255 {
        let expected = if (b.is_ascii_graphic() || b == b' ') && !b.is_ascii_control() {
            b as char
        } else {
            '.'
        };
        assert_eq!(display_char_of(b), expected);
    }
}

#[test]
fn rows_hold_address_cells_and_characters() {
    let w = window(0x100, b"AB\x00C~");
    let rows = w.rows(2);
    assert_eq!(
        rows,
        vec![
            Row { address: 0x100, hex_cells: vec![(0x41, 0), (0x42, 1)], ascii_cells: vec!['A', 'B'] },
            Row { address: 0x102, hex_cells: vec![(0x00, 0), (0x43, 1)], ascii_cells: vec!['.', 'C'] },
            Row { address: 0x104, hex_cells: vec![(0x7E, 0)], ascii_cells: vec!['~'] },
        ]
    );
    assert_eq!(w.row(2, 1), Some(rows[1].clone()));
    assert_eq!(w.row_at(2, 2), rows[2]);
    assert_eq!(w.row(2, 3), None);
}

#[test]
fn a_row_renders_from_its_own_cells() {
    let row = Row {
        address: 0xABCDEF,
        hex_cells: vec![(0x01, 0), (0x02, 1), (0x03, 2)],
        ascii_cells: vec!['x', 'y', 'z'],
    };
    assert_eq!(render_row(&row, &layout(4, true, true, true)), "00ABCDEF: 01 02  03   |xyz|\n");
    assert_eq!(render_row(&row, &layout(4, false, false, true)), "01 02 03    |xyz|\n");
    assert_eq!(render_row(&row, &layout(4, false, true, false)), "01 02  03 \n");
    let gap_on_last = Row { address: 0, hex_cells: vec![(0xAA, 7)], ascii_cells: vec![] };
    assert_eq!(render_row(&gap_on_last, &layout(16, false, true, false)), "AA  \n");
}

#[test]
fn a_rendering_is_the_rows_rendered_in_order() {
    let w = window(0xFF0, &counting(45));
    for width in [1usize, 6, 16, 45, 46] {
        let config = layout(width, true, true, true);
        let from_rows: Vec<String> = w.rows(width).iter().map(|r| render_row(r, &config)).collect();
        assert_eq!(render(&w, &config), from_rows);
        for (i, line) in from_rows.iter().enumerate() {
            assert_eq!(Some(line.clone()), w.row(width, i).map(|r| render_row(&r, &config)));
        }
    }
}

#[test]
fn hex_bytes_of_rendered_rows_give_the_window_back() {
    let bytes: Vec<u8> = (0..=255u8).rev().chain(0..77u8).collect();
    for width in [1usize, 2, 3, 7, 8, 9, 16, 17, 64, 400] {
        for group in [false, true] {
            for address in [false, true] {
                for ascii in [false, true] {
                    let lines = render(&window(0, &bytes), &layout(width, address, group, ascii));
                    let mut read: Vec<u8> = Vec::new();
                    for line in &lines {
                        let rest = if address { &line[10..] } else { &line[..] };
                        let hex = match rest.find('|') {
                            Some(bar) => &rest[..bar],
                            None => rest,
                        };
                        for token in hex.split_whitespace() {
                            assert_eq!(token.len(), 2);
                            read.push(parse_byte(token).unwrap());
                        }
                    }
                    assert_eq!(read, bytes);
                }
            }
        }
    }
    let raw = render_raw(&bytes);
    let read: Vec<u8> = raw.split_whitespace().map(|t| parse_byte(t).unwrap()).collect();
    assert_eq!(read, bytes);
}

#[test]
fn footprint_of_the_hex_column() {
    assert_eq!(hex_column_footprint(16, true), 49);
    assert_eq!(hex_column_footprint(16, false), 48);
    assert_eq!(hex_column_footprint(9, true), 28);
    assert_eq!(hex_column_footprint(8, true), 24);
    assert_eq!(hex_column_footprint(8, false), 24);
    assert_eq!(hex_column_footprint(1, true), 3);
    assert_eq!(hex_column_footprint(0, true), 0);
}

#[test]
fn footprint_must_fit() {
    assert!(footprint_fits(0, true));
    assert!(footprint_fits(16, true));
    assert!(footprint_fits(usize::MAX / 3, false));
    assert!(!footprint_fits(usize::MAX / 3 + 1, false));
    assert_eq!(footprint_fits(usize::MAX / 3, true), usize::MAX % 3 != 0);
    assert!(footprint_fits((usize::MAX - 1) / 3, true));
    assert!(!footprint_fits(usize::MAX, true));
    assert_eq!(hex_column_footprint(usize::MAX / 3, false), usize::MAX / 3 * 3);
}

#[test]
fn zero_width_is_turned_down() {
    for raw in [false, true] {
        assert_eq!(LayoutConfig::new(0, true, true, true, raw), Err(ErrorKind::InvalidWidth));
    }
    assert_eq!(
        LayoutConfig::new(1, false, true, false, false),
        Ok(LayoutConfig { width: 1, show_address: false, group_mid: true, show_ascii: false, raw_mode: false })
    );
}

#[test]
fn mode_resolves_the_flags() {
    assert_eq!(
        layout(16, false, true, false).mode(),
        LayoutMode::Structured { address: false, group: true, ascii: false }
    );
    assert_eq!(LayoutConfig::new(16, false, true, false, true).unwrap().mode(), LayoutMode::Raw);
}

#[test]
fn window_offsets_must_fit() {
    assert!(ByteWindow::new(u64::MAX, vec![]).is_some());
    assert!(ByteWindow::new(u64::MAX, vec![1]).is_some());
    assert_eq!(ByteWindow::new(u64::MAX, vec![1, 2]), None);
    assert_eq!(ByteWindow::new(u64::MAX - 9, vec![0; 11]), None);
    let w = ByteWindow::new(5, vec![1, 2, 3]).unwrap();
    assert_eq!(w.base_offset, 5);
    assert_eq!(w.bytes, vec![1, 2, 3]);
}

#[test]
fn source_hands_out_the_requested_range() {
    let source: Vec<u8> = counting(10);
    assert_eq!(ByteWindow::from_source(&source, 2, Some(3)), Ok(window(2, &[2, 3, 4])));
    assert_eq!(ByteWindow::from_source(&source, 0, None), Ok(window(0, &source)));
    assert_eq!(ByteWindow::from_source(&source, 7, None), Ok(window(7, &[7, 8, 9])));
    assert_eq!(ByteWindow::from_source(&source, 7, Some(3)), Ok(window(7, &[7, 8, 9])));
    assert_eq!(ByteWindow::from_source(&source, 10, None), Ok(window(10, &[])));
    assert_eq!(ByteWindow::from_source(&source, 10, Some(0)), Ok(window(10, &[])));
    assert_eq!(ByteWindow::from_source(&source, 99, None), Ok(window(99, &[])));
    assert_eq!(ByteWindow::from_source(&source, 99, Some(0)), Ok(window(99, &[])));
}

#[test]
fn source_reports_a_short_read() {
    let source: Vec<u8> = counting(10);
    assert_eq!(ByteWindow::from_source(&source, 7, Some(4)), Err(ErrorKind::ShortRead));
    assert_eq!(ByteWindow::from_source(&source, 0, Some(11)), Err(ErrorKind::ShortRead));
    assert_eq!(ByteWindow::from_source(&source, 10, Some(1)), Err(ErrorKind::ShortRead));
    assert_eq!(ByteWindow::from_source(&source, u64::MAX, Some(1)), Err(ErrorKind::ShortRead));
    assert_eq!(ByteWindow::from_source(&Vec::new(), 0, Some(usize::MAX)), Err(ErrorKind::ShortRead));
}

#[test]
fn hexadecimal_digits_and_numbers() {
    let digits: String = (0u8..16).map(hex_digit_of).collect();
    assert_eq!(digits, "0123456789ABCDEF");
    let mut out = String::from(">");
    push_hex_pair(&mut out, 0x0A);
    push_hex_pair(&mut out, 0xF0);
    assert_eq!(out, ">0AF0");
    for (value, min_digits, expected) in [
        (0u64, 8usize, "00000000"),
        (0, 0, "0"),
        (0, 1, "0"),
        (0x1234, 8, "00001234"),
        (0xFFFF_FFFF, 8, "FFFFFFFF"),
        (0x1_0000_0000, 8, "100000000"),
        (u64::MAX, 8, "FFFFFFFFFFFFFFFF"),
        (255, 1, "FF"),
        (255, 0, "FF"),
        (0xABC, 3, "ABC"),
        (0xABC, 5, "00ABC"),
    ] {
        let mut out = String::new();
        push_hex_number(&mut out, value, min_digits);
        assert_eq!(out, expected);
    }
    for value in [0u64, 1, 15, 16, 0xDEAD_BEEF, 0x1_0000_0000, u64::MAX / 7, u64::MAX] {
        let mut out = String::new();
        push_hex_number(&mut out, value, 8);
        assert_eq!(out, format!("{:08X}", value));
    }
}

#[test]
fn blanks_are_appended() {
    let mut out = String::from("ab");
    push_spaces(&mut out, 0);
    assert_eq!(out, "ab");
    push_spaces(&mut out, 3);
    assert_eq!(out, "ab   ");
}
