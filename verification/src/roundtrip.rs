//! Reading rendered text back: every byte of a window appears in the hex
//! text exactly once and in order, and what the renderer writes, the token
//! parsers read.

use vstd::prelude::*;
use vstd::arithmetic::div_mod::{lemma_fundamental_div_mod, lemma_mod_bound};
use crate::error::ErrorKind;
use crate::hex::{hex_digit, hex_number, hex_pair};
use crate::layout::{LayoutConfig, LayoutMode};
use crate::render::{
    address_column, ascii_column, cell_text, hex_column, hex_padding, raw_cells, raw_text,
    rendered, row_text,
};
use crate::text::spaces;
use crate::token::{digit_value, digits_value, parsed_byte, parsed_offset};
use crate::window::{
    lemma_row_bounds, lemma_rows_needed, row_len, row_of, rows_needed, RowView, WindowView,
};

verus! {

/// The bytes that a text spells in hexadecimal. Blanks are passed over, two
/// digits make a byte, and reading ends at the first character that is
/// neither.
pub open spec fn hex_bytes(text: Seq<char>) -> Seq<u8>
    decreases text.len(),
{
    if text.len() == 0 {
        Seq::empty()
    } else if text[0] == ' ' {
        hex_bytes(text.skip(1))
    } else if text.len() >= 2 {
        match (digit_value(text[0], 16), digit_value(text[1], 16)) {
            (Some(high), Some(low)) => seq![(16 * high + low) as u8] + hex_bytes(text.skip(2)),
            _ => Seq::empty(),
        }
    } else {
        Seq::empty()
    }
}

/// The byte values of a row's cells.
pub open spec fn cell_bytes(cells: Seq<(u8, usize)>) -> Seq<u8> {
    Seq::new(cells.len(), |j: int| cells[j].0)
}

/// Byte sequences joined end to end.
pub open spec fn joined(parts: Seq<Seq<u8>>) -> Seq<u8>
    decreases parts.len(),
{
    if parts.len() == 0 {
        Seq::empty()
    } else {
        joined(parts.drop_last()) + parts.last()
    }
}

/// The bytes read back from each rendered line, in order: from the whole
/// line in raw mode, and from what follows the address column in a row.
pub open spec fn rendered_bytes(window: WindowView, config: LayoutConfig) -> Seq<Seq<u8>> {
    let lines = rendered(window, config);
    match config.mode_of() {
        LayoutMode::Raw => seq![hex_bytes(lines[0])],
        LayoutMode::Structured { .. } => Seq::new(
            lines.len(),
            |i: int|
                hex_bytes(
                    lines[i].skip(
                        address_column(
                            row_of(window, config.width as nat, i as nat).address,
                            config.show_address,
                        ).len() as int,
                    ),
                ),
        ),
    }
}

/// A hexadecimal digit reads back as its value, and is no blank.
pub proof fn lemma_hex_digit_value(n: int)
    requires
        0 <= n < 16,
    ensures
        digit_value(hex_digit(n), 16) == Some(n as nat),
        hex_digit(n) != ' ',
{
}

/// Blanks at the front of a text are passed over.
pub proof fn lemma_skip_blanks(n: nat, rest: Seq<char>)
    ensures
        hex_bytes(spaces(n) + rest) == hex_bytes(rest),
    decreases n,
{
    if n == 0 {
        assert(spaces(n) + rest =~= rest);
    } else {
        let text = spaces(n) + rest;
        assert(text[0] == ' ');
        assert(text.skip(1) =~= spaces((n - 1) as nat) + rest);
        lemma_skip_blanks((n - 1) as nat, rest);
    }
}

/// A byte's two digits, read from the front of a text, give the byte back.
pub proof fn lemma_read_pair(b: u8, rest: Seq<char>)
    ensures
        hex_bytes(hex_pair(b) + rest) == seq![b] + hex_bytes(rest),
{
    let text = hex_pair(b) + rest;
    lemma_hex_digit_value(b as int / 16);
    lemma_hex_digit_value(b as int % 16);
    assert(text[0] == hex_digit(b as int / 16));
    assert(text[1] == hex_digit(b as int % 16));
    assert(text.skip(2) =~= rest);
    assert(16 * (b as int / 16) + b as int % 16 == b);
}

/// A cell, read from the front of a text, gives its byte back.
pub proof fn lemma_read_cell(cell: (u8, usize), width: nat, group: bool, rest: Seq<char>)
    ensures
        hex_bytes(cell_text(cell, width, group) + rest) == seq![cell.0] + hex_bytes(rest),
{
    let gap: nat = if group && cell.1 + 1 == width / 2 {
        2
    } else {
        1
    };
    assert(cell_text(cell, width, group) + rest =~= hex_pair(cell.0) + (spaces(gap) + rest));
    lemma_read_pair(cell.0, spaces(gap) + rest);
    lemma_skip_blanks(gap, rest);
}

/// The hex column of cells put one behind the other is their hex columns
/// put one behind the other.
pub proof fn lemma_hex_column_concat(
    a: Seq<(u8, usize)>,
    b: Seq<(u8, usize)>,
    width: nat,
    group: bool,
)
    ensures
        hex_column(a + b, width, group) == hex_column(a, width, group) + hex_column(
            b,
            width,
            group,
        ),
    decreases b.len(),
{
    if b.len() == 0 {
        assert(a + b =~= a);
        assert(hex_column(a, width, group) + hex_column(b, width, group) =~= hex_column(
            a,
            width,
            group,
        ));
    } else {
        assert((a + b).drop_last() =~= a + b.drop_last());
        assert((a + b).last() == b.last());
        lemma_hex_column_concat(a, b.drop_last(), width, group);
        assert(hex_column(a + b, width, group) =~= hex_column(a, width, group) + hex_column(
            b,
            width,
            group,
        ));
    }
}

/// The hex column, read from the front of a text, gives the bytes of its
/// cells back, whatever the width and the grouping.
pub proof fn lemma_read_hex_column(
    cells: Seq<(u8, usize)>,
    width: nat,
    group: bool,
    rest: Seq<char>,
)
    ensures
        hex_bytes(hex_column(cells, width, group) + rest) == cell_bytes(cells) + hex_bytes(rest),
    decreases cells.len(),
{
    if cells.len() == 0 {
        assert(hex_column(cells, width, group) + rest =~= rest);
        assert(cell_bytes(cells) + hex_bytes(rest) =~= hex_bytes(rest));
    } else {
        let first = seq![cells[0]];
        let tail = cells.skip(1);
        assert(cells =~= first + tail);
        lemma_hex_column_concat(first, tail, width, group);
        assert(first.drop_last() =~= Seq::<(u8, usize)>::empty());
        assert(hex_column(first, width, group) =~= cell_text(cells[0], width, group)) by {
            reveal_with_fuel(hex_column, 2);
        }
        let after = hex_column(tail, width, group) + rest;
        assert(hex_column(cells, width, group) + rest =~= cell_text(cells[0], width, group)
            + after);
        lemma_read_cell(cells[0], width, group, after);
        lemma_read_hex_column(tail, width, group, rest);
        assert(cell_bytes(cells) + hex_bytes(rest) =~= seq![cells[0].0] + (cell_bytes(tail)
            + hex_bytes(rest)));
    }
}

/// The line of a row, read behind its address column, gives the bytes of
/// the row's cells back.
pub proof fn lemma_read_row(row: RowView, config: LayoutConfig)
    ensures
        hex_bytes(
            row_text(row, config).skip(
                address_column(row.address, config.show_address).len() as int,
            ),
        ) == cell_bytes(row.hex_cells),
{
    let width = config.width as nat;
    let address = address_column(row.address, config.show_address);
    let hex = hex_column(row.hex_cells, width, config.group_mid);
    let ascii = ascii_column(row, width, config.group_mid, config.show_ascii);
    let rest = ascii + seq!['\n'];
    assert(row_text(row, config).skip(address.len() as int) =~= hex + rest);
    lemma_read_hex_column(row.hex_cells, width, config.group_mid, rest);
    assert(hex_bytes(rest) =~= Seq::<u8>::empty()) by {
        if config.show_ascii {
            let pad = hex_padding(hex.len(), width, config.group_mid);
            let tail = seq!['|'] + row.ascii_cells + seq!['|'] + seq!['\n'];
            assert(rest =~= spaces(pad) + tail);
            lemma_skip_blanks(pad, tail);
            assert(tail[0] == '|');
        } else {
            assert(rest =~= seq!['\n']);
        }
    }
    assert(cell_bytes(row.hex_cells) + Seq::<u8>::empty() =~= cell_bytes(row.hex_cells));
}

/// The line of raw mode, read from its front, gives the bytes back.
pub proof fn lemma_read_raw(bytes: Seq<u8>, rest: Seq<char>)
    ensures
        hex_bytes(raw_cells(bytes) + rest) == bytes + hex_bytes(rest),
    decreases bytes.len(),
{
    if bytes.len() == 0 {
        assert(raw_cells(bytes) + rest =~= rest);
        assert(bytes + hex_bytes(rest) =~= hex_bytes(rest));
    } else {
        let front = bytes.drop_last();
        let after = hex_pair(bytes.last()) + (spaces(1) + rest);
        assert(raw_cells(bytes) + rest =~= raw_cells(front) + after);
        lemma_read_raw(front, after);
        lemma_read_pair(bytes.last(), spaces(1) + rest);
        lemma_skip_blanks(1, rest);
        assert(bytes + hex_bytes(rest) =~= front + (seq![bytes.last()] + hex_bytes(rest)));
    }
}

/// The bytes of each of the first `k` rows of a window.
pub open spec fn row_bytes(window: WindowView, width: nat, k: nat) -> Seq<Seq<u8>> {
    Seq::new(k, |i: int| cell_bytes(row_of(window, width, i as nat).hex_cells))
}

/// The first `k` rows hold the first bytes of the window: all of them where
/// `k` is the number of rows, else `k` full rows.
pub proof fn lemma_rows_cover_prefix(window: WindowView, width: nat, k: nat)
    requires
        width >= 1,
        k <= rows_needed(window.bytes.len(), width),
    ensures
        joined(row_bytes(window, width, k)) == window.bytes.take(
            if k == rows_needed(window.bytes.len(), width) {
                window.bytes.len() as int
            } else {
                (k * width) as int
            },
        ),
    decreases k,
{
    let len = window.bytes.len();
    let count = rows_needed(len, width);
    let parts = row_bytes(window, width, k);
    lemma_rows_needed(len, width);
    lemma_fundamental_div_mod(len as int, width as int);
    lemma_mod_bound(len as int, width as int);
    if k == 0 {
        if count == 0 {
            assert(len == 0) by (nonlinear_arith)
                requires
                    width >= 1,
                    len == width * (len as int / (width as int)) + len as int % (width as int),
                    len as int % (width as int) == 0,
                    len as int / (width as int) == 0,
            ;
        }
        assert(k * width == 0) by (nonlinear_arith)
            requires
                k == 0,
        ;
        assert(joined(parts) =~= window.bytes.take(0));
    } else {
        let i = (k - 1) as nat;
        lemma_rows_cover_prefix(window, width, i);
        lemma_row_bounds(len, width, i);
        assert(parts.drop_last() =~= row_bytes(window, width, i));
        let start = i * width;
        let n = row_len(len, width, i);
        assert(i * width + width == (i + 1) * width) by (nonlinear_arith);
        let end: int = if k == count {
            len as int
        } else {
            (k * width) as int
        };
        assert(start + n == end) by {
            if k == count {
                // the last row ends where the window ends
                assert(count * width >= len) by (nonlinear_arith)
                    requires
                        width >= 1,
                        len == width * (len as int / (width as int)) + len as int % (width as int),
                        0 <= len as int % (width as int) < width,
                        count == if len as int % (width as int) == 0 {
                            len as int / (width as int)
                        } else {
                            len as int / (width as int) + 1
                        },
                ;
            } else {
                // a row before the last is full
                lemma_row_bounds(len, width, k);
            }
        }
        assert(parts.last() =~= window.bytes.subrange(start as int, end));
        assert(joined(parts) =~= window.bytes.take(end));
    }
}

/// Round trip: the hex bytes of all rendered lines, read in order, are the
/// bytes of the window; for every width, with or without grouping, address
/// and ASCII column, and in raw mode too.
pub proof fn lemma_round_trip(window: WindowView, config: LayoutConfig)
    requires
        config.width >= 1,
    ensures
        joined(rendered_bytes(window, config)) == window.bytes,
{
    let width = config.width as nat;
    let parts = rendered_bytes(window, config);
    match config.mode_of() {
        LayoutMode::Raw => {
            lemma_read_raw(window.bytes, seq!['\n']);
            assert(hex_bytes(seq!['\n']) =~= Seq::<u8>::empty());
            assert(raw_text(window.bytes) == raw_cells(window.bytes) + seq!['\n']);
            assert(parts.drop_last() =~= Seq::<Seq<u8>>::empty());
            assert(joined(parts) =~= window.bytes) by {
                reveal_with_fuel(joined, 2);
            }
        },
        LayoutMode::Structured { .. } => {
            let count = rows_needed(window.bytes.len(), width);
            let cells = row_bytes(window, width, count);
            assert forall|i: int| 0 <= i < count implies parts[i] == cells[i] by {
                lemma_read_row(row_of(window, width, i as nat), config);
            }
            assert(parts =~= cells);
            lemma_rows_cover_prefix(window, width, count);
            assert(window.bytes.take(window.bytes.len() as int) =~= window.bytes);
        },
    }
}

/// The two digits of a byte are a payload token for that byte.
pub proof fn lemma_pair_parses_back(b: u8)
    ensures
        parsed_byte(hex_pair(b)) == Ok::<u8, ErrorKind>(b),
{
    let pair = hex_pair(b);
    lemma_hex_digit_value(b as int / 16);
    lemma_hex_digit_value(b as int % 16);
    assert(pair.drop_last() =~= seq![hex_digit(b as int / 16)]);
    assert(pair.drop_last().drop_last() =~= Seq::<char>::empty());
    assert(digits_value(pair, 16) == Some(b as nat)) by {
        reveal_with_fuel(digits_value, 3);
    }
}

/// The digits of a number in hexadecimal have the number as their value,
/// and no sign stands before them.
pub proof fn lemma_hex_number_value(v: nat, min_digits: nat)
    ensures
        digits_value(hex_number(v, min_digits), 16) == Some(v),
        hex_number(v, min_digits).len() >= 1,
        hex_number(v, min_digits)[0] != '+',
    decreases v, min_digits,
{
    let digits = hex_number(v, min_digits);
    lemma_hex_digit_value((v % 16) as int);
    if v < 16 && min_digits <= 1 {
        assert(digits.drop_last() =~= Seq::<char>::empty());
        assert(digits_value(digits, 16) == Some(v)) by {
            reveal_with_fuel(digits_value, 2);
        }
    } else {
        let rest: nat = if min_digits > 0 {
            (min_digits - 1) as nat
        } else {
            0
        };
        lemma_hex_number_value(v / 16, rest);
        assert(digits.drop_last() =~= hex_number(v / 16, rest));
        assert(digits[0] == hex_number(v / 16, rest)[0]);
    }
}

/// An address as a row shows it, behind the prefix `0x`, is an offset
/// token for that address.
pub proof fn lemma_address_parses_back(address: u64, min_digits: nat)
    ensures
        parsed_offset(seq!['0', 'x'] + hex_number(address as nat, min_digits)) == Ok::<
            u64,
            ErrorKind,
        >(address),
{
    let digits = hex_number(address as nat, min_digits);
    let token = seq!['0', 'x'] + digits;
    lemma_hex_number_value(address as nat, min_digits);
    assert(token.skip(2) =~= digits);
}

} // verus!
