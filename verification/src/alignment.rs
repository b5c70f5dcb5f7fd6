//! Where the columns of a row stand: the gap of a grouped row, and the
//! column at which the ASCII delimiter begins.

use vstd::prelude::*;
use vstd::arithmetic::div_mod::{lemma_div_is_ordered, lemma_fundamental_div_mod, lemma_mod_bound};
use crate::hex::{hex_number, hex_pair};
use crate::layout::{footprint, LayoutConfig};
use crate::render::{
    address_column, cell_text, hex_column, hex_padding, row_text, ADDRESS_DIGITS,
};
use crate::text::spaces;
use crate::window::{
    in_order, lemma_row_bounds, lemma_row_wf, lemma_rows_needed, row_len, row_of,
    rows_needed, RowView, WindowView,
};

verus! {

/// Whether a row of `n` cells reaches the gap of a grouped row.
pub open spec fn reaches_gap(n: nat, width: nat, group: bool) -> bool {
    group && 1 <= width / 2 <= n
}

/// Without grouping every cell takes three characters.
pub proof fn lemma_plain_column_len(cells: Seq<(u8, usize)>, width: nat)
    ensures
        hex_column(cells, width, false).len() == 3 * cells.len(),
    decreases cells.len(),
{
    if cells.len() > 0 {
        lemma_plain_column_len(cells.drop_last(), width);
    }
}

/// Grouping boundary: in a grouped row that reaches the middle, one more
/// blank stands behind the first `width / 2` cells, and nowhere else; a row
/// that does not reach the middle has none.
pub proof fn lemma_group_gap(cells: Seq<(u8, usize)>, width: nat)
    requires
        in_order(cells),
    ensures
        reaches_gap(cells.len(), width, true) ==> hex_column(cells, width, true) == hex_column(
            cells.take((width / 2) as int),
            width,
            false,
        ) + seq![' '] + hex_column(cells.skip((width / 2) as int), width, false),
        !reaches_gap(cells.len(), width, true) ==> hex_column(cells, width, true) == hex_column(
            cells,
            width,
            false,
        ),
    decreases cells.len(),
{
    let mid = (width / 2) as int;
    let n = cells.len() as int;
    if n > 0 {
        let front = cells.drop_last();
        let last = cells.last();
        assert(last.1 == n - 1);
        lemma_group_gap(front, width);
        if mid >= 1 && n == mid {
            assert(cells.take(mid) =~= cells);
            assert(cells.skip(mid) =~= Seq::<(u8, usize)>::empty());
            assert(hex_column(cells, width, true) =~= hex_column(cells, width, false) + seq![' ']
                + hex_column(cells.skip(mid), width, false));
        } else if mid >= 1 && n > mid {
            assert(front.take(mid) =~= cells.take(mid));
            assert(cells.skip(mid).drop_last() =~= front.skip(mid));
            assert(cells.skip(mid).last() == last);
            assert(hex_column(cells, width, true) =~= hex_column(cells.take(mid), width, false)
                + seq![' '] + hex_column(cells.skip(mid), width, false));
        }
    }
}

/// The length of the hex column of a row: three characters for each cell,
/// and one for the gap where the row reaches it.
pub proof fn lemma_hex_column_len(cells: Seq<(u8, usize)>, width: nat, group: bool)
    requires
        in_order(cells),
    ensures
        hex_column(cells, width, group).len() == 3 * cells.len() + if reaches_gap(
            cells.len(),
            width,
            group,
        ) {
            1nat
        } else {
            0nat
        },
{
    let mid = (width / 2) as int;
    lemma_plain_column_len(cells, width);
    if group {
        lemma_group_gap(cells, width);
        if reaches_gap(cells.len(), width, true) {
            lemma_plain_column_len(cells.take(mid), width);
            lemma_plain_column_len(cells.skip(mid), width);
        }
    }
}

/// The column of a row's line at which the ASCII delimiter begins.
pub open spec fn bar_column(row: RowView, config: LayoutConfig) -> nat {
    let hex_len = hex_column(row.hex_cells, config.width as nat, config.group_mid).len();
    address_column(row.address, config.show_address).len() + hex_len + hex_padding(
        hex_len,
        config.width as nat,
        config.group_mid,
    )
}

/// No character of the text is the delimiter.
pub open spec fn bar_free(text: Seq<char>) -> bool {
    forall|k: int| 0 <= k < text.len() ==> text[k] != '|'
}

/// A number in hexadecimal holds no delimiter.
pub proof fn lemma_hex_number_bar_free(v: nat, min_digits: nat)
    ensures
        bar_free(hex_number(v, min_digits)),
    decreases v, min_digits,
{
    if !(v < 16 && min_digits <= 1) {
        lemma_hex_number_bar_free(
            v / 16,
            if min_digits > 0 {
                (min_digits - 1) as nat
            } else {
                0
            },
        );
    }
}

/// The hex column holds no delimiter.
pub proof fn lemma_hex_column_bar_free(cells: Seq<(u8, usize)>, width: nat, group: bool)
    ensures
        bar_free(hex_column(cells, width, group)),
    decreases cells.len(),
{
    if cells.len() > 0 {
        lemma_hex_column_bar_free(cells.drop_last(), width, group);
        let b = cells.last().0;
        assert(bar_free(hex_pair(b)));
        assert(bar_free(cell_text(cells.last(), width, group)));
    }
}

/// `bar_column` is where the delimiter of the ASCII column begins: the
/// first `|` of the line stands there.
pub proof fn lemma_bar_column(row: RowView, config: LayoutConfig)
    requires
        config.show_ascii,
    ensures
        bar_column(row, config) < row_text(row, config).len(),
        row_text(row, config)[bar_column(row, config) as int] == '|',
        bar_free(row_text(row, config).take(bar_column(row, config) as int)),
{
    let width = config.width as nat;
    let address = address_column(row.address, config.show_address);
    let hex = hex_column(row.hex_cells, width, config.group_mid);
    let pad = spaces(hex_padding(hex.len(), width, config.group_mid));
    let line = row_text(row, config);
    lemma_hex_number_bar_free(row.address, ADDRESS_DIGITS as nat);
    lemma_hex_column_bar_free(row.hex_cells, width, config.group_mid);
    assert(bar_free(address));
    assert(line =~= address + hex + pad + seq!['|'] + row.ascii_cells + seq!['|'] + seq!['\n']);
    assert(line.take(bar_column(row, config) as int) =~= address + hex + pad);
}

/// A larger number has no fewer digits.
pub proof fn lemma_hex_number_len(a: nat, b: nat, min_digits: nat)
    requires
        a <= b,
    ensures
        1 <= hex_number(a, min_digits).len() <= hex_number(b, min_digits).len(),
    decreases b, min_digits,
{
    let rest: nat = if min_digits > 0 {
        (min_digits - 1) as nat
    } else {
        0
    };
    if !(b < 16 && min_digits <= 1) {
        lemma_div_is_ordered(a as int, b as int, 16);
        lemma_hex_number_len(a / 16, b / 16, rest);
    }
}

/// Alignment: with the ASCII column switched on, the delimiter begins at
/// the same column in every row of a rendering. Two kinds of rendering are
/// left out, in which it cannot: a grouped one of two to eight bytes per
/// row that has both a full and a shorter row, whose full rows are one
/// character longer than the footprint; and one with addresses whose first
/// and last address differ in their number of digits.
pub proof fn lemma_alignment(window: WindowView, config: LayoutConfig, i: nat, j: nat)
    requires
        config.width >= 1,
        config.show_ascii,
        i < rows_needed(window.bytes.len(), config.width as nat),
        j < rows_needed(window.bytes.len(), config.width as nat),
        config.group_mid && 2 <= config.width <= 8 ==> window.bytes.len() <= config.width
            || window.bytes.len() % (config.width as nat) == 0,
        config.show_address ==> address_column(window.base_offset, true).len() == address_column(
            row_of(
                window,
                config.width as nat,
                (rows_needed(window.bytes.len(), config.width as nat) - 1) as nat,
            ).address,
            true,
        ).len(),
    ensures
        bar_column(row_of(window, config.width as nat, i), config) == bar_column(
            row_of(window, config.width as nat, j),
            config,
        ),
{
    let width = config.width as nat;
    let len = window.bytes.len();
    let count = rows_needed(len, width);
    lemma_bar_in_row(window, config, i);
    lemma_bar_in_row(window, config, j);
    lemma_rows_needed(len, width);
    lemma_fundamental_div_mod(len as int, width as int);
    lemma_mod_bound(len as int, width as int);
    lemma_row_bounds(len, width, i);
    lemma_row_bounds(len, width, j);
    if config.group_mid && 2 <= width <= 8 {
        // every row is full, or there is one row only
        if len <= width {
            assert(count <= 1) by (nonlinear_arith)
                requires
                    width >= 1,
                    len <= width,
                    len == width * (len as int / (width as int)) + len as int % (width as int),
                    0 <= len as int % (width as int) < width,
                    0 <= len as int / (width as int),
                    count == if len as int % (width as int) == 0 {
                        len as int / (width as int)
                    } else {
                        len as int / (width as int) + 1
                    },
            ;
        } else {
            assert((i + 1) * width <= len && (j + 1) * width <= len) by (nonlinear_arith)
                requires
                    width >= 1,
                    len == width * count,
                    i < count,
                    j < count,
            ;
        }
    }
    if config.show_address {
        let last = (count - 1) as nat;
        lemma_address_len(window, width, 0, i);
        lemma_address_len(window, width, i, last);
        lemma_address_len(window, width, 0, j);
        lemma_address_len(window, width, j, last);
        assert(row_of(window, width, 0).address == window.base_offset) by (nonlinear_arith)
            requires
                row_of(window, width, 0).address == window.base_offset + 0 * width,
        ;
    }
}

/// The delimiter's column in a row of a window: behind the address and the
/// footprint, or behind a hex column that is longer than the footprint.
proof fn lemma_bar_in_row(window: WindowView, config: LayoutConfig, index: nat)
    requires
        config.width >= 1,
        index < rows_needed(window.bytes.len(), config.width as nat),
    ensures
        ({
            let row = row_of(window, config.width as nat, index);
            let n = row_len(window.bytes.len(), config.width as nat, index);
            let hex_len = 3 * n + if reaches_gap(n, config.width as nat, config.group_mid) {
                1nat
            } else {
                0nat
            };
            bar_column(row, config) == address_column(row.address, config.show_address).len()
                + if hex_len <= footprint(config.width as nat, config.group_mid) {
                footprint(config.width as nat, config.group_mid)
            } else {
                hex_len
            }
        }),
{
    lemma_row_wf(window, config.width as nat, index);
    lemma_hex_column_len(
        row_of(window, config.width as nat, index).hex_cells,
        config.width as nat,
        config.group_mid,
    );
}

/// A later row's address column is no shorter than an earlier row's.
proof fn lemma_address_len(window: WindowView, width: nat, i: nat, j: nat)
    requires
        i <= j,
    ensures
        address_column(row_of(window, width, i).address, true).len() <= address_column(
            row_of(window, width, j).address,
            true,
        ).len(),
{
    assert(i * width <= j * width) by (nonlinear_arith)
        requires
            i <= j,
    ;
    lemma_hex_number_len(
        row_of(window, width, i).address,
        row_of(window, width, j).address,
        ADDRESS_DIGITS as nat,
    );
}

} // verus!
