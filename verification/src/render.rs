//! The renderer: rows and windows as text.

use vstd::prelude::*;
use crate::hex::{hex_number, hex_pair, push_hex_number, push_hex_pair};
use crate::layout::{footprint, hex_column_footprint, LayoutConfig, LayoutMode};
use crate::text::{push_spaces, spaces};
use crate::window::{row_of, rows_needed, ByteWindow, Row, RowView, WindowView};

verus! {

/// The least number of digits in an address.
pub const ADDRESS_DIGITS: usize = 8;

/// The address column: the address in hexadecimal, a colon and a blank;
/// nothing where addresses are switched off.
pub open spec fn address_column(address: nat, show: bool) -> Seq<char> {
    if show {
        hex_number(address, ADDRESS_DIGITS as nat) + seq![':', ' ']
    } else {
        Seq::empty()
    }
}

/// One cell of the hex column: two digits and a blank, and one more blank
/// behind the cell that ends the first half of a grouped row.
pub open spec fn cell_text(cell: (u8, usize), width: nat, group: bool) -> Seq<char> {
    if group && cell.1 + 1 == width / 2 {
        hex_pair(cell.0) + seq![' ', ' ']
    } else {
        hex_pair(cell.0) + seq![' ']
    }
}

/// The hex column: the text of each cell, in the order of the cells.
pub open spec fn hex_column(cells: Seq<(u8, usize)>, width: nat, group: bool) -> Seq<char>
    decreases cells.len(),
{
    if cells.len() == 0 {
        Seq::empty()
    } else {
        hex_column(cells.drop_last(), width, group) + cell_text(cells.last(), width, group)
    }
}

/// The blanks that fill the hex column up to its footprint; none where the
/// column is as long as the footprint or longer.
pub open spec fn hex_padding(hex_len: nat, width: nat, group: bool) -> nat {
    if footprint(width, group) >= hex_len {
        (footprint(width, group) - hex_len) as nat
    } else {
        0
    }
}

/// The ASCII column: the padding of the hex column, then the characters
/// between two bars; nothing where the column is switched off.
pub open spec fn ascii_column(row: RowView, width: nat, group: bool, show: bool) -> Seq<char> {
    if show {
        spaces(hex_padding(hex_column(row.hex_cells, width, group).len(), width, group)) + seq!['|']
            + row.ascii_cells + seq!['|']
    } else {
        Seq::empty()
    }
}

/// The text of a row in structured mode, newline included.
pub open spec fn row_text(row: RowView, config: LayoutConfig) -> Seq<char> {
    address_column(row.address, config.show_address) + hex_column(
        row.hex_cells,
        config.width as nat,
        config.group_mid,
    ) + ascii_column(row, config.width as nat, config.group_mid, config.show_ascii) + seq!['\n']
}

/// The bytes of raw mode: each as two digits and a blank, the last one too.
pub open spec fn raw_cells(bytes: Seq<u8>) -> Seq<char>
    decreases bytes.len(),
{
    if bytes.len() == 0 {
        Seq::empty()
    } else {
        raw_cells(bytes.drop_last()) + hex_pair(bytes.last()) + seq![' ']
    }
}

/// The single line of raw mode, newline included.
pub open spec fn raw_text(bytes: Seq<u8>) -> Seq<char> {
    raw_cells(bytes) + seq!['\n']
}

/// The lines that a window renders to: the one line of raw mode, or one
/// line for each row.
pub open spec fn rendered(window: WindowView, config: LayoutConfig) -> Seq<Seq<char>> {
    match config.mode_of() {
        LayoutMode::Raw => seq![raw_text(window.bytes)],
        LayoutMode::Structured { .. } => Seq::new(
            rows_needed(window.bytes.len(), config.width as nat),
            |i: int| row_text(row_of(window, config.width as nat, i as nat), config),
        ),
    }
}

/// Row count: a rendering has one line in raw mode, and else as many
/// lines as the window has rows.
pub proof fn lemma_line_count(window: WindowView, config: LayoutConfig)
    ensures
        rendered(window, config).len() == if config.raw_mode {
            1
        } else {
            rows_needed(window.bytes.len(), config.width as nat)
        },
{
}

/// Raw mode is independent of the layout: two configurations in raw mode
/// render a window alike, whatever their other flags and their widths.
pub proof fn lemma_raw_mode_ignores_flags(window: WindowView, a: LayoutConfig, b: LayoutConfig)
    requires
        a.raw_mode,
        b.raw_mode,
    ensures
        rendered(window, a) == rendered(window, b),
{
}

/// Renders one row as structured mode lays it out. Of `config`, the width
/// and the three column flags are read; `raw_mode` plays no part.
pub fn render_row(row: &Row, config: &LayoutConfig) -> (line: String)
    requires
        config.wf(),
    ensures
        line@ == row_text(row@, *config),
{
    let mut line = String::new();
    if config.show_address {
        push_hex_number(&mut line, row.address, ADDRESS_DIGITS);
        line.push(':');
        line.push(' ');
    }
    assert(line@ =~= address_column(row@.address, config.show_address));
    let mid = config.width / 2;
    let mut room = hex_column_footprint(config.width, config.group_mid);
    let n = row.hex_cells.len();
    let mut j: usize = 0;
    while j < n
        invariant
            j <= n,
            n == row.hex_cells@.len(),
            mid == config.width / 2,
            line@ == address_column(row@.address, config.show_address) + hex_column(
                row.hex_cells@.take(j as int),
                config.width as nat,
                config.group_mid,
            ),
            room == hex_padding(
                hex_column(row.hex_cells@.take(j as int), config.width as nat, config.group_mid).len(),
                config.width as nat,
                config.group_mid,
            ),
        decreases n - j,
    {
        let cell = row.hex_cells[j];
        let ghost before = line@;
        push_hex_pair(&mut line, cell.0);
        line.push(' ');
        let mut used: usize = 3;
        if config.group_mid && mid >= 1 && cell.1 == mid - 1 {
            line.push(' ');
            used = 4;
        }
        room = if room >= used {
            room - used
        } else {
            0
        };
        proof {
            let cells = row.hex_cells@;
            assert(cells.take(j + 1).drop_last() =~= cells.take(j as int));
            assert(cells.take(j + 1).last() == cell);
            assert(line@ =~= before + cell_text(cell, config.width as nat, config.group_mid));
        }
        j += 1;
    }
    assert(row.hex_cells@.take(n as int) =~= row.hex_cells@);
    if config.show_ascii {
        let ghost before = line@;
        push_spaces(&mut line, room);
        line.push('|');
        let m = row.ascii_cells.len();
        let mut k: usize = 0;
        while k < m
            invariant
                k <= m,
                m == row.ascii_cells@.len(),
                line@ == before + spaces(room as nat) + seq!['|'] + row.ascii_cells@.take(k as int),
            decreases m - k,
        {
            line.push(row.ascii_cells[k]);
            assert(row.ascii_cells@.take(k + 1) =~= row.ascii_cells@.take(k as int).push(
                row.ascii_cells@[k as int],
            ));
            k += 1;
        }
        assert(row.ascii_cells@.take(m as int) =~= row.ascii_cells@);
        line.push('|');
        assert(line@ =~= before + ascii_column(
            row@,
            config.width as nat,
            config.group_mid,
            config.show_ascii,
        ));
    }
    line.push('\n');
    assert(line@ =~= row_text(row@, *config));
    line
}

/// Renders bytes as the single line of raw mode.
pub fn render_raw(bytes: &Vec<u8>) -> (line: String)
    ensures
        line@ == raw_text(bytes@),
{
    let mut line = String::new();
    let n = bytes.len();
    let mut i: usize = 0;
    while i < n
        invariant
            i <= n,
            n == bytes@.len(),
            line@ == raw_cells(bytes@.take(i as int)),
        decreases n - i,
    {
        let ghost before = line@;
        push_hex_pair(&mut line, bytes[i]);
        line.push(' ');
        proof {
            assert(bytes@.take(i + 1).drop_last() =~= bytes@.take(i as int));
            assert(line@ =~= before + hex_pair(bytes@[i as int]) + seq![' ']);
        }
        i += 1;
    }
    assert(bytes@.take(n as int) =~= bytes@);
    line.push('\n');
    line
}

/// Renders a window: one line in raw mode, else one line for each row.
pub fn render(window: &ByteWindow, config: &LayoutConfig) -> (lines: Vec<String>)
    requires
        window.wf(),
        config.wf(),
    ensures
        lines.deep_view() == rendered(window@, *config),
{
    let mut lines: Vec<String> = Vec::new();
    match config.mode() {
        LayoutMode::Raw => {
            lines.push(render_raw(&window.bytes));
            assert(lines.deep_view() =~= rendered(window@, *config));
        },
        LayoutMode::Structured { .. } => {
            let count = window.row_count(config.width);
            let mut i: usize = 0;
            while i < count
                invariant
                    window.wf(),
                    config.wf(),
                    i <= count,
                    count == rows_needed(window.bytes@.len(), config.width as nat),
                    lines@.len() == i,
                    forall|k: int|
                        0 <= k < i ==> (#[trigger] lines@[k])@ == row_text(
                            row_of(window@, config.width as nat, k as nat),
                            *config,
                        ),
                decreases count - i,
            {
                let row = window.row_at(config.width, i);
                lines.push(render_row(&row, config));
                i += 1;
            }
            assert(lines.deep_view() =~= rendered(window@, *config));
        },
    }
    lines
}

} // verus!
