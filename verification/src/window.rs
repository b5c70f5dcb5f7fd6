//! A window of bytes and its partition into rows.

use vstd::prelude::*;
use vstd::arithmetic::div_mod::*;
use vstd::arithmetic::mul::*;
use crate::error::ErrorKind;

verus! {

/// A contiguous run of bytes together with the absolute offset of the first.
#[derive(Clone, Debug, PartialEq, Eq)]
pub struct ByteWindow {
    /// Absolute offset of `bytes[0]`.
    pub base_offset: u64,
    /// The bytes of the window, in order.
    pub bytes: Vec<u8>,
}

/// The mathematical content of a `ByteWindow`.
pub struct WindowView {
    pub base_offset: nat,
    pub bytes: Seq<u8>,
}

impl View for ByteWindow {
    type V = WindowView;

    open spec fn view(&self) -> WindowView {
        WindowView { base_offset: self.base_offset as nat, bytes: self.bytes@ }
    }
}

/// One rendering unit: a chunk of the window with its address.
#[derive(Clone, Debug, PartialEq, Eq)]
pub struct Row {
    /// Absolute offset of the row's first byte.
    pub address: u64,
    /// The bytes of the row, each with its index in the row.
    pub hex_cells: Vec<(u8, usize)>,
    /// The character shown for each byte.
    pub ascii_cells: Vec<char>,
}

/// The mathematical content of a `Row`.
pub struct RowView {
    pub address: nat,
    pub hex_cells: Seq<(u8, usize)>,
    pub ascii_cells: Seq<char>,
}

impl View for Row {
    type V = RowView;

    open spec fn view(&self) -> RowView {
        RowView {
            address: self.address as nat,
            hex_cells: self.hex_cells@,
            ascii_cells: self.ascii_cells@,
        }
    }
}

/// Each cell carries its position in the row as its index.
pub open spec fn in_order(cells: Seq<(u8, usize)>) -> bool {
    forall|j: int| 0 <= j < cells.len() ==> (#[trigger] cells[j]).1 == j
}

impl RowView {
    /// The row is one that a window gives: its cells are in order, and each
    /// byte has the character that is shown for it.
    pub open spec fn wf(self) -> bool {
        &&& in_order(self.hex_cells)
        &&& self.ascii_cells.len() == self.hex_cells.len()
        &&& forall|j: int|
            0 <= j < self.hex_cells.len() ==> self.ascii_cells[j] == display_char(
                (#[trigger] self.hex_cells[j]).0,
            )
    }
}

/// A graphic ASCII character: visible, and not the blank.
pub open spec fn is_graphic(b: u8) -> bool {
    0x21 <= b <= 0x7E
}

/// An ASCII control character.
pub open spec fn is_control(b: u8) -> bool {
    b < 0x20 || b == 0x7F
}

/// The character shown for a byte in the ASCII column: the byte itself
/// where it is graphic or the blank and no control character, else a dot.
pub open spec fn display_char(b: u8) -> char {
    if (is_graphic(b) || b == 0x20) && !is_control(b) {
        b as char
    } else {
        '.'
    }
}

/// The number of rows that `len` bytes fill at `width` bytes per row.
pub open spec fn rows_needed(len: nat, width: nat) -> nat {
    if width == 0 {
        0
    } else {
        ((len + width - 1) / (width as int)) as nat
    }
}

/// The number of bytes in row `index`: `width`, but for a shorter last row.
pub open spec fn row_len(len: nat, width: nat, index: nat) -> nat {
    if (index + 1) * width <= len {
        width
    } else if index * width <= len {
        (len - index * width) as nat
    } else {
        0
    }
}

/// Row `index` of a window that is cut into rows of `width` bytes.
pub open spec fn row_of(window: WindowView, width: nat, index: nat) -> RowView {
    let start = index * width;
    let n = row_len(window.bytes.len(), width, index);
    RowView {
        address: window.base_offset + start,
        hex_cells: Seq::new(n, |j: int| (window.bytes[start + j], j as usize)),
        ascii_cells: Seq::new(n, |j: int| display_char(window.bytes[start + j])),
    }
}

/// What an in-memory source hands out from `offset` on: the `number` bytes
/// asked for, or a short read where fewer are left; all that is left where
/// no number is given. Nothing is left behind the end of the source.
pub open spec fn source_range(source: Seq<u8>, offset: nat, number: Option<usize>) -> Result<
    Seq<u8>,
    ErrorKind,
> {
    let rest = if offset <= source.len() {
        source.skip(offset as int)
    } else {
        Seq::empty()
    };
    match number {
        None => Ok(rest),
        Some(n) => if n <= rest.len() {
            Ok(rest.take(n as int))
        } else {
            Err(ErrorKind::ShortRead)
        },
    }
}

/// Computes the character shown for a byte.
pub fn display_char_of(b: u8) -> (c: char)
    ensures
        c == display_char(b),
{
    if 0x20 <= b && b <= 0x7E {
        b as char
    } else {
        '.'
    }
}

impl ByteWindow {
    /// Every byte of the window has an offset that fits in `u64`.
    pub open spec fn wf(&self) -> bool {
        self.base_offset + self.bytes@.len() <= u64::MAX + 1
    }

    /// Pairs bytes with the offset of the first; `None` where the last
    /// byte's offset would not fit in `u64`.
    pub fn new(base_offset: u64, bytes: Vec<u8>) -> (r: Option<ByteWindow>)
        ensures
            match r {
                Some(w) => w.wf() && w.base_offset == base_offset && w.bytes == bytes,
                None => base_offset + bytes@.len() > u64::MAX + 1,
            },
    {
        let len = bytes.len();
        if len == 0 || (len - 1) as u64 <= u64::MAX - base_offset {
            Some(ByteWindow { base_offset, bytes })
        } else {
            None
        }
    }

    /// Reads a window from an in-memory source: `number` bytes from `offset`
    /// on, or all that is left where no number is given.
    pub fn from_source(source: &Vec<u8>, offset: u64, number: Option<usize>) -> (r: Result<
        ByteWindow,
        ErrorKind,
    >)
        ensures
            match source_range(source@, offset as nat, number) {
                Ok(bytes) => r is Ok && r->Ok_0.wf() && r->Ok_0@ == (WindowView {
                    base_offset: offset as nat,
                    bytes,
                }),
                Err(e) => r == Err::<ByteWindow, ErrorKind>(e),
            },
    {
        let len = source.len();
        let start = if offset <= len as u64 {
            offset as usize
        } else {
            len
        };
        let end = match number {
            None => len,
            Some(n) => {
                if n > len - start {
                    return Err(ErrorKind::ShortRead);
                }
                start + n
            },
        };
        let mut bytes: Vec<u8> = Vec::new();
        let mut i = start;
        while i < end
            invariant
                start <= i <= end <= len,
                len == source@.len(),
                bytes@ == source@.subrange(start as int, i as int),
            decreases end - i,
        {
            bytes.push(source[i]);
            assert(source@.subrange(start as int, i + 1) =~= source@.subrange(
                start as int,
                i as int,
            ).push(source@[i as int]));
            i += 1;
        }
        proof {
            let rest = if offset <= source@.len() {
                source@.skip(offset as int)
            } else {
                Seq::<u8>::empty()
            };
            assert(rest =~= source@.subrange(start as int, len as int));
            assert(source_range(source@, offset as nat, number) == Ok::<Seq<u8>, ErrorKind>(
                bytes@,
            )) by {
                match number {
                    None => {},
                    Some(n) => {
                        assert(rest.take(n as int) =~= bytes@);
                    },
                }
            }
        }
        Ok(ByteWindow { base_offset: offset, bytes })
    }

    /// The number of rows that the window fills at `width` bytes per row.
    pub fn row_count(&self, width: usize) -> (n: usize)
        requires
            width >= 1,
        ensures
            n == rows_needed(self.bytes@.len(), width as nat),
    {
        let len = self.bytes.len();
        let full = len / width;
        proof {
            lemma_rows_needed(len as nat, width as nat);
            lemma_fundamental_div_mod(len as int, width as int);
            assert(full <= width * full) by (nonlinear_arith)
                requires
                    width >= 1,
                    full >= 0,
            ;
        }
        if len % width == 0 {
            full
        } else {
            full + 1
        }
    }

    /// Row `index` of the window at `width` bytes per row, if there is one.
    pub fn row(&self, width: usize, index: usize) -> (r: Option<Row>)
        requires
            self.wf(),
            width >= 1,
        ensures
            match r {
                Some(row) => index < rows_needed(self.bytes@.len(), width as nat) && row@ == row_of(
                    self@,
                    width as nat,
                    index as nat,
                ) && row@.wf(),
                None => index >= rows_needed(self.bytes@.len(), width as nat),
            },
    {
        if index < self.row_count(width) {
            Some(self.row_at(width, index))
        } else {
            None
        }
    }

    /// Row `index` of the window, for an index below the number of rows.
    pub fn row_at(&self, width: usize, index: usize) -> (row: Row)
        requires
            self.wf(),
            width >= 1,
            index < rows_needed(self.bytes@.len(), width as nat),
        ensures
            row@ == row_of(self@, width as nat, index as nat),
            row@.wf(),
    {
        let len = self.bytes.len();
        proof {
            lemma_row_bounds(len as nat, width as nat, index as nat);
            lemma_row_wf(self@, width as nat, index as nat);
        }
        let start = index * width;
        let n = if len - start >= width {
            width
        } else {
            len - start
        };
        let mut hex_cells: Vec<(u8, usize)> = Vec::new();
        let mut ascii_cells: Vec<char> = Vec::new();
        let mut j: usize = 0;
        while j < n
            invariant
                j <= n,
                start + n <= len,
                len == self.bytes@.len(),
                hex_cells@ == Seq::new(j as nat, |k: int| (self.bytes@[start + k], k as usize)),
                ascii_cells@ == Seq::new(j as nat, |k: int| display_char(self.bytes@[start + k])),
            decreases n - j,
        {
            let b = self.bytes[start + j];
            hex_cells.push((b, j));
            ascii_cells.push(display_char_of(b));
            j += 1;
        }
        let row = Row { address: self.base_offset + start as u64, hex_cells, ascii_cells };
        assert(row@ == row_of(self@, width as nat, index as nat));
        row
    }

    /// All rows of the window at `width` bytes per row, in order.
    pub fn rows(&self, width: usize) -> (rows: Vec<Row>)
        requires
            self.wf(),
            width >= 1,
        ensures
            rows@.len() == rows_needed(self.bytes@.len(), width as nat),
            forall|i: int|
                0 <= i < rows@.len() ==> (#[trigger] rows@[i])@ == row_of(
                    self@,
                    width as nat,
                    i as nat,
                ) && rows@[i]@.wf(),
    {
        let count = self.row_count(width);
        let mut rows: Vec<Row> = Vec::new();
        let mut i: usize = 0;
        while i < count
            invariant
                self.wf(),
                width >= 1,
                i <= count,
                count == rows_needed(self.bytes@.len(), width as nat),
                rows@.len() == i,
                forall|k: int|
                    0 <= k < i ==> (#[trigger] rows@[k])@ == row_of(self@, width as nat, k as nat)
                        && rows@[k]@.wf(),
            decreases count - i,
        {
            rows.push(self.row_at(width, i));
            i += 1;
        }
        rows
    }
}

/// `rows_needed` is the quotient, and one more where a remainder is left.
pub proof fn lemma_rows_needed(len: nat, width: nat)
    requires
        width >= 1,
    ensures
        rows_needed(len, width) == if len % width == 0 {
            len / width
        } else {
            len / width + 1
        },
{
    let w = width as int;
    let q = len as int / w;
    let r = len as int % w;
    lemma_fundamental_div_mod(len as int, w);
    assert(len == w * q + r);
    lemma_mod_bound(len as int, w);
    if r == 0 {
        // len + w - 1 == w * q + (w - 1)
        lemma_fundamental_div_mod_converse(len + w - 1, w, q, w - 1);
    } else {
        // len + w - 1 == w * (q + 1) + (r - 1)
        lemma_mul_is_distributive_add(w, q, 1);
        lemma_fundamental_div_mod_converse(len + w - 1, w, q + 1, r - 1);
    }
}

/// The number of rows is the ceiling of `len / width`: no row for an empty
/// window, and else the least count whose rows hold every byte.
pub proof fn lemma_row_count_is_ceiling(len: nat, width: nat)
    requires
        width >= 1,
    ensures
        len == 0 <==> rows_needed(len, width) == 0,
        rows_needed(len, width) * width >= len,
        len > 0 ==> (rows_needed(len, width) - 1) * width < len,
{
    lemma_rows_needed(len, width);
    lemma_fundamental_div_mod(len as int, width as int);
    lemma_mod_bound(len as int, width as int);
    let q = len as int / (width as int);
    let r = len as int % (width as int);
    let count = rows_needed(len, width);
    assert(count * width >= len && (len > 0 ==> (count - 1) * width < len) && (count == 0 ==> len
        == 0)) by (nonlinear_arith)
        requires
            width >= 1,
            len == width * q + r,
            0 <= r < width,
            q >= 0,
            count == if r == 0 {
                q
            } else {
                q + 1
            },
    ;
}

/// The rows of a window are well formed: they carry their cells in order,
/// as many as the row is long, with the character shown for each.
pub proof fn lemma_row_wf(window: WindowView, width: nat, index: nat)
    requires
        width <= usize::MAX,
    ensures
        row_of(window, width, index).wf(),
        row_of(window, width, index).hex_cells.len() == row_len(window.bytes.len(), width, index),
{
    assert((index + 1) * width == index * width + width) by (nonlinear_arith);
    assert(row_len(window.bytes.len(), width, index) <= width);
}

/// A row below the row count starts inside the window and is not empty.
pub proof fn lemma_row_bounds(len: nat, width: nat, index: nat)
    requires
        width >= 1,
        index < rows_needed(len, width),
    ensures
        index * width < len,
        1 <= row_len(len, width, index) <= width,
        index * width + row_len(len, width, index) <= len,
{
    lemma_rows_needed(len, width);
    lemma_fundamental_div_mod(len as int, width as int);
    lemma_mod_bound(len as int, width as int);
    let q = len as int / (width as int);
    assert(index * width < len && (index < q ==> (index + 1) * width <= len)) by (nonlinear_arith)
        requires
            width >= 1,
            len == width * q + (len as int % (width as int)),
            0 <= len as int % (width as int) < width,
            index < q || (index == q && len as int % (width as int) != 0),
    ;
    assert(index * width + width == (index + 1) * width) by (nonlinear_arith);
}

} // verus!
