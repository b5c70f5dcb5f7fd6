//! How a window is laid out: the configuration and the width of the hex column.

use vstd::prelude::*;
use crate::error::ErrorKind;

verus! {

/// The layout of a rendering.
#[derive(Clone, Copy, Debug, PartialEq, Eq, Structural)]
pub struct LayoutConfig {
    /// Bytes per row.
    pub width: usize,
    /// Whether each row starts with its address.
    pub show_address: bool,
    /// Whether one more blank follows the first half of a row's cells.
    pub group_mid: bool,
    /// Whether each row ends with its bytes as characters.
    pub show_ascii: bool,
    /// Whether the bytes come as one flat line; overrides the three flags above.
    pub raw_mode: bool,
}

/// What the four flags of a `LayoutConfig` amount to.
#[derive(Clone, Copy, Debug, PartialEq, Eq, Structural)]
pub enum LayoutMode {
    /// One flat line of hex bytes.
    Raw,
    /// Rows with the columns that are switched on.
    Structured { address: bool, group: bool, ascii: bool },
}

/// The number of characters that the hex column of a full row is given:
/// three per cell, and one more where grouping is on and a full row has
/// more than eight cells.
pub open spec fn footprint(width: nat, group: bool) -> nat {
    if group && width > 8 {
        3 * width + 1
    } else {
        3 * width
    }
}

/// Whether the footprint of the hex column can be counted in `usize`.
pub fn footprint_fits(width: usize, group_enabled: bool) -> (fits: bool)
    ensures
        fits == (footprint(width as nat, group_enabled) <= usize::MAX),
{
    if group_enabled && width > 8 {
        width <= (usize::MAX - 1) / 3
    } else {
        width <= usize::MAX / 3
    }
}

/// Computes the footprint of the hex column.
pub fn hex_column_footprint(width: usize, group_enabled: bool) -> (n: usize)
    requires
        footprint(width as nat, group_enabled) <= usize::MAX,
    ensures
        n == footprint(width as nat, group_enabled),
{
    if group_enabled && width > 8 {
        3 * width + 1
    } else {
        3 * width
    }
}

/// The width of a row where none is asked for.
pub const DEFAULT_WIDTH: usize = 16;

impl Default for LayoutConfig {
    /// Sixteen bytes per row with every column switched on.
    fn default() -> (config: LayoutConfig)
        ensures
            config == (LayoutConfig {
                width: DEFAULT_WIDTH,
                show_address: true,
                group_mid: true,
                show_ascii: true,
                raw_mode: false,
            }),
            config.wf(),
    {
        LayoutConfig {
            width: DEFAULT_WIDTH,
            show_address: true,
            group_mid: true,
            show_ascii: true,
            raw_mode: false,
        }
    }
}

impl LayoutConfig {
    /// A row holds at least one byte, and the footprint of its hex column
    /// can be counted in `usize`.
    pub open spec fn wf(&self) -> bool {
        1 <= self.width && footprint(self.width as nat, self.group_mid) <= usize::MAX
    }

    /// The mode that the flags select: `raw_mode` wins over the other three.
    pub open spec fn mode_of(&self) -> LayoutMode {
        if self.raw_mode {
            LayoutMode::Raw
        } else {
            LayoutMode::Structured {
                address: self.show_address,
                group: self.group_mid,
                ascii: self.show_ascii,
            }
        }
    }

    /// Builds a configuration, turning down a width of zero.
    pub fn new(
        width: usize,
        show_address: bool,
        group_mid: bool,
        show_ascii: bool,
        raw_mode: bool,
    ) -> (r: Result<LayoutConfig, ErrorKind>)
        requires
            footprint(width as nat, group_mid) <= usize::MAX,
        ensures
            width == 0 ==> r == Err::<LayoutConfig, ErrorKind>(ErrorKind::InvalidWidth),
            width >= 1 ==> r == Ok::<LayoutConfig, ErrorKind>(
                (LayoutConfig { width, show_address, group_mid, show_ascii, raw_mode }),
            ),
            r is Ok ==> r->Ok_0.wf(),
    {
        if width == 0 {
            Err(ErrorKind::InvalidWidth)
        } else {
            Ok(LayoutConfig { width, show_address, group_mid, show_ascii, raw_mode })
        }
    }

    /// Resolves the flags into a mode.
    pub fn mode(&self) -> (m: LayoutMode)
        ensures
            m == self.mode_of(),
    {
        if self.raw_mode {
            LayoutMode::Raw
        } else {
            LayoutMode::Structured {
                address: self.show_address,
                group: self.group_mid,
                ascii: self.show_ascii,
            }
        }
    }
}

} // verus!
