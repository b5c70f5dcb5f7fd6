//! The command line as values, and the job that it asks for.

use vstd::prelude::*;
use crate::error::ErrorKind;
use crate::layout::{footprint, footprint_fits, LayoutConfig};
use crate::patch::PatchRequest;

verus! {

/// The parsed command line.
#[derive(Clone, Debug, PartialEq, Eq)]
pub struct Args {
    pub command: ArgCommand,
}

/// The two commands.
#[derive(Clone, Debug, PartialEq, Eq)]
pub enum ArgCommand {
    /// Prints the hexadecimal representation of a file.
    View {
        /// Path of the file to show.
        file: String,
        /// Offset in the file at which the view starts.
        offset: u64,
        /// Number of bytes to show from `offset` on; all that is left if absent.
        number: Option<usize>,
        /// Number of bytes per row.
        width: usize,
        /// No extra blank between the two halves of a row.
        no_group: bool,
        /// No address column.
        no_addr: bool,
        /// No ASCII column.
        no_ascii: bool,
        /// One flat line of hex bytes.
        raw: bool,
    },
    /// Writes bytes at an offset into a file.
    SetBytes {
        /// Path of the file to patch.
        file: String,
        /// The bytes to write.
        bytes: Vec<u8>,
        /// Offset in the file at which the first byte is written.
        offset: u64,
    },
}

/// What is to be done, with parameters that the renderer and the patcher
/// accept.
#[derive(Clone, Debug, PartialEq, Eq)]
pub enum Job {
    /// Render `number` bytes of `file` from `offset` on in `layout`.
    Render { file: String, offset: u64, number: Option<usize>, layout: LayoutConfig },
    /// Carry out `request` on `file`.
    Patch { file: String, request: PatchRequest },
}

impl ArgCommand {
    /// What the argument parser has seen to: a `SetBytes` carries at least one
    /// byte. And the footprint of a row of `View` can be counted in `usize`.
    pub open spec fn wf(&self) -> bool {
        match *self {
            ArgCommand::View { width, no_group, .. } => footprint(width as nat, !no_group)
                <= usize::MAX,
            ArgCommand::SetBytes { bytes, .. } => bytes@.len() > 0,
        }
    }

    /// Whether the command is well formed.
    pub fn accepted(&self) -> (b: bool)
        ensures
            b == self.wf(),
    {
        match self {
            ArgCommand::View { width, no_group, .. } => footprint_fits(*width, !*no_group),
            ArgCommand::SetBytes { bytes, .. } => bytes.len() > 0,
        }
    }

    /// The job that the command asks for: a view of width zero is turned
    /// down, each `no_` flag switches its column off, and `raw` is handed on.
    pub open spec fn job_of(self) -> Result<Job, ErrorKind> {
        match self {
            ArgCommand::View { file, offset, number, width, no_group, no_addr, no_ascii, raw } => {
                if width == 0 {
                    Err(ErrorKind::InvalidWidth)
                } else {
                    Ok(
                        Job::Render {
                            file,
                            offset,
                            number,
                            layout: LayoutConfig {
                                width,
                                show_address: !no_addr,
                                group_mid: !no_group,
                                show_ascii: !no_ascii,
                                raw_mode: raw,
                            },
                        },
                    )
                }
            },
            ArgCommand::SetBytes { file, bytes, offset } => Ok(
                Job::Patch { file, request: PatchRequest { offset, payload: bytes } },
            ),
        }
    }
}

impl Args {
    /// Turns the command line into a job with parameters that the renderer
    /// and the patcher accept.
    pub fn job(self) -> (r: Result<Job, ErrorKind>)
        requires
            self.command.wf(),
        ensures
            r == self.command.job_of(),
            r matches Ok(Job::Render { layout, .. }) ==> layout.wf(),
            r matches Ok(Job::Patch { request, .. }) ==> request.wf(),
    {
        match self.command {
            ArgCommand::View { file, offset, number, width, no_group, no_addr, no_ascii, raw } => {
                match LayoutConfig::new(width, !no_addr, !no_group, !no_ascii, raw) {
                    Ok(layout) => Ok(Job::Render { file, offset, number, layout }),
                    Err(e) => Err(e),
                }
            },
            ArgCommand::SetBytes { file, bytes, offset } => Ok(
                Job::Patch { file, request: PatchRequest { offset, payload: bytes } },
            ),
        }
    }
}

} // verus!
