//! The layout of the help table: how wide its columns are and where a cell
//! that does not fit its column is broken onto a second line.

use vstd::prelude::*;

verus! {

/// The width of the key column, in terminal cells.
pub const KEY_WIDTH: u16 = 10;

/// The share of the remaining width that the command names get, in percent.
pub const NAME_PERC: u16 = 30;

/// The share of the remaining width that the descriptions get, in percent.
pub const DESCRIPTION_PERC: u16 = 70;

/// How far in front of the column's edge a description is broken.
pub const DESCRIPTION_MARGIN: u16 = 7;

/// The widths of the name column and of the description column in a table that
/// is `area_width` cells wide: their shares of what the key column leaves.
pub fn column_widths(area_width: u16) -> (widths: (u16, u16))
    requires
        KEY_WIDTH <= area_width,
        (area_width - KEY_WIDTH) * DESCRIPTION_PERC <= u16::MAX,
    ensures
        widths.0 == (area_width - KEY_WIDTH) * NAME_PERC / 100,
        widths.1 == (area_width - KEY_WIDTH) * DESCRIPTION_PERC / 100,
{
    let rest: u16 = area_width - KEY_WIDTH;
    (rest * NAME_PERC / 100, rest * DESCRIPTION_PERC / 100)
}

/// How one row of the help table is laid out.
#[derive(Clone, Copy, Debug, PartialEq, Eq, Structural)]
pub struct RowLayout {
    /// The number of lines the row takes.
    pub height: u16,
    /// The byte offset at which the command name gets a line break, if it does.
    pub name_break: Option<usize>,
    /// The byte offset at which the description gets a line break, if it does.
    pub description_break: Option<usize>,
}

/// Where a command name of `name_len` bytes is broken in a column of
/// `name_width` cells: at the column's edge, if the name is longer than that.
/// The length counts as the table's arithmetic sees it, in sixteen bits.
pub open spec fn name_break_at(name_len: usize, name_width: u16) -> Option<usize> {
    if name_len as u16 > name_width {
        Some(name_width as usize)
    } else {
        None
    }
}

/// Where a description of `description_len` bytes is broken in a column of
/// `description_width` cells: the margin in front of the column's edge, if the
/// description is longer than the column is wide.
pub open spec fn description_break_at(description_len: usize, description_width: u16) -> Option<
    usize,
> {
    if description_len as u16 > description_width {
        Some((description_width - DESCRIPTION_MARGIN) as usize)
    } else {
        None
    }
}

/// Lays out the row of a command whose name and description are `name_len`
/// and `description_len` bytes long. The row takes two lines if either cell is
/// broken and one line otherwise.
pub fn row_layout(
    name_len: usize,
    description_len: usize,
    name_width: u16,
    description_width: u16,
) -> (layout: RowLayout)
    requires
        description_len as u16 > description_width ==> description_width >= DESCRIPTION_MARGIN,
    ensures
        layout.name_break == name_break_at(name_len, name_width),
        layout.description_break == description_break_at(description_len, description_width),
        layout.height == if layout.name_break is Some || layout.description_break is Some {
            2u16
        } else {
            1u16
        },
{
    let mut height: u16 = 1;
    let mut name_break: Option<usize> = None;
    let mut description_break: Option<usize> = None;
    if #[verifier::truncate] (name_len as u16) > name_width {
        height = 2;
        name_break = Some(name_width as usize);
    }
    if #[verifier::truncate] (description_len as u16) > description_width {
        height = 2;
        description_break = Some((description_width - DESCRIPTION_MARGIN) as usize);
    }
    RowLayout { height, name_break, description_break }
}

} // verus!
