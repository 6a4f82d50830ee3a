use vstd::prelude::*;

use crate::image::printer::PrinterChooser;

verus! {

/// Where an image stands in the space it is given across.
#[derive(Clone, Copy, Debug, PartialEq, Eq, Structural)]
pub enum HorizontalAlignment {
    Left,
    Right,
    Center,
}

/// Where an image stands in the space it is given upright.
#[derive(Clone, Copy, Debug, PartialEq, Eq, Structural)]
pub enum VerticalAlignment {
    Top,
    Bottom,
    Center,
}

/// How an image is aligned in its space (not applied yet when printing).
#[derive(Clone, Copy, Debug, PartialEq, Eq, Structural)]
pub struct ImageAlignment {
    horizontal: HorizontalAlignment,
    vertical: VerticalAlignment,
}

impl ImageAlignment {
    pub closed spec fn horizontal_spec(&self) -> HorizontalAlignment {
        self.horizontal
    }

    pub closed spec fn vertical_spec(&self) -> VerticalAlignment {
        self.vertical
    }

    pub fn horizontal(&self) -> (r: HorizontalAlignment)
        ensures
            r == self.horizontal_spec(),
    {
        self.horizontal
    }

    pub fn vertical(&self) -> (r: VerticalAlignment)
        ensures
            r == self.vertical_spec(),
    {
        self.vertical
    }
}

impl Default for ImageAlignment {
    /// Centered both ways.
    fn default() -> (r: ImageAlignment)
        ensures
            r.horizontal_spec() == HorizontalAlignment::Center,
            r.vertical_spec() == VerticalAlignment::Center,
    {
        ImageAlignment { horizontal: HorizontalAlignment::Center, vertical: VerticalAlignment::Center }
    }
}

/// How an image is printed: where, how big, with which printer.
#[derive(Clone, Copy, Debug, PartialEq, Eq, Structural)]
pub struct Config {
    /// Columns from the left edge.
    pub x: u16,
    /// Rows from the top edge.
    pub y: u16,
    /// Whether the cursor is put back where it was after printing.
    pub restore_cursor: bool,
    /// Width to fit the image in, in columns.
    pub width: Option<u32>,
    /// Height to fit the image in, in rows.
    pub height: Option<u32>,
    pub printer_chooser: PrinterChooser,
    pub alignment: ImageAlignment,
}

impl Default for Config {
    /// At the top left corner, no bounds, nothing printed, cursor not restored.
    fn default() -> (r: Config)
        ensures
            r.x == 0,
            r.y == 0,
            !r.restore_cursor,
            r.width is None,
            r.height is None,
            r.printer_chooser == PrinterChooser::NoPrinter,
            r.alignment.horizontal_spec() == HorizontalAlignment::Center,
            r.alignment.vertical_spec() == VerticalAlignment::Center,
    {
        Config {
            x: 0,
            y: 0,
            restore_cursor: false,
            width: None,
            height: None,
            printer_chooser: PrinterChooser::NoPrinter,
            alignment: ImageAlignment::default(),
        }
    }
}

} // verus!
