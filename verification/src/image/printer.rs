use vstd::prelude::*;

use crate::image::block::BlockOp;

verus! {

/// Which printer prints images.
#[derive(Clone, Copy, Debug, PartialEq, Eq, Structural)]
pub enum PrinterChooser {
    /// Half blocks in true colour.
    Block,
    /// Half blocks in the 256-colour palette.
    Ansi256,
    /// Half blocks, in true colour where the terminal shows it.
    Default,
    /// Nothing is printed.
    NoPrinter,
}

impl Default for PrinterChooser {
    fn default() -> (r: PrinterChooser)
        ensures
            r == PrinterChooser::NoPrinter,
    {
        PrinterChooser::NoPrinter
    }
}

/// The printer an image gets.
#[derive(Clone, Copy, Debug, PartialEq, Eq, Structural)]
pub enum PrinterKind {
    /// Half blocks, in true colour or the palette.
    Block { truecolor: bool },
    /// Nothing.
    Nothing,
}

/// The printer `c` chooses, given whether the terminal shows true colour.
pub open spec fn chosen_printer(c: PrinterChooser, truecolor_available: bool) -> PrinterKind {
    match c {
        PrinterChooser::Block => PrinterKind::Block { truecolor: true },
        PrinterChooser::Ansi256 => PrinterKind::Block { truecolor: false },
        PrinterChooser::Default => PrinterKind::Block { truecolor: truecolor_available },
        PrinterChooser::NoPrinter => PrinterKind::Nothing,
    }
}

impl PrinterChooser {
    /// The printer chosen, given whether the terminal shows true colour.
    pub fn printer(&self, truecolor_available: bool) -> (r: PrinterKind)
        ensures
            r == chosen_printer(*self, truecolor_available),
    {
        match self {
            PrinterChooser::Block => PrinterKind::Block { truecolor: true },
            PrinterChooser::Ansi256 => PrinterKind::Block { truecolor: false },
            PrinterChooser::Default => PrinterKind::Block { truecolor: truecolor_available },
            PrinterChooser::NoPrinter => PrinterKind::Nothing,
        }
    }
}

/// What printing an image comes to: the steps that draw it (none for the
/// printer that prints nothing).
#[derive(Debug)]
pub struct Printer {
    pub ops: Vec<BlockOp>,
}

impl Printer {
    pub fn new(ops: Vec<BlockOp>) -> (r: Printer)
        ensures
            r.ops@ == ops@,
    {
        Printer { ops }
    }
}

impl Default for Printer {
    /// The printer that prints nothing.
    fn default() -> (r: Printer)
        ensures
            r.ops@.len() == 0,
    {
        Printer { ops: Vec::new() }
    }
}

} // verus!
