use vstd::prelude::*;

use crate::service::text::{contains_sub, str_contains};

verus! {

/// What the terminal's name tells of sixel support.
#[derive(Clone, Copy, Debug, PartialEq, Eq, Structural)]
pub enum SixelSupport {
    Supported,
    Unsupported,
    /// The terminal has to be asked for its device attributes.
    AskTerminal,
}

/// Sixel support as the terminal's name (`TERM`) and program
/// (`TERM_PROGRAM`) tell it: some terminals always have it, xterm-like ones
/// are asked, any other has it only where the program is MacTerm.
pub open spec fn sixel_support_of(term: Option<Seq<char>>, term_program: Option<Seq<char>>) -> SixelSupport {
    match term {
        None => SixelSupport::Unsupported,
        Some(t) => if t == "mlterm"@ || t == "yaft-256color"@ || t == "foot"@ || t == "foot-extra"@ {
            SixelSupport::Supported
        } else if t == "st-256color"@ || t == "xterm"@ || t == "xterm-256color"@ {
            SixelSupport::AskTerminal
        } else {
            match term_program {
                Some(p) => if p == "MacTerm"@ {
                    SixelSupport::Supported
                } else {
                    SixelSupport::Unsupported
                },
                None => SixelSupport::Unsupported,
            }
        },
    }
}

fn is(a: &String, b: &str) -> (r: bool)
    ensures
        r == (a@ == b@),
{
    *a == String::from_str(b)
}

/// Sixel support as the terminal's name and program tell it.
pub fn check_sixel_support(term: Option<String>, term_program: Option<String>) -> (r: SixelSupport)
    ensures
        r == sixel_support_of(
            match term {
                Some(t) => Some(t@),
                None => None,
            },
            match term_program {
                Some(p) => Some(p@),
                None => None,
            },
        ),
{
    match &term {
        None => SixelSupport::Unsupported,
        Some(t) => {
            if is(t, "mlterm") || is(t, "yaft-256color") || is(t, "foot") || is(t, "foot-extra") {
                SixelSupport::Supported
            } else if is(t, "st-256color") || is(t, "xterm") || is(t, "xterm-256color") {
                SixelSupport::AskTerminal
            } else {
                match &term_program {
                    Some(p) => {
                        if is(p, "MacTerm") {
                            SixelSupport::Supported
                        } else {
                            SixelSupport::Unsupported
                        }
                    },
                    None => SixelSupport::Unsupported,
                }
            }
        },
    }
}

/// Whether the terminal's answer to the device attributes request lists
/// sixel graphics (attribute 4).
pub fn device_attrs_support(response: &str) -> (r: bool)
    ensures
        r == (contains_sub(response@, ";4;"@) || contains_sub(response@, ";4c"@)),
{
    str_contains(response, ";4;") || str_contains(response, ";4c")
}

} // verus!
