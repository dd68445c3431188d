//! Visual styling: a restrained palette that also works without colour, as
//! plain colours and text styles for the drawing code to apply.
use vstd::prelude::*;
use crate::storage::Theme as ConfigTheme;

verus! {

/// The terminal colours the interface uses.
#[derive(Debug, Clone, Copy, PartialEq, Eq, Structural)]
pub enum Colour {
    White,
    DarkGray,
    Gray,
    Blue,
    Red,
    Green,
    Cyan,
    Yellow,
}

/// How a piece of text is drawn: its foreground colour, if any, bold and
/// reversed.
#[derive(Debug, Clone, Copy, PartialEq, Eq, Structural)]
pub struct TextStyle {
    pub fg: Option<Colour>,
    pub bold: bool,
    pub reversed: bool,
}

/// The colours of a configured theme; a monochrome theme marks by reversing.
#[derive(Debug, Clone, Copy, PartialEq, Eq, Structural)]
pub struct Theme {
    pub accent: Colour,
    pub dim: Colour,
    pub changed: Colour,
    pub error: Colour,
    pub current: Colour,
    pub monochrome: bool,
}

impl Theme {
    pub fn from_config(t: ConfigTheme) -> (r: Theme)
        ensures
            r == match t {
                ConfigTheme::Monochrome => Theme {
                    accent: Colour::White,
                    dim: Colour::DarkGray,
                    changed: Colour::White,
                    error: Colour::White,
                    current: Colour::White,
                    monochrome: true,
                },
                ConfigTheme::Light => Theme {
                    accent: Colour::Blue,
                    dim: Colour::Gray,
                    changed: Colour::Red,
                    error: Colour::Red,
                    current: Colour::Green,
                    monochrome: false,
                },
                ConfigTheme::Dark => Theme {
                    accent: Colour::Cyan,
                    dim: Colour::DarkGray,
                    changed: Colour::Yellow,
                    error: Colour::Red,
                    current: Colour::Green,
                    monochrome: false,
                },
            },
    {
        match t {
            ConfigTheme::Monochrome => Theme {
                accent: Colour::White,
                dim: Colour::DarkGray,
                changed: Colour::White,
                error: Colour::White,
                current: Colour::White,
                monochrome: true,
            },
            ConfigTheme::Light => Theme {
                accent: Colour::Blue,
                dim: Colour::Gray,
                changed: Colour::Red,
                error: Colour::Red,
                current: Colour::Green,
                monochrome: false,
            },
            ConfigTheme::Dark => Theme {
                accent: Colour::Cyan,
                dim: Colour::DarkGray,
                changed: Colour::Yellow,
                error: Colour::Red,
                current: Colour::Green,
                monochrome: false,
            },
        }
    }

    /// A panel title: bold, in the accent colour when focused, else dim.
    pub fn title(&self, focused: bool) -> (s: TextStyle)
        ensures
            s == (TextStyle { fg: Some(if focused { self.accent } else { self.dim }), bold: true, reversed: false }),
    {
        TextStyle { fg: Some(if focused { self.accent } else { self.dim }), bold: true, reversed: false }
    }

    /// A changed value: reversed when monochrome, else bold in the change colour.
    pub fn changed(&self) -> (s: TextStyle)
        ensures
            s == (if self.monochrome {
                TextStyle { fg: None, bold: false, reversed: true }
            } else {
                TextStyle { fg: Some(self.changed), bold: true, reversed: false }
            }),
    {
        if self.monochrome {
            TextStyle { fg: None, bold: false, reversed: true }
        } else {
            TextStyle { fg: Some(self.changed), bold: true, reversed: false }
        }
    }

    /// The current line: reversed when monochrome, else bold in the current colour.
    pub fn current_line(&self) -> (s: TextStyle)
        ensures
            s == (if self.monochrome {
                TextStyle { fg: None, bold: false, reversed: true }
            } else {
                TextStyle { fg: Some(self.current), bold: true, reversed: false }
            }),
    {
        if self.monochrome {
            TextStyle { fg: None, bold: false, reversed: true }
        } else {
            TextStyle { fg: Some(self.current), bold: true, reversed: false }
        }
    }

    pub fn dim(&self) -> (s: TextStyle)
        ensures
            s == (TextStyle { fg: Some(self.dim), bold: false, reversed: false }),
    {
        TextStyle { fg: Some(self.dim), bold: false, reversed: false }
    }

    pub fn error(&self) -> (s: TextStyle)
        ensures
            s == (TextStyle { fg: Some(self.error), bold: true, reversed: false }),
    {
        TextStyle { fg: Some(self.error), bold: true, reversed: false }
    }
}

} // verus!
