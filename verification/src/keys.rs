//! Key symbols shown in the help footer.

use vstd::prelude::*;

verus! {

/// The keyboard symbols the interface names in its help texts.
#[allow(non_camel_case_types)]
#[derive(Debug, Clone, Copy, PartialEq, Eq, Structural)]
pub enum KeySymbols {
    ENTER,
    LEFT,
    RIGHT,
    UP,
    DOWN,
    BACKSPACE,
    HOME,
    END,
    PAGE_UP,
    PAGE_DOWN,
    TAB,
    BACK_TAB,
    DELETE,
    INSERT,
    ESC,
    CONTROL,
    SHIFT,
    ALT,
}

/// The display text of each key symbol.
pub open spec fn spec_symbol(k: KeySymbols) -> Seq<char> {
    match k {
        KeySymbols::ENTER => "\u{23ce}"@,
        KeySymbols::LEFT => "\u{2190}"@,
        KeySymbols::RIGHT => "\u{2192}"@,
        KeySymbols::UP => "\u{2191}"@,
        KeySymbols::DOWN => "\u{2193}"@,
        KeySymbols::BACKSPACE => "\u{232b}"@,
        KeySymbols::HOME => "\u{2912}"@,
        KeySymbols::END => "\u{2913}"@,
        KeySymbols::PAGE_UP => "\u{21de}"@,
        KeySymbols::PAGE_DOWN => "\u{21df}"@,
        KeySymbols::TAB => "\u{21e5}"@,
        KeySymbols::BACK_TAB => "\u{21e4}"@,
        KeySymbols::DELETE => "\u{2326}"@,
        KeySymbols::INSERT => "\u{2380}"@,
        KeySymbols::ESC => "\u{238b}"@,
        KeySymbols::CONTROL => "^"@,
        KeySymbols::SHIFT => "\u{21e7}"@,
        KeySymbols::ALT => "\u{2325}"@,
    }
}

impl KeySymbols {
    /// The arrow or control glyph a help text shows for this key.
    pub fn symbol(&self) -> (r: &'static str)
        ensures
            r@ == spec_symbol(*self),
    {
        match self {
            KeySymbols::ENTER => "\u{23ce}",
            KeySymbols::LEFT => "\u{2190}",
            KeySymbols::RIGHT => "\u{2192}",
            KeySymbols::UP => "\u{2191}",
            KeySymbols::DOWN => "\u{2193}",
            KeySymbols::BACKSPACE => "\u{232b}",
            KeySymbols::HOME => "\u{2912}",
            KeySymbols::END => "\u{2913}",
            KeySymbols::PAGE_UP => "\u{21de}",
            KeySymbols::PAGE_DOWN => "\u{21df}",
            KeySymbols::TAB => "\u{21e5}",
            KeySymbols::BACK_TAB => "\u{21e4}",
            KeySymbols::DELETE => "\u{2326}",
            KeySymbols::INSERT => "\u{2380}",
            KeySymbols::ESC => "\u{238b}",
            KeySymbols::CONTROL => "^",
            KeySymbols::SHIFT => "\u{21e7}",
            KeySymbols::ALT => "\u{2325}",
        }
    }
}

} // verus!
