//! Colours, text modifiers and styles, and what a terminal is told to show them.

use vstd::prelude::*;

verus! {

/// A colour of a cell.
#[derive(Debug, Clone, Copy, PartialEq, Eq, Hash, Structural)]
pub enum Color {
    Reset,
    Black,
    Red,
    Green,
    Yellow,
    Blue,
    Magenta,
    Cyan,
    Gray,
    DarkGray,
    LightRed,
    LightGreen,
    LightYellow,
    LightBlue,
    LightMagenta,
    LightCyan,
    White,
    Rgb(u8, u8, u8),
    Indexed(u8),
}

/// A colour as a terminal command names it: the plain eight are the dark ones.
#[derive(Debug, Clone, Copy, PartialEq, Eq, Hash, Structural)]
pub enum TermColor {
    Reset,
    Black,
    DarkGrey,
    Red,
    DarkRed,
    Green,
    DarkGreen,
    Yellow,
    DarkYellow,
    Blue,
    DarkBlue,
    Magenta,
    DarkMagenta,
    Cyan,
    DarkCyan,
    White,
    Grey,
    Rgb { r: u8, g: u8, b: u8 },
    AnsiValue(u8),
}

/// The terminal's name of a colour.
pub open spec fn term_color(color: Color) -> TermColor {
    match color {
        Color::Reset => TermColor::Reset,
        Color::Black => TermColor::Black,
        Color::Red => TermColor::DarkRed,
        Color::Green => TermColor::DarkGreen,
        Color::Yellow => TermColor::DarkYellow,
        Color::Blue => TermColor::DarkBlue,
        Color::Magenta => TermColor::DarkMagenta,
        Color::Cyan => TermColor::DarkCyan,
        Color::Gray => TermColor::Grey,
        Color::DarkGray => TermColor::DarkGrey,
        Color::LightRed => TermColor::Red,
        Color::LightGreen => TermColor::Green,
        Color::LightYellow => TermColor::Yellow,
        Color::LightBlue => TermColor::Blue,
        Color::LightMagenta => TermColor::Magenta,
        Color::LightCyan => TermColor::Cyan,
        Color::White => TermColor::White,
        Color::Rgb(r, g, b) => TermColor::Rgb { r, g, b },
        Color::Indexed(index) => TermColor::AnsiValue(index),
    }
}

/// The terminal's name of a colour.
pub fn color_to_crossterm(color: Color) -> (r: TermColor)
    ensures
        r == term_color(color),
{
    match color {
        Color::Reset => TermColor::Reset,
        Color::Black => TermColor::Black,
        Color::Red => TermColor::DarkRed,
        Color::Green => TermColor::DarkGreen,
        Color::Yellow => TermColor::DarkYellow,
        Color::Blue => TermColor::DarkBlue,
        Color::Magenta => TermColor::DarkMagenta,
        Color::Cyan => TermColor::DarkCyan,
        Color::Gray => TermColor::Grey,
        Color::DarkGray => TermColor::DarkGrey,
        Color::LightRed => TermColor::Red,
        Color::LightGreen => TermColor::Green,
        Color::LightYellow => TermColor::Yellow,
        Color::LightBlue => TermColor::Blue,
        Color::LightMagenta => TermColor::Magenta,
        Color::LightCyan => TermColor::Cyan,
        Color::White => TermColor::White,
        Color::Rgb(r, g, b) => TermColor::Rgb { r, g, b },
        Color::Indexed(index) => TermColor::AnsiValue(index),
    }
}

/// Two colours have the same terminal name only if they are the same colour.
pub proof fn law_term_color_is_injective(a: Color, b: Color)
    requires
        term_color(a) == term_color(b),
    ensures
        a == b,
{
}

/// The number of a colour in the palette of 256, if it is one of them. The named ones are the first
/// sixteen: eight dark ones from black to gray, and eight light ones from dark gray to white.
pub open spec fn palette_number(color: Color) -> Option<int> {
    match color {
        Color::Black => Some(0),
        Color::Red => Some(1),
        Color::Green => Some(2),
        Color::Yellow => Some(3),
        Color::Blue => Some(4),
        Color::Magenta => Some(5),
        Color::Cyan => Some(6),
        Color::Gray => Some(7),
        Color::DarkGray => Some(8),
        Color::LightRed => Some(9),
        Color::LightGreen => Some(10),
        Color::LightYellow => Some(11),
        Color::LightBlue => Some(12),
        Color::LightMagenta => Some(13),
        Color::LightCyan => Some(14),
        Color::White => Some(15),
        Color::Indexed(index) => Some(index as int),
        Color::Reset => None,
        Color::Rgb(..) => None,
    }
}

/// The number that a terminal command shows a colour by, if it is one of the palette of 256.
pub open spec fn ansi_number(color: TermColor) -> Option<int> {
    match color {
        TermColor::Black => Some(0),
        TermColor::DarkRed => Some(1),
        TermColor::DarkGreen => Some(2),
        TermColor::DarkYellow => Some(3),
        TermColor::DarkBlue => Some(4),
        TermColor::DarkMagenta => Some(5),
        TermColor::DarkCyan => Some(6),
        TermColor::Grey => Some(7),
        TermColor::DarkGrey => Some(8),
        TermColor::Red => Some(9),
        TermColor::Green => Some(10),
        TermColor::Yellow => Some(11),
        TermColor::Blue => Some(12),
        TermColor::Magenta => Some(13),
        TermColor::Cyan => Some(14),
        TermColor::White => Some(15),
        TermColor::AnsiValue(index) => Some(index as int),
        TermColor::Reset => None,
        TermColor::Rgb { .. } => None,
    }
}

/// A colour keeps its number in the palette when it is named for a terminal, one by its parts keeps
/// them, and the terminal's own colour stays that.
pub proof fn law_colors_keep_their_numbers(color: Color)
    ensures
        ansi_number(term_color(color)) == palette_number(color),
        color is Indexed <==> term_color(color) is AnsiValue,
        color is Reset <==> term_color(color) is Reset,
        color matches Color::Rgb(r, g, b) ==> term_color(color) == (TermColor::Rgb { r, g, b }),
{
}

/// A set of text modifiers, one bit each.
#[derive(Debug, Clone, Copy, PartialEq, Eq, Hash, Structural)]
pub struct Modifier {
    pub bits: u16,
}

pub const BOLD: u16 = 0x001;

pub const DIM: u16 = 0x002;

pub const ITALIC: u16 = 0x004;

pub const UNDERLINED: u16 = 0x008;

pub const SLOW_BLINK: u16 = 0x010;

pub const RAPID_BLINK: u16 = 0x020;

pub const REVERSED: u16 = 0x040;

pub const CROSSED_OUT: u16 = 0x100;

impl Modifier {
    /// No modifier.
    pub open spec fn spec_empty() -> Modifier {
        Modifier { bits: 0 }
    }

    /// No modifier.
    #[verifier::when_used_as_spec(spec_empty)]
    pub fn empty() -> (r: Modifier)
        ensures
            r == Modifier::spec_empty(),
    {
        Modifier { bits: 0 }
    }

    /// Whether the modifier with the bit `flag` is in the set.
    pub open spec fn spec_contains(self, flag: u16) -> bool {
        self.bits & flag == flag
    }

    /// Whether the modifier with the bit `flag` is in the set.
    #[verifier::when_used_as_spec(spec_contains)]
    pub fn contains(self, flag: u16) -> (r: bool)
        ensures
            r == self.spec_contains(flag),
    {
        self.bits & flag == flag
    }

    /// The modifiers of the set that are not in `other`.
    pub open spec fn spec_difference(self, other: Modifier) -> Modifier {
        Modifier { bits: self.bits & !other.bits }
    }

    /// The modifiers of the set that are not in `other`.
    #[verifier::when_used_as_spec(spec_difference)]
    pub fn difference(self, other: Modifier) -> (r: Modifier)
        ensures
            r == self.spec_difference(other),
    {
        Modifier { bits: self.bits & !other.bits }
    }

    /// The modifiers of either set.
    pub open spec fn spec_union(self, other: Modifier) -> Modifier {
        Modifier { bits: self.bits | other.bits }
    }

    /// The modifiers of either set.
    #[verifier::when_used_as_spec(spec_union)]
    pub fn union(self, other: Modifier) -> (r: Modifier)
        ensures
            r == self.spec_union(other),
    {
        Modifier { bits: self.bits | other.bits }
    }
}

/// Whether a bit is that of one modifier.
pub open spec fn is_flag(flag: u16) -> bool {
    exists|n: u16| n < 16 && flag == #[trigger] (1u16 << n)
}

/// The modifiers are told apart: each has a bit of its own, counted from the lowest.
pub proof fn law_modifiers_have_bits_of_their_own()
    ensures
        BOLD == 1u16 << 0u16,
        DIM == 1u16 << 1u16,
        ITALIC == 1u16 << 2u16,
        UNDERLINED == 1u16 << 3u16,
        SLOW_BLINK == 1u16 << 4u16,
        RAPID_BLINK == 1u16 << 5u16,
        REVERSED == 1u16 << 6u16,
        CROSSED_OUT == 1u16 << 8u16,
{
    assert(1u16 << 0u16 == 0x001 && 1u16 << 1u16 == 0x002 && 1u16 << 2u16 == 0x004 && 1u16 << 3u16
        == 0x008 && 1u16 << 4u16 == 0x010 && 1u16 << 5u16 == 0x020 && 1u16 << 6u16 == 0x040
        && 1u16 << 8u16 == 0x100) by (bit_vector);
}

/// A modifier is in the union of two sets if it is in one of them, in their difference if it is in
/// the first alone, and in no empty set.
pub proof fn law_modifiers_are_a_set(a: Modifier, b: Modifier, flag: u16)
    requires
        is_flag(flag),
    ensures
        a.spec_union(b).spec_contains(flag) <==> a.spec_contains(flag) || b.spec_contains(flag),
        a.spec_difference(b).spec_contains(flag) <==> a.spec_contains(flag) && !b.spec_contains(
            flag,
        ),
        !Modifier::spec_empty().spec_contains(flag),
{
    let n = choose|n: u16| n < 16 && flag == #[trigger] (1u16 << n);
    let x = a.bits;
    let y = b.bits;
    assert(((x | y) & flag == flag <==> x & flag == flag || y & flag == flag) && ((x & !y) & flag
        == flag <==> x & flag == flag && !(y & flag == flag)) && 0u16 & flag != flag)
        by (bit_vector)
        requires
            n < 16,
            flag == 1u16 << n,
    ;
}

/// Two sets that hold the same modifiers are the same.
pub proof fn law_modifiers_make_the_set(a: Modifier, b: Modifier)
    requires
        forall|flag: u16| is_flag(flag) ==> #[trigger] a.spec_contains(flag) == b.spec_contains(
            flag,
        ),
    ensures
        a == b,
{
    let x = a.bits;
    let y = b.bits;
    if x != y {
        assert(exists|n: u16| n < 16 && (x & #[trigger] (1u16 << n)) != (y & (1u16 << n))) by {
            assert((x & (1u16 << 0)) == (y & (1u16 << 0)) && (x & (1u16 << 1)) == (y & (1u16 << 1))
                && (x & (1u16 << 2)) == (y & (1u16 << 2)) && (x & (1u16 << 3)) == (y & (1u16 << 3))
                && (x & (1u16 << 4)) == (y & (1u16 << 4)) && (x & (1u16 << 5)) == (y & (1u16 << 5))
                && (x & (1u16 << 6)) == (y & (1u16 << 6)) && (x & (1u16 << 7)) == (y & (1u16 << 7))
                && (x & (1u16 << 8)) == (y & (1u16 << 8)) && (x & (1u16 << 9)) == (y & (1u16 << 9))
                && (x & (1u16 << 10)) == (y & (1u16 << 10)) && (x & (1u16 << 11)) == (y & (1u16
                << 11)) && (x & (1u16 << 12)) == (y & (1u16 << 12)) && (x & (1u16 << 13)) == (y & (
            1u16 << 13)) && (x & (1u16 << 14)) == (y & (1u16 << 14)) && (x & (1u16 << 15)) == (y & (
            1u16 << 15)) ==> x == y) by (bit_vector);
        }
        let n = choose|n: u16| n < 16 && (x & #[trigger] (1u16 << n)) != (y & (1u16 << n));
        let flag = 1u16 << n;
        assert(is_flag(flag));
        assert((x & flag == flag) != (y & flag == flag)) by (bit_vector)
            requires
                n < 16,
                flag == 1u16 << n,
                (x & flag) != (y & flag),
        ;
        assert(a.spec_contains(flag) == b.spec_contains(flag));
    }
}

/// Changes to the look of a cell: what is `None`, or in neither set, stays as it is.
#[derive(Debug, Clone, Copy, PartialEq, Eq, Hash)]
pub struct Style {
    pub fg: Option<Color>,
    pub bg: Option<Color>,
    pub underline_color: Option<Color>,
    pub add_modifier: Modifier,
    pub sub_modifier: Modifier,
}

/// `b` where it is given, else `a`.
pub open spec fn or_else(a: Option<Color>, b: Option<Color>) -> Option<Color> {
    if b is Some {
        b
    } else {
        a
    }
}

/// `b` where it is given, else `a`.
fn prefer(a: Option<Color>, b: Option<Color>) -> (r: Option<Color>)
    ensures
        r == or_else(a, b),
{
    match b {
        Some(color) => Some(color),
        None => a,
    }
}

impl Style {
    /// The style that changes nothing.
    pub open spec fn spec_plain() -> Style {
        Style {
            fg: None,
            bg: None,
            underline_color: None,
            add_modifier: Modifier::empty(),
            sub_modifier: Modifier::empty(),
        }
    }

    /// The style that changes nothing.
    pub fn plain() -> (r: Style)
        ensures
            r == Style::spec_plain(),
    {
        Style {
            fg: None,
            bg: None,
            underline_color: None,
            add_modifier: Modifier::empty(),
            sub_modifier: Modifier::empty(),
        }
    }

    /// The style that applies this one and then `other`.
    pub open spec fn spec_patch(self, other: Style) -> Style {
        Style {
            fg: or_else(self.fg, other.fg),
            bg: or_else(self.bg, other.bg),
            underline_color: or_else(self.underline_color, other.underline_color),
            add_modifier: self.add_modifier.spec_difference(other.sub_modifier).spec_union(
                other.add_modifier,
            ),
            sub_modifier: self.sub_modifier.spec_difference(other.add_modifier).spec_union(
                other.sub_modifier,
            ),
        }
    }

    /// The style that applies this one and then `other`.
    pub fn patch(self, other: Style) -> (r: Style)
        ensures
            r == self.spec_patch(other),
    {
        Style {
            fg: prefer(self.fg, other.fg),
            bg: prefer(self.bg, other.bg),
            underline_color: prefer(self.underline_color, other.underline_color),
            add_modifier: self.add_modifier.difference(other.sub_modifier).union(
                other.add_modifier,
            ),
            sub_modifier: self.sub_modifier.difference(other.add_modifier).union(
                other.sub_modifier,
            ),
        }
    }
}

} // verus!
