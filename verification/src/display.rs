//! What the screen of a terminal shows, as the terminal carries out what it is told.

use vstd::prelude::*;

use crate::buffer;
use crate::buffer::CellView;
use crate::command::Attribute;
use crate::command::OpOf;
use crate::command::OpView;
use crate::command::PlacedView;
use crate::geometry;
use crate::style;
use crate::style::Modifier;
use crate::style::TermColor;
use crate::style::BOLD;
use crate::style::CROSSED_OUT;
use crate::style::DIM;
use crate::style::ITALIC;
use crate::style::RAPID_BLINK;
use crate::style::REVERSED;
use crate::style::SLOW_BLINK;
use crate::style::UNDERLINED;
use crate::text;

verus! {

/// The attributes that a terminal shows a text with.
pub struct Attributes {
    pub reversed: bool,
    pub bold: bool,
    pub dim: bool,
    pub italic: bool,
    pub underlined: bool,
    pub crossed_out: bool,
    pub slow_blink: bool,
    pub rapid_blink: bool,
}

impl Attributes {
    /// No attribute.
    pub open spec fn plain() -> Attributes {
        Attributes {
            reversed: false,
            bold: false,
            dim: false,
            italic: false,
            underlined: false,
            crossed_out: false,
            slow_blink: false,
            rapid_blink: false,
        }
    }

    /// The attributes of a set of modifiers.
    pub open spec fn of(modifier: Modifier) -> Attributes {
        Attributes {
            reversed: modifier.spec_contains(REVERSED),
            bold: modifier.spec_contains(BOLD),
            dim: modifier.spec_contains(DIM),
            italic: modifier.spec_contains(ITALIC),
            underlined: modifier.spec_contains(UNDERLINED),
            crossed_out: modifier.spec_contains(CROSSED_OUT),
            slow_blink: modifier.spec_contains(SLOW_BLINK),
            rapid_blink: modifier.spec_contains(RAPID_BLINK),
        }
    }

    /// The attributes after one has been switched. Bold and dim end together, and so do both kinds
    /// of blinking.
    pub open spec fn switched(self, attribute: Attribute) -> Attributes {
        match attribute {
            Attribute::Reset => Attributes::plain(),
            Attribute::Bold => Attributes { bold: true, ..self },
            Attribute::Dim => Attributes { dim: true, ..self },
            Attribute::NormalIntensity => Attributes { bold: false, dim: false, ..self },
            Attribute::Italic => Attributes { italic: true, ..self },
            Attribute::NoItalic => Attributes { italic: false, ..self },
            Attribute::Underlined => Attributes { underlined: true, ..self },
            Attribute::NoUnderline => Attributes { underlined: false, ..self },
            Attribute::SlowBlink => Attributes { slow_blink: true, ..self },
            Attribute::RapidBlink => Attributes { rapid_blink: true, ..self },
            Attribute::NoBlink => Attributes { slow_blink: false, rapid_blink: false, ..self },
            Attribute::Reverse => Attributes { reversed: true, ..self },
            Attribute::NoReverse => Attributes { reversed: false, ..self },
            Attribute::CrossedOut => Attributes { crossed_out: true, ..self },
            Attribute::NotCrossedOut => Attributes { crossed_out: false, ..self },
        }
    }
}

/// What one place of the screen shows. The right half of a wide text has no symbol of its own.
#[verifier::ext_equal]
pub struct Glyph {
    pub symbol: Seq<char>,
    pub fg: TermColor,
    pub bg: TermColor,
    pub attributes: Attributes,
}

/// What a cell looks like on the screen.
pub open spec fn look(cell: CellView) -> Glyph {
    Glyph {
        symbol: cell.symbol,
        fg: style::term_color(cell.fg),
        bg: style::term_color(cell.bg),
        attributes: Attributes::of(cell.modifier),
    }
}

/// What several cells look like on the screen.
pub open spec fn looks(cells: Seq<CellView>) -> Seq<Glyph> {
    cells.map_values(|c: CellView| look(c))
}

/// A place that shows nothing but a background.
pub open spec fn empty_glyph(bg: TermColor) -> Glyph {
    Glyph {
        symbol: buffer::glyph(' '),
        fg: TermColor::Reset,
        bg,
        attributes: Attributes::plain(),
    }
}

/// The right half of a wide text.
pub open spec fn right_half(head: Glyph) -> Glyph {
    Glyph { symbol: Seq::empty(), ..head }
}

/// How a terminal shows what is left of a wide text that has been cut in two, by what the place
/// showed and by what took the other half. Terminals differ in that: some keep the look of the
/// wide text, some take that of the new one, some take none.
pub type Tearing = spec_fn(Glyph, Glyph) -> Glyph;

/// What is left of a wide text that has been cut in two: an empty place, in the look that the
/// terminal gives it.
pub open spec fn remnant(tearing: Tearing, seen: Glyph, over: Glyph) -> Glyph {
    Glyph { symbol: buffer::glyph(' '), ..tearing(seen, over) }
}

/// A row with the places from `x` on cleared to a background. A wide text that is cut in two is
/// gone.
pub open spec fn cleared_row(tearing: Tearing, row: Seq<Glyph>, x: int, bg: TermColor) -> Seq<
    Glyph,
> {
    Seq::new(
        row.len(),
        |i: int|
            if i >= x {
                empty_glyph(bg)
            } else if i == x - 1 && x < row.len() && row[x].symbol.len() == 0 {
                remnant(tearing, row[i], empty_glyph(bg))
            } else {
                row[i]
            },
    )
}

/// A row with a text of `n` columns printed at `x`, which looks as `head`. A wide text that is cut
/// in two is gone.
pub open spec fn printed_row(
    tearing: Tearing,
    row: Seq<Glyph>,
    x: int,
    head: Glyph,
    n: int,
) -> Seq<Glyph> {
    Seq::new(
        row.len(),
        |i: int|
            if i == x {
                head
            } else if x < i < x + n {
                right_half(head)
            } else if i == x - 1 && row[x].symbol.len() == 0 {
                remnant(tearing, row[i], head)
            } else if i == x + n && row[i].symbol.len() == 0 {
                remnant(tearing, row[i], head)
            } else {
                row[i]
            },
    )
}

/// A screen, the rows that have scrolled out of it at the top, and how the terminal prints.
#[verifier::ext_equal]
pub struct Display {
    /// The rows that have scrolled out of the screen, the last one last.
    pub history: Seq<Seq<Glyph>>,
    pub rows: Seq<Seq<Glyph>>,
    /// The cursor.
    pub x: int,
    pub y: int,
    /// The look that the terminal prints in.
    pub fg: TermColor,
    pub bg: TermColor,
    pub attributes: Attributes,
    /// How the terminal shows what is left of a wide text that has been cut in two.
    pub tearing: Tearing,
}

impl Display {
    /// Whether the screen has `height` rows of `width` places.
    pub open spec fn has_size(self, width: int, height: int) -> bool {
        self.rows.len() == height && forall|y: int|
            0 <= y < height ==> (#[trigger] self.rows[y]).len() == width
    }

    /// Whether the terminal prints in its own look.
    pub open spec fn is_plain(self) -> bool {
        &&& self.fg == TermColor::Reset
        &&& self.bg == TermColor::Reset
        &&& self.attributes == Attributes::plain()
    }

    /// The screen with other rows.
    pub open spec fn with_rows(self, rows: Seq<Seq<Glyph>>) -> Display {
        Display { rows, ..self }
    }

    /// `n` rows that show nothing, as wide as the row `y`.
    pub open spec fn empty_rows(self, y: int, n: int) -> Seq<Seq<Glyph>> {
        Seq::new(
            n as nat,
            |i: int| Seq::new(self.rows[y].len(), |x: int| empty_glyph(self.bg)),
        )
    }

    /// The screen with the rows `first` to before `end` moved up by `n`, be it a single row or all
    /// of them. What leaves the screen at its top joins the history.
    pub open spec fn scrolled_up(self, first: int, end: int, n: int) -> Display {
        let k = geometry::least(n, end - first);
        Display {
            history: if first == 0 {
                self.history + self.rows.subrange(0, k)
            } else {
                self.history
            },
            rows: self.rows.subrange(0, first) + self.rows.subrange(first + k, end)
                + self.empty_rows(first, k) + self.rows.subrange(end, self.rows.len() as int),
            ..self
        }
    }

    /// The screen with the rows `first` to before `end` moved down by `n`.
    pub open spec fn scrolled_down(self, first: int, end: int, n: int) -> Display {
        let k = geometry::least(n, end - first);
        self.with_rows(
            self.rows.subrange(0, first) + self.empty_rows(first, k) + self.rows.subrange(
                first,
                end - k,
            ) + self.rows.subrange(end, self.rows.len() as int),
        )
    }

    /// The screen with one place shown otherwise.
    pub open spec fn with_glyph(self, x: int, y: int, glyph: Glyph) -> Display {
        self.with_rows(self.rows.update(y, self.rows[y].update(x, glyph)))
    }

    /// The screen with cells drawn, as a backend is asked to draw them: each at its own place,
    /// whatever stands before it.
    pub open spec fn drawn(self, cells: Seq<PlacedView>) -> Display
        decreases cells.len(),
    {
        if cells.len() == 0 {
            self
        } else {
            let p = cells.last();
            self.drawn(cells.drop_last()).with_glyph(p.x as int, p.y as int, look(p.cell))
        }
    }

    /// The screen with so many line feeds made: the cursor goes down, and where it cannot the
    /// whole screen scrolls up.
    pub open spec fn fed(self, n: int) -> Display {
        let last = self.rows.len() - 1;
        let up = geometry::greatest(self.y + n - last, 0);
        Display {
            y: geometry::least(self.y + n, last),
            ..self.scrolled_up(0, self.rows.len() as int, up)
        }
    }

    /// The screen cleared from the cursor to the end of its row.
    pub open spec fn cleared_to_end(self) -> Display {
        self.with_rows(
            self.rows.update(self.y, cleared_row(self.tearing, self.rows[self.y], self.x, self.bg)),
        )
    }

    /// The screen cleared from the cursor on.
    pub open spec fn cleared_down(self) -> Display {
        self.with_rows(
            Seq::new(
                self.rows.len(),
                |y: int|
                    if y < self.y {
                        self.rows[y]
                    } else if y == self.y {
                        cleared_row(self.tearing, self.rows[y], self.x, self.bg)
                    } else {
                        cleared_row(self.tearing, self.rows[y], 0, self.bg)
                    },
            ),
        )
    }

    /// The screen with a text printed at the cursor, which goes behind it.
    pub open spec fn printed(self, text: Seq<char>) -> Display {
        let n = text::text_columns(text::visible(text)) as int;
        let head = Glyph {
            symbol: text,
            fg: self.fg,
            bg: self.bg,
            attributes: self.attributes,
        };
        Display {
            x: self.x + n,
            ..self.with_rows(
                self.rows.update(
                    self.y,
                    printed_row(self.tearing, self.rows[self.y], self.x, head, n),
                ),
            )
        }
    }

    /// The screen after an operation.
    pub open spec fn after(self, op: OpView) -> Display {
        match op {
            OpOf::MoveTo { x, y } => Display { x: x as int, y: y as int, ..self },
            OpOf::ClearFromCursorDown => self.cleared_down(),
            OpOf::ClearUntilNewLine => self.cleared_to_end(),
            OpOf::Print(text) => if text == buffer::glyph('\n') {
                self.fed(1)
            } else {
                self.printed(text)
            },
            OpOf::SetColors { fg, bg } => Display { fg, bg, ..self },
            OpOf::SetForegroundColor(fg) => Display { fg, ..self },
            OpOf::SetBackgroundColor(bg) => Display { bg, ..self },
            OpOf::SetAttribute(attribute) => {
                let d = Display { attributes: self.attributes.switched(attribute), ..self };
                if attribute == Attribute::Reset {
                    Display { fg: TermColor::Reset, bg: TermColor::Reset, ..d }
                } else {
                    d
                }
            },
            OpOf::ScrollUp(region) => self.scrolled_up(
                region.first_row as int,
                region.last_row + 1,
                region.lines_to_scroll as int,
            ),
            OpOf::ScrollDown(region) => self.scrolled_down(
                region.first_row as int,
                region.last_row + 1,
                region.lines_to_scroll as int,
            ),
            OpOf::AppendLines(n) => self.fed(n as int),
            OpOf::DrawCells(cells) => self.drawn(cells),
            _ => self,
        }
    }

    /// The screen after several operations.
    pub open spec fn carried(self, ops: Seq<OpView>) -> Display
        decreases ops.len(),
    {
        if ops.len() == 0 {
            self
        } else {
            self.carried(ops.drop_last()).after(ops.last())
        }
    }
}

/// Drawing cells at their places changes nothing of how the terminal prints.
pub proof fn lemma_drawn_look(d: Display, cells: Seq<PlacedView>)
    ensures
        d.drawn(cells).fg == d.fg,
        d.drawn(cells).bg == d.bg,
        d.drawn(cells).attributes == d.attributes,
    decreases cells.len(),
{
    if cells.len() > 0 {
        lemma_drawn_look(d, cells.drop_last());
    }
}

/// Operations are carried out one after the other.
pub proof fn lemma_carried(d: Display, a: Seq<OpView>, b: Seq<OpView>)
    ensures
        d.carried(a + b) == d.carried(a).carried(b),
    decreases b.len(),
{
    if b.len() == 0 {
        assert(a + b =~= a);
    } else {
        assert((a + b).drop_last() =~= a + b.drop_last());
        lemma_carried(d, a, b.drop_last());
    }
}

/// One operation is carried out as such.
pub proof fn lemma_carried_one(d: Display, op: OpView)
    ensures
        d.carried(seq![op]) == d.after(op),
{
    assert(seq![op].drop_last() =~= Seq::empty());
    assert(d.carried(seq![op].drop_last()) == d);
}

/// A cell looks as it says: its text in its colours, and with an attribute for each of its modifiers
/// and no other.
pub proof fn law_cells_look_as_they_say(cell: CellView)
    ensures
        ({
            let seen = look(cell);
            &&& seen.symbol == cell.symbol
            &&& seen.fg == style::term_color(cell.fg)
            &&& seen.bg == style::term_color(cell.bg)
            &&& seen.attributes.bold == cell.modifier.spec_contains(BOLD)
            &&& seen.attributes.dim == cell.modifier.spec_contains(DIM)
            &&& seen.attributes.italic == cell.modifier.spec_contains(ITALIC)
            &&& seen.attributes.underlined == cell.modifier.spec_contains(UNDERLINED)
            &&& seen.attributes.slow_blink == cell.modifier.spec_contains(SLOW_BLINK)
            &&& seen.attributes.rapid_blink == cell.modifier.spec_contains(RAPID_BLINK)
            &&& seen.attributes.reversed == cell.modifier.spec_contains(REVERSED)
            &&& seen.attributes.crossed_out == cell.modifier.spec_contains(CROSSED_OUT)
        }),
{
}

/// An attribute that is switched on is on, one that is switched off is off, and no other changes,
/// but that bold and dim end together, and both kinds of blinking do.
pub proof fn law_attributes_are_switched(a: Attributes)
    ensures
        a.switched(Attribute::Bold) == (Attributes { bold: true, ..a }),
        a.switched(Attribute::Dim) == (Attributes { dim: true, ..a }),
        a.switched(Attribute::Italic) == (Attributes { italic: true, ..a }),
        a.switched(Attribute::Underlined) == (Attributes { underlined: true, ..a }),
        a.switched(Attribute::SlowBlink) == (Attributes { slow_blink: true, ..a }),
        a.switched(Attribute::RapidBlink) == (Attributes { rapid_blink: true, ..a }),
        a.switched(Attribute::Reverse) == (Attributes { reversed: true, ..a }),
        a.switched(Attribute::CrossedOut) == (Attributes { crossed_out: true, ..a }),
        a.switched(Attribute::NormalIntensity) == (Attributes { bold: false, dim: false, ..a }),
        a.switched(Attribute::NoItalic) == (Attributes { italic: false, ..a }),
        a.switched(Attribute::NoUnderline) == (Attributes { underlined: false, ..a }),
        a.switched(Attribute::NoBlink) == (Attributes {
            slow_blink: false,
            rapid_blink: false,
            ..a
        }),
        a.switched(Attribute::NoReverse) == (Attributes { reversed: false, ..a }),
        a.switched(Attribute::NotCrossedOut) == (Attributes { crossed_out: false, ..a }),
        a.switched(Attribute::Reset) == Attributes::plain(),
        !Attributes::plain().bold && !Attributes::plain().dim && !Attributes::plain().italic
            && !Attributes::plain().underlined && !Attributes::plain().slow_blink
            && !Attributes::plain().rapid_blink && !Attributes::plain().reversed
            && !Attributes::plain().crossed_out,
{
}

/// A text is printed at the cursor, in the colours and with the attributes that were last set, and
/// the cursor goes behind it; no other row changes.
pub proof fn law_text_is_printed_as_set(d: Display, text: Seq<char>, fg: TermColor, bg: TermColor)
    requires
        text != buffer::glyph('\n'),
        0 <= d.y < d.rows.len(),
        0 <= d.x < d.rows[d.y].len(),
    ensures
        ({
            let set = d.after(OpOf::SetColors { fg, bg });
            let s = set.after(OpOf::Print(text));
            let n = text::text_columns(text::visible(text)) as int;
            &&& s.rows[d.y][d.x] == (Glyph { symbol: text, fg, bg, attributes: d.attributes })
            &&& s.x == d.x + n
            &&& s.y == d.y
            &&& s.history == d.history
            &&& s.rows.len() == d.rows.len()
            &&& forall|y: int| 0 <= y < d.rows.len() && y != d.y ==> #[trigger] s.rows[y]
                == d.rows[y]
            &&& forall|x: int|
                0 <= x < d.x - 1 || d.x + n < x < d.rows[d.y].len() ==> #[trigger] s.rows[d.y][x]
                    == d.rows[d.y][x]
        }),
{
}

/// Setting colours and attributes, and moving the cursor, changes what it says and nothing that the
/// screen shows.
pub proof fn law_settings_change_what_they_say(
    d: Display,
    fg: TermColor,
    bg: TermColor,
    attribute: Attribute,
    x: u16,
    y: u16,
)
    ensures
        d.after(OpOf::SetColors { fg, bg }) == (Display { fg, bg, ..d }),
        d.after(OpOf::SetForegroundColor(fg)) == (Display { fg, ..d }),
        d.after(OpOf::SetBackgroundColor(bg)) == (Display { bg, ..d }),
        d.after(OpOf::MoveTo { x, y }) == (Display { x: x as int, y: y as int, ..d }),
        attribute != Attribute::Reset ==> d.after(OpOf::SetAttribute(attribute)) == (Display {
            attributes: d.attributes.switched(attribute),
            ..d
        }),
        d.after(OpOf::SetAttribute(Attribute::Reset)) == (Display {
            fg: TermColor::Reset,
            bg: TermColor::Reset,
            attributes: Attributes::plain(),
            ..d
        }),
{
}

} // verus!
