//! Turns changes to the screen into operations on the terminal.

use vstd::prelude::*;

use crate::buffer::Cell;
use crate::buffer::CellView;
use crate::command;
use crate::command::Attribute;
use crate::command::Op;
use crate::command::OpOf;
use crate::command::OpView;
use crate::diff;
use crate::diff::DrawCommand;
use crate::diff::DrawCommandOf;
use crate::diff::DrawCommandView;
use crate::geometry::Position;
use crate::style;
use crate::style::color_to_crossterm;
use crate::style::Color;
use crate::style::Modifier;
use crate::style::TermColor;
use crate::style::BOLD;
use crate::style::CROSSED_OUT;
use crate::style::DIM;
use crate::style::ITALIC;
use crate::style::RAPID_BLINK;
use crate::style::REVERSED;
use crate::style::SLOW_BLINK;
use crate::style::UNDERLINED;

verus! {

/// The change from one set of modifiers to another.
#[derive(Debug, Clone, Copy, PartialEq, Eq, Structural)]
pub struct ModifierDiff {
    pub from: Modifier,
    pub to: Modifier,
}

/// The attribute, if it is wanted.
pub open spec fn wanted(yes: bool, attribute: Attribute) -> Seq<OpView> {
    if yes {
        seq![OpOf::SetAttribute(attribute)]
    } else {
        Seq::empty()
    }
}

impl ModifierDiff {
    /// What ends the modifiers that are dropped. Bold and dim end together, so that dim is set
    /// again where it stays.
    pub open spec fn ended(self) -> Seq<OpView> {
        let removed = self.from.spec_difference(self.to);
        wanted(removed.spec_contains(REVERSED), Attribute::NoReverse) + wanted(
            removed.spec_contains(BOLD),
            Attribute::NormalIntensity,
        ) + wanted(removed.spec_contains(BOLD) && self.to.spec_contains(DIM), Attribute::Dim)
            + wanted(removed.spec_contains(ITALIC), Attribute::NoItalic) + wanted(
            removed.spec_contains(UNDERLINED),
            Attribute::NoUnderline,
        ) + wanted(removed.spec_contains(DIM), Attribute::NormalIntensity) + wanted(
            removed.spec_contains(CROSSED_OUT),
            Attribute::NotCrossedOut,
        ) + wanted(
            removed.spec_contains(SLOW_BLINK) || removed.spec_contains(RAPID_BLINK),
            Attribute::NoBlink,
        )
    }

    /// What starts the modifiers that are new.
    pub open spec fn started(self) -> Seq<OpView> {
        let added = self.to.spec_difference(self.from);
        wanted(added.spec_contains(REVERSED), Attribute::Reverse) + wanted(
            added.spec_contains(BOLD),
            Attribute::Bold,
        ) + wanted(added.spec_contains(ITALIC), Attribute::Italic) + wanted(
            added.spec_contains(UNDERLINED),
            Attribute::Underlined,
        ) + wanted(added.spec_contains(DIM), Attribute::Dim) + wanted(
            added.spec_contains(CROSSED_OUT),
            Attribute::CrossedOut,
        ) + wanted(added.spec_contains(SLOW_BLINK), Attribute::SlowBlink) + wanted(
            added.spec_contains(RAPID_BLINK),
            Attribute::RapidBlink,
        )
    }

    /// What leads from the one set of modifiers to the other.
    pub open spec fn ops(self) -> Seq<OpView> {
        self.ended() + self.started()
    }

    /// What ends the modifiers that are dropped.
    fn queue_ended(self) -> (r: Vec<Op>)
        ensures
            command::views(r@) == self.ended(),
    {
        let removed: Modifier = self.from.difference(self.to);
        let mut out: Vec<Op> = Vec::new();
        want(&mut out, removed.contains(REVERSED), Attribute::NoReverse);
        assert(command::views(out@) =~= wanted(
            removed.spec_contains(REVERSED),
            Attribute::NoReverse,
        ));
        want(&mut out, removed.contains(BOLD), Attribute::NormalIntensity);
        want(&mut out, removed.contains(BOLD) && self.to.contains(DIM), Attribute::Dim);
        want(&mut out, removed.contains(ITALIC), Attribute::NoItalic);
        want(&mut out, removed.contains(UNDERLINED), Attribute::NoUnderline);
        want(&mut out, removed.contains(DIM), Attribute::NormalIntensity);
        want(&mut out, removed.contains(CROSSED_OUT), Attribute::NotCrossedOut);
        want(
            &mut out,
            removed.contains(SLOW_BLINK) || removed.contains(RAPID_BLINK),
            Attribute::NoBlink,
        );
        out
    }

    /// What starts the modifiers that are new.
    fn queue_started(self) -> (r: Vec<Op>)
        ensures
            command::views(r@) == self.started(),
    {
        let added: Modifier = self.to.difference(self.from);
        let mut out: Vec<Op> = Vec::new();
        want(&mut out, added.contains(REVERSED), Attribute::Reverse);
        assert(command::views(out@) =~= wanted(added.spec_contains(REVERSED), Attribute::Reverse));
        want(&mut out, added.contains(BOLD), Attribute::Bold);
        want(&mut out, added.contains(ITALIC), Attribute::Italic);
        want(&mut out, added.contains(UNDERLINED), Attribute::Underlined);
        want(&mut out, added.contains(DIM), Attribute::Dim);
        want(&mut out, added.contains(CROSSED_OUT), Attribute::CrossedOut);
        want(&mut out, added.contains(SLOW_BLINK), Attribute::SlowBlink);
        want(&mut out, added.contains(RAPID_BLINK), Attribute::RapidBlink);
        out
    }

    /// Queues what leads from the one set of modifiers to the other.
    pub fn queue(self, out: &mut Vec<Op>)
        ensures
            command::views(final(out)@) == command::views(old(out)@) + self.ops(),
    {
        let ended: Vec<Op> = self.queue_ended();
        let started: Vec<Op> = self.queue_started();
        command::append(out, ended);
        command::append(out, started);
        proof {
            command::lemma_append_twice(command::views(old(out)@), self.ended(), self.started());
        }
    }
}

/// Queues the attribute, if it is wanted.
fn want(out: &mut Vec<Op>, yes: bool, attribute: Attribute)
    ensures
        command::views(final(out)@) == command::views(old(out)@) + wanted(yes, attribute),
{
    if yes {
        command::push(out, OpOf::SetAttribute(attribute));
    }
    assert(command::views(out@) =~= command::views(old(out)@) + wanted(yes, attribute));
}

/// The look that the terminal prints in, as far as the drawing has set it, and the last place
/// that was drawn.
pub struct Pen {
    pub fg: Color,
    pub bg: Color,
    pub modifier: Modifier,
    pub last: Option<Position>,
}

/// The pen that nothing has been drawn with.
pub open spec fn fresh_pen() -> Pen {
    Pen { fg: Color::Reset, bg: Color::Reset, modifier: Modifier::spec_empty(), last: None }
}

/// The place that a change starts at.
pub open spec fn place(command: DrawCommandView) -> Position {
    match command {
        DrawCommandOf::Put { x, y, .. } => Position { x, y },
        DrawCommandOf::ClearToEnd { x, y, .. } => Position { x, y },
    }
}

impl Pen {
    /// Whether a place is the one right of the last that was drawn.
    pub open spec fn is_next(self, p: Position) -> bool {
        self.last is Some && p.x == self.last->0.x + 1 && p.y == self.last->0.y
    }

    /// The pen after a change.
    pub open spec fn after(self, command: DrawCommandView) -> Pen {
        match command {
            DrawCommandOf::Put { cell, .. } => Pen {
                fg: cell.fg,
                bg: cell.bg,
                modifier: cell.modifier,
                last: Some(place(command)),
            },
            DrawCommandOf::ClearToEnd { bg, .. } => Pen {
                fg: self.fg,
                bg,
                modifier: Modifier::spec_empty(),
                last: Some(place(command)),
            },
        }
    }

    /// The operations that show a cell with the pen at its place.
    pub open spec fn print(self, cell: CellView) -> Seq<OpView> {
        (if cell.modifier != self.modifier {
            ModifierDiff { from: self.modifier, to: cell.modifier }.ops()
        } else {
            Seq::empty()
        }) + (if cell.fg != self.fg || cell.bg != self.bg {
            seq![
                OpOf::SetColors { fg: style::term_color(cell.fg), bg: style::term_color(cell.bg) },
            ]
        } else {
            Seq::empty()
        }) + seq![OpOf::Print(cell.symbol)]
    }

    /// The operations of a change.
    pub open spec fn ops(self, command: DrawCommandView) -> Seq<OpView> {
        (if self.is_next(place(command)) {
            Seq::empty()
        } else {
            seq![OpOf::MoveTo { x: place(command).x, y: place(command).y }]
        }) + match command {
            DrawCommandOf::Put { cell, .. } => self.print(cell),
            DrawCommandOf::ClearToEnd { bg, .. } => seq![
                OpOf::SetAttribute(Attribute::Reset),
                OpOf::SetBackgroundColor(style::term_color(bg)),
                OpOf::ClearUntilNewLine,
            ],
        }
    }
}

/// The pen after several changes.
pub open spec fn pen_after(commands: Seq<DrawCommandView>) -> Pen
    decreases commands.len(),
{
    if commands.len() == 0 {
        fresh_pen()
    } else {
        pen_after(commands.drop_last()).after(commands.last())
    }
}

/// The operations of several changes.
pub open spec fn strokes(commands: Seq<DrawCommandView>) -> Seq<OpView>
    decreases commands.len(),
{
    if commands.len() == 0 {
        Seq::empty()
    } else {
        strokes(commands.drop_last()) + pen_after(commands.drop_last()).ops(commands.last())
    }
}

/// The operations that give the terminal its own look back.
pub open spec fn plain_look() -> Seq<OpView> {
    seq![
        OpOf::SetForegroundColor(TermColor::Reset),
        OpOf::SetBackgroundColor(TermColor::Reset),
        OpOf::SetAttribute(Attribute::Reset),
    ]
}

/// The operations that draw several changes.
pub open spec fn drawing(commands: Seq<DrawCommandView>) -> Seq<OpView> {
    strokes(commands) + plain_look()
}

/// Queues the operations that show a cell with the pen at its place.
fn print_cell(out: &mut Vec<Op>, pen: &Pen, cell: &Cell)
    ensures
        command::views(final(out)@) == command::views(old(out)@) + pen.print(cell@),
{
    if cell.modifier != pen.modifier {
        ModifierDiff { from: pen.modifier, to: cell.modifier }.queue(out);
    }
    if cell.fg != pen.fg || cell.bg != pen.bg {
        command::push(
            out,
            OpOf::SetColors { fg: color_to_crossterm(cell.fg), bg: color_to_crossterm(cell.bg) },
        );
    }
    command::push(out, OpOf::Print(cell.symbol.clone()));
    assert(command::views(out@) =~= command::views(old(out)@) + pen.print(cell@));
}

/// Queues the operations of a change, and says with which pen the drawing goes on.
fn stroke(out: &mut Vec<Op>, pen: Pen, command: &DrawCommand) -> (r: Pen)
    ensures
        command::views(final(out)@) == command::views(old(out)@) + pen.ops(command@),
        r == pen.after(command@),
{
    let here: Position = match command {
        DrawCommandOf::Put { x, y, .. } => Position { x: *x, y: *y },
        DrawCommandOf::ClearToEnd { x, y, .. } => Position { x: *x, y: *y },
    };
    let follows: bool = match pen.last {
        Some(p) => here.x > 0 && here.x - 1 == p.x && here.y == p.y,
        None => false,
    };
    if !follows {
        command::push(out, OpOf::MoveTo { x: here.x, y: here.y });
    }
    match command {
        DrawCommandOf::Put { cell, .. } => {
            print_cell(out, &pen, cell);
            assert(command::views(out@) =~= command::views(old(out)@) + pen.ops(command@));
            Pen { fg: cell.fg, bg: cell.bg, modifier: cell.modifier, last: Some(here) }
        },
        DrawCommandOf::ClearToEnd { bg, .. } => {
            command::push(out, OpOf::SetAttribute(Attribute::Reset));
            command::push(out, OpOf::SetBackgroundColor(color_to_crossterm(*bg)));
            command::push(out, OpOf::ClearUntilNewLine);
            assert(command::views(out@) =~= command::views(old(out)@) + pen.ops(command@));
            Pen { fg: pen.fg, bg: *bg, modifier: Modifier::empty(), last: Some(here) }
        },
    }
}

/// Queues the operations that draw the changes.
pub fn draw(out: &mut Vec<Op>, commands: &Vec<DrawCommand>)
    ensures
        command::views(final(out)@) == command::views(old(out)@) + drawing(diff::views(commands@)),
{
    let mut pen: Pen = Pen {
        fg: Color::Reset,
        bg: Color::Reset,
        modifier: Modifier::empty(),
        last: None,
    };
    let ghost all = diff::views(commands@);
    let mut i: usize = 0;
    assert(command::views(out@) =~= command::views(old(out)@) + strokes(all.take(0)));
    while i < commands.len()
        invariant
            i <= commands@.len(),
            all == diff::views(commands@),
            pen == pen_after(all.take(i as int)),
            command::views(out@) == command::views(old(out)@) + strokes(all.take(i as int)),
        decreases commands.len() - i,
    {
        assert(all.take(i + 1).drop_last() =~= all.take(i as int));
        assert(all.take(i + 1).last() == commands@[i as int]@);
        let ghost more = pen.ops(commands@[i as int]@);
        pen = stroke(out, pen, &commands[i]);
        assert(command::views(out@) =~= command::views(old(out)@) + (strokes(all.take(i as int))
            + more));
        i += 1;
    }
    assert(all.take(i as int) =~= all);
    command::push(out, OpOf::SetForegroundColor(TermColor::Reset));
    command::push(out, OpOf::SetBackgroundColor(TermColor::Reset));
    command::push(out, OpOf::SetAttribute(Attribute::Reset));
    assert(command::views(out@) =~= command::views(old(out)@) + drawing(all));
}

} // verus!
