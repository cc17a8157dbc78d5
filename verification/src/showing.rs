//! Laws of drawing: the screen shows what was drawn, and is told nothing where it shows that
//! already.

use vstd::prelude::*;

use crate::command;
use crate::command::Attribute;
use crate::command::OpOf;
use crate::command::OpView;
use crate::display;
use crate::display::Attributes;
use crate::display::Display;
use crate::draw;
use crate::draw::ModifierDiff;
use crate::style;
use crate::style::Modifier;
use crate::style::BOLD;
use crate::style::CROSSED_OUT;
use crate::style::DIM;
use crate::style::ITALIC;
use crate::style::RAPID_BLINK;
use crate::style::REVERSED;
use crate::style::SLOW_BLINK;
use crate::style::UNDERLINED;

verus! {

/// A modifier is dropped if it is in the first set and not in the second.
proof fn lemma_dropped(from: u16, to: u16)
    by (bit_vector)
    ensures
        (from & !to) & 0x001u16 == 0x001u16 <==> from & 0x001u16 == 0x001u16 && to & 0x001u16
            != 0x001u16,
        (from & !to) & 0x002u16 == 0x002u16 <==> from & 0x002u16 == 0x002u16 && to & 0x002u16
            != 0x002u16,
        (from & !to) & 0x004u16 == 0x004u16 <==> from & 0x004u16 == 0x004u16 && to & 0x004u16
            != 0x004u16,
        (from & !to) & 0x008u16 == 0x008u16 <==> from & 0x008u16 == 0x008u16 && to & 0x008u16
            != 0x008u16,
        (from & !to) & 0x010u16 == 0x010u16 <==> from & 0x010u16 == 0x010u16 && to & 0x010u16
            != 0x010u16,
        (from & !to) & 0x020u16 == 0x020u16 <==> from & 0x020u16 == 0x020u16 && to & 0x020u16
            != 0x020u16,
        (from & !to) & 0x040u16 == 0x040u16 <==> from & 0x040u16 == 0x040u16 && to & 0x040u16
            != 0x040u16,
        (from & !to) & 0x100u16 == 0x100u16 <==> from & 0x100u16 == 0x100u16 && to & 0x100u16
            != 0x100u16,
{
}

/// The empty set has no modifier.
pub proof fn lemma_no_modifier()
    ensures
        Attributes::of(Modifier::spec_empty()) == Attributes::plain(),
{
    assert(0u16 & 0x001u16 != 0x001u16) by (bit_vector);
    assert(0u16 & 0x002u16 != 0x002u16) by (bit_vector);
    assert(0u16 & 0x004u16 != 0x004u16) by (bit_vector);
    assert(0u16 & 0x008u16 != 0x008u16) by (bit_vector);
    assert(0u16 & 0x010u16 != 0x010u16) by (bit_vector);
    assert(0u16 & 0x020u16 != 0x020u16) by (bit_vector);
    assert(0u16 & 0x040u16 != 0x040u16) by (bit_vector);
    assert(0u16 & 0x100u16 != 0x100u16) by (bit_vector);
}

/// Whether no modifier that stays is ended together with one that is dropped: dim is not dropped
/// where bold stays, nor one kind of blinking where the other stays.
pub open spec fn faithful(from: Modifier, to: Modifier) -> bool {
    let a = Attributes::of(from);
    let b = Attributes::of(to);
    &&& a.dim && !b.dim ==> !(a.bold && b.bold)
    &&& a.slow_blink && !b.slow_blink ==> !(a.rapid_blink && b.rapid_blink)
    &&& a.rapid_blink && !b.rapid_blink ==> !(a.slow_blink && b.slow_blink)
}

/// Operations that may be followed by the switching of an attribute.
proof fn lemma_wanted(
    d: Display,
    ops: Seq<OpView>,
    before: Attributes,
    yes: bool,
    attribute: Attribute,
    after: Attributes,
)
    requires
        attribute != Attribute::Reset,
        d.carried(ops) == (Display { attributes: before, ..d }),
        yes ==> after == before.switched(attribute),
        !yes ==> after == before,
    ensures
        d.carried(ops + draw::wanted(yes, attribute)) == (Display { attributes: after, ..d }),
{
    display::lemma_carried(d, ops, draw::wanted(yes, attribute));
    if yes {
        display::lemma_carried_one(d.carried(ops), OpOf::SetAttribute(attribute));
    } else {
        assert(d.carried(ops).carried(draw::wanted(yes, attribute)) == d.carried(ops));
    }
}

/// The attributes without those that are ended. Bold and dim end together, dim being set again
/// where it stays, and so do both kinds of blinking.
spec fn with_fewer(
    a: Attributes,
    reversed: bool,
    bold: bool,
    dim_again: bool,
    italic: bool,
    underlined: bool,
    dim: bool,
    crossed_out: bool,
    blinking: bool,
) -> Attributes {
    Attributes {
        reversed: a.reversed && !reversed,
        bold: a.bold && !bold && !dim,
        dim: !dim && (dim_again || (a.dim && !bold)),
        italic: a.italic && !italic,
        underlined: a.underlined && !underlined,
        crossed_out: a.crossed_out && !crossed_out,
        slow_blink: a.slow_blink && !blinking,
        rapid_blink: a.rapid_blink && !blinking,
    }
}

/// What ends attributes is carried out.
#[verifier::rlimit(60)]
proof fn lemma_ended_one_by_one(
    d: Display,
    reversed: bool,
    bold: bool,
    dim_again: bool,
    italic: bool,
    underlined: bool,
    dim: bool,
    crossed_out: bool,
    blinking: bool,
)
    ensures
        d.carried(
            draw::wanted(reversed, Attribute::NoReverse) + draw::wanted(
                bold,
                Attribute::NormalIntensity,
            ) + draw::wanted(dim_again, Attribute::Dim) + draw::wanted(italic, Attribute::NoItalic)
                + draw::wanted(underlined, Attribute::NoUnderline) + draw::wanted(
                dim,
                Attribute::NormalIntensity,
            ) + draw::wanted(crossed_out, Attribute::NotCrossedOut) + draw::wanted(
                blinking,
                Attribute::NoBlink,
            ),
        ) == (Display {
            attributes: with_fewer(
                d.attributes,
                reversed,
                bold,
                dim_again,
                italic,
                underlined,
                dim,
                crossed_out,
                blinking,
            ),
            ..d
        }),
{
    let a = d.attributes;
    let o0 = Seq::<OpView>::empty();
    let o1 = draw::wanted(reversed, Attribute::NoReverse);
    let o2 = o1 + draw::wanted(bold, Attribute::NormalIntensity);
    let o3 = o2 + draw::wanted(dim_again, Attribute::Dim);
    let o4 = o3 + draw::wanted(italic, Attribute::NoItalic);
    let o5 = o4 + draw::wanted(underlined, Attribute::NoUnderline);
    let o6 = o5 + draw::wanted(dim, Attribute::NormalIntensity);
    let o7 = o6 + draw::wanted(crossed_out, Attribute::NotCrossedOut);
    let a1 = Attributes { reversed: a.reversed && !reversed, ..a };
    let a2 = Attributes { bold: a.bold && !bold, dim: a.dim && !bold, ..a1 };
    let a3 = Attributes { dim: dim_again || a2.dim, ..a2 };
    let a4 = Attributes { italic: a.italic && !italic, ..a3 };
    let a5 = Attributes { underlined: a.underlined && !underlined, ..a4 };
    let a6 = Attributes { bold: a5.bold && !dim, dim: a5.dim && !dim, ..a5 };
    let a7 = Attributes { crossed_out: a.crossed_out && !crossed_out, ..a6 };
    let a8 = Attributes {
        slow_blink: a.slow_blink && !blinking,
        rapid_blink: a.rapid_blink && !blinking,
        ..a7
    };
    assert(o0 + o1 =~= o1);
    lemma_wanted(d, o0, a, reversed, Attribute::NoReverse, a1);
    lemma_wanted(d, o1, a1, bold, Attribute::NormalIntensity, a2);
    lemma_wanted(d, o2, a2, dim_again, Attribute::Dim, a3);
    lemma_wanted(d, o3, a3, italic, Attribute::NoItalic, a4);
    lemma_wanted(d, o4, a4, underlined, Attribute::NoUnderline, a5);
    lemma_wanted(d, o5, a5, dim, Attribute::NormalIntensity, a6);
    lemma_wanted(d, o6, a6, crossed_out, Attribute::NotCrossedOut, a7);
    lemma_wanted(d, o7, a7, blinking, Attribute::NoBlink, a8);
}

/// What ends the dropped modifiers is carried out.
proof fn lemma_ended(d: Display, m: ModifierDiff)
    requires
        d.attributes == Attributes::of(m.from),
    ensures
        ({
            let a = Attributes::of(m.from);
            let b = Attributes::of(m.to);
            d.carried(m.ended()) == Display {
                attributes: Attributes {
                    reversed: a.reversed && b.reversed,
                    bold: a.bold && b.bold && !(a.dim && !b.dim),
                    dim: b.dim && (a.dim || (a.bold && !b.bold)),
                    italic: a.italic && b.italic,
                    underlined: a.underlined && b.underlined,
                    crossed_out: a.crossed_out && b.crossed_out,
                    slow_blink: a.slow_blink && b.slow_blink && !(a.rapid_blink && !b.rapid_blink),
                    rapid_blink: a.rapid_blink && b.rapid_blink && !(a.slow_blink && !b.slow_blink),
                },
                ..d
            }
        }),
{
    lemma_dropped(m.from.bits, m.to.bits);
    let gone = m.from.spec_difference(m.to);
    lemma_ended_one_by_one(
        d,
        gone.spec_contains(REVERSED),
        gone.spec_contains(BOLD),
        gone.spec_contains(BOLD) && m.to.spec_contains(DIM),
        gone.spec_contains(ITALIC),
        gone.spec_contains(UNDERLINED),
        gone.spec_contains(DIM),
        gone.spec_contains(CROSSED_OUT),
        gone.spec_contains(SLOW_BLINK) || gone.spec_contains(RAPID_BLINK),
    );
}

/// The attributes with further ones.
spec fn with_more(
    a: Attributes,
    reversed: bool,
    bold: bool,
    italic: bool,
    underlined: bool,
    dim: bool,
    crossed_out: bool,
    slow_blink: bool,
    rapid_blink: bool,
) -> Attributes {
    Attributes {
        reversed: a.reversed || reversed,
        bold: a.bold || bold,
        dim: a.dim || dim,
        italic: a.italic || italic,
        underlined: a.underlined || underlined,
        crossed_out: a.crossed_out || crossed_out,
        slow_blink: a.slow_blink || slow_blink,
        rapid_blink: a.rapid_blink || rapid_blink,
    }
}

/// What starts the first four of the modifiers is carried out.
proof fn lemma_started_first(
    d: Display,
    reversed: bool,
    bold: bool,
    italic: bool,
    underlined: bool,
)
    ensures
        d.carried(
            draw::wanted(reversed, Attribute::Reverse) + draw::wanted(bold, Attribute::Bold)
                + draw::wanted(italic, Attribute::Italic) + draw::wanted(
                underlined,
                Attribute::Underlined,
            ),
        ) == (Display {
            attributes: with_more(
                d.attributes,
                reversed,
                bold,
                italic,
                underlined,
                false,
                false,
                false,
                false,
            ),
            ..d
        }),
{
    let a = d.attributes;
    let o0 = Seq::<OpView>::empty();
    let o1 = draw::wanted(reversed, Attribute::Reverse);
    let o2 = o1 + draw::wanted(bold, Attribute::Bold);
    let o3 = o2 + draw::wanted(italic, Attribute::Italic);
    let a1 = with_more(a, reversed, false, false, false, false, false, false, false);
    let a2 = with_more(a, reversed, bold, false, false, false, false, false, false);
    let a3 = with_more(a, reversed, bold, italic, false, false, false, false, false);
    let a4 = with_more(a, reversed, bold, italic, underlined, false, false, false, false);
    assert(o0 + o1 =~= o1);
    lemma_wanted(d, o0, a, reversed, Attribute::Reverse, a1);
    lemma_wanted(d, o1, a1, bold, Attribute::Bold, a2);
    lemma_wanted(d, o2, a2, italic, Attribute::Italic, a3);
    lemma_wanted(d, o3, a3, underlined, Attribute::Underlined, a4);
}

/// What starts the last four of the modifiers is carried out behind other operations.
proof fn lemma_started_last(
    d: Display,
    ops: Seq<OpView>,
    a: Attributes,
    dim: bool,
    crossed_out: bool,
    slow_blink: bool,
    rapid_blink: bool,
)
    requires
        d.carried(ops) == (Display { attributes: a, ..d }),
    ensures
        d.carried(
            ops + draw::wanted(dim, Attribute::Dim) + draw::wanted(
                crossed_out,
                Attribute::CrossedOut,
            ) + draw::wanted(slow_blink, Attribute::SlowBlink) + draw::wanted(
                rapid_blink,
                Attribute::RapidBlink,
            ),
        ) == (Display {
            attributes: with_more(
                a,
                false,
                false,
                false,
                false,
                dim,
                crossed_out,
                slow_blink,
                rapid_blink,
            ),
            ..d
        }),
{
    let o1 = ops + draw::wanted(dim, Attribute::Dim);
    let o2 = o1 + draw::wanted(crossed_out, Attribute::CrossedOut);
    let o3 = o2 + draw::wanted(slow_blink, Attribute::SlowBlink);
    let a1 = with_more(a, false, false, false, false, dim, false, false, false);
    let a2 = with_more(a, false, false, false, false, dim, crossed_out, false, false);
    let a3 = with_more(a, false, false, false, false, dim, crossed_out, slow_blink, false);
    let a4 = with_more(a, false, false, false, false, dim, crossed_out, slow_blink, rapid_blink);
    lemma_wanted(d, ops, a, dim, Attribute::Dim, a1);
    lemma_wanted(d, o1, a1, crossed_out, Attribute::CrossedOut, a2);
    lemma_wanted(d, o2, a2, slow_blink, Attribute::SlowBlink, a3);
    lemma_wanted(d, o3, a3, rapid_blink, Attribute::RapidBlink, a4);
}

/// What starts the new modifiers is carried out.
proof fn lemma_started(d: Display, m: ModifierDiff)
    ensures
        ({
            let new = m.to.spec_difference(m.from);
            d.carried(m.started()) == Display {
                attributes: with_more(
                    d.attributes,
                    new.spec_contains(REVERSED),
                    new.spec_contains(BOLD),
                    new.spec_contains(ITALIC),
                    new.spec_contains(UNDERLINED),
                    new.spec_contains(DIM),
                    new.spec_contains(CROSSED_OUT),
                    new.spec_contains(SLOW_BLINK),
                    new.spec_contains(RAPID_BLINK),
                ),
                ..d
            }
        }),
{
    let new = m.to.spec_difference(m.from);
    let reversed = new.spec_contains(REVERSED);
    let bold = new.spec_contains(BOLD);
    let italic = new.spec_contains(ITALIC);
    let underlined = new.spec_contains(UNDERLINED);
    let first = draw::wanted(reversed, Attribute::Reverse) + draw::wanted(bold, Attribute::Bold)
        + draw::wanted(italic, Attribute::Italic) + draw::wanted(underlined, Attribute::Underlined);
    let a = with_more(
        d.attributes,
        reversed,
        bold,
        italic,
        underlined,
        false,
        false,
        false,
        false,
    );
    lemma_started_first(d, reversed, bold, italic, underlined);
    lemma_started_last(
        d,
        first,
        a,
        new.spec_contains(DIM),
        new.spec_contains(CROSSED_OUT),
        new.spec_contains(SLOW_BLINK),
        new.spec_contains(RAPID_BLINK),
    );
}

/// What leads from one set of modifiers to another makes a terminal that prints in the first print
/// in the second, but that bold is lost where dim ends and bold stays, and of the two kinds of
/// blinking the one that stays where the other ends.
pub proof fn law_modifiers_are_reached_but_for_those_that_end_together(d: Display, m: ModifierDiff)
    requires
        d.attributes == Attributes::of(m.from),
    ensures
        ({
            let a = Attributes::of(m.from);
            let b = Attributes::of(m.to);
            d.carried(m.ops()) == (Display {
                attributes: Attributes {
                    bold: b.bold && !(a.bold && a.dim && !b.dim),
                    slow_blink: b.slow_blink && !(a.slow_blink && a.rapid_blink && !b.rapid_blink),
                    rapid_blink: b.rapid_blink && !(a.rapid_blink && a.slow_blink
                        && !b.slow_blink),
                    ..b
                },
                ..d
            })
        }),
{
    lemma_dropped(m.to.bits, m.from.bits);
    lemma_ended(d, m);
    lemma_started(d.carried(m.ended()), m);
    display::lemma_carried(d, m.ended(), m.started());
}

/// What leads from one set of modifiers to another makes a terminal that prints in the first print
/// in the second, unless a modifier that stays is ended together with one that is dropped.
pub proof fn law_modifiers_are_reached(d: Display, m: ModifierDiff)
    requires
        d.attributes == Attributes::of(m.from),
        faithful(m.from, m.to),
    ensures
        d.carried(m.ops()) == (Display { attributes: Attributes::of(m.to), ..d }),
{
    law_modifiers_are_reached_but_for_those_that_end_together(d, m);
}

} // verus!
