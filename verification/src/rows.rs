//! Laws of one row: what has to change in it makes the screen show the cells that were drawn.

use vstd::prelude::*;

use crate::buffer;
use crate::buffer::CellView;
use crate::diff;
use crate::display;
use crate::display::Attributes;
use crate::display::Glyph;
use crate::display::Tearing;
use crate::geometry;
use crate::showing;
use crate::style;
use crate::style::Color;
use crate::text;

verus! {

/// Whether a place shows the right half of a wide text.
pub open spec fn is_half(glyph: Glyph) -> bool {
    glyph.symbol.len() == 0
}

/// Whether a place shows nothing but its background.
pub open spec fn is_empty(glyph: Glyph) -> bool {
    glyph.symbol == buffer::glyph(' ') && glyph.attributes == Attributes::plain()
}

/// Whether two places cannot be told apart: of one that shows nothing but its background, the
/// colour of the text is not seen.
pub open spec fn alike(a: Glyph, b: Glyph) -> bool {
    a == b || (is_empty(a) && is_empty(b) && a.bg == b.bg)
}

/// Whether the cell in the column `c` lies behind a wide one.
pub open spec fn is_covered(row: Seq<CellView>, c: int) -> bool {
    c > 0 && diff::columns(row[c - 1]) > 1
}

/// Whether the cell in the column `c` can be shown: it holds a text of one or two columns, and
/// behind one of two columns follows a cell of one column, which is not shown.
pub open spec fn is_tidy(row: Seq<CellView>, c: int) -> bool {
    let cell = row[c];
    &&& cell.symbol.len() > 0
    &&& cell.symbol != buffer::glyph('\n')
    &&& 1 <= diff::columns(cell) <= 2
    &&& diff::columns(cell) == 2 ==> {
        &&& c + 1 < row.len()
        &&& diff::columns(row[c + 1]) == 1
        &&& cell.symbol != buffer::glyph(' ')
        &&& !diff::is_invalid(cell)
    }
}

/// Whether all cells of a row can be shown.
pub open spec fn tidy_row(row: Seq<CellView>) -> bool {
    forall|c: int| 0 <= c < row.len() ==> #[trigger] is_tidy(row, c)
}

/// Whether a row has no cell that is left out when it is drawn.
pub open spec fn none_skipped(row: Seq<CellView>) -> bool {
    forall|c: int| 0 <= c < row.len() ==> !(#[trigger] row[c]).skip
}

/// Whether a row of the screen shows the cell in the column `c`.
pub open spec fn place_shown(seen: Seq<Glyph>, row: Seq<CellView>, c: int) -> bool {
    let k = diff::columns(row[c]) as int;
    &&& alike(seen[c], display::look(row[c]))
    &&& k == 2 ==> is_half(seen[c + 1])
    &&& c + k < row.len() ==> !is_half(seen[c + k])
}

/// Whether a row of the screen shows a row of cells, but for those of which nothing is known.
pub open spec fn row_shown(seen: Seq<Glyph>, row: Seq<CellView>) -> bool {
    seen.len() == row.len() && forall|c: int|
        0 <= c < row.len() && !is_covered(row, c) && !diff::is_invalid(row[c])
            ==> #[trigger] place_shown(seen, row, c)
}

/// Whether the cell in the column `c` of a row has to be shown anew.
pub open spec fn put_here(old: Seq<CellView>, new: Seq<CellView>, c: int) -> bool {
    &&& diff::is_invalid(old[c]) || new[c] != old[c] || is_covered(new, c) || is_covered(old, c)
    &&& !is_covered(new, c)
    &&& c <= diff::last_column(new)
}

/// A row of the screen that shows `old`, cleared where that is needed.
pub open spec fn cleared(
    tearing: Tearing,
    seen: Seq<Glyph>,
    old: Seq<CellView>,
    new: Seq<CellView>,
) -> Seq<Glyph> {
    if diff::needs_clear(old, new) {
        display::cleared_row(
            tearing,
            seen,
            diff::last_column(new) + 1,
            style::term_color(diff::end_color(new)),
        )
    } else {
        seen
    }
}

/// A row of the screen with the first `n` cells of `new` shown, where that is needed.
pub open spec fn redrawn(
    tearing: Tearing,
    seen: Seq<Glyph>,
    old: Seq<CellView>,
    new: Seq<CellView>,
    n: int,
) -> Seq<Glyph>
    decreases n,
{
    if n <= 0 {
        seen
    } else {
        let before = redrawn(tearing, seen, old, new, n - 1);
        if put_here(old, new, n - 1) {
            display::printed_row(
                tearing,
                before,
                n - 1,
                display::look(new[n - 1]),
                diff::columns(new[n - 1]) as int,
            )
        } else {
            before
        }
    }
}

/// The column of the text that stands before the column `c`.
pub open spec fn before(row: Seq<CellView>, c: int) -> int {
    if is_covered(row, c - 1) {
        c - 2
    } else {
        c - 1
    }
}

/// Whether nothing is left of a wide text at the end of a row. One that the last text of `new`
/// cuts in two leaves a place behind, which is not shown anew where the row needs no clearing:
/// there the terminal shows it as an empty cell of its own accord.
pub open spec fn tears_off(
    tearing: Tearing,
    seen: Seq<Glyph>,
    old: Seq<CellView>,
    new: Seq<CellView>,
) -> bool {
    let c = diff::last_column(new) + 1;
    c < new.len() && is_covered(old, c) && !diff::needs_clear(old, new) ==> alike(
        display::remnant(tearing, seen[c], display::look(new[before(new, c)])),
        display::look(new[c]),
    )
}

/// The cells of a row from `column` on that are not blank end at the last drawn column.
proof fn lemma_last_drawn(row: Seq<CellView>, bg: Color, column: int, last: int)
    requires
        tidy_row(row),
        row.len() <= usize::MAX,
        0 <= column <= row.len(),
        !(column < row.len() && is_covered(row, column)),
        0 <= last,
        last < column || (last == 0 && row.len() > 0),
    ensures
        last <= diff::last_drawn(row, bg, column, last) < row.len(),
        forall|c: int|
            column <= c < row.len() && !is_covered(row, c) && !diff::is_blank(row[c], bg)
                ==> c + #[trigger] diff::columns(row[c]) - 1 <= diff::last_drawn(
                row,
                bg,
                column,
                last,
            ),
    decreases row.len() - column,
{
    if column < row.len() {
        assert(is_tidy(row, column));
        let k = diff::columns(row[column]) as int;
        let end = column + k - 1;
        let next = if diff::is_blank(row[column], bg) {
            last
        } else {
            end
        };
        if column + k < row.len() {
            assert(is_tidy(row, column + k - 1));
        }
        lemma_last_drawn(row, bg, column + k, next);
        assert forall|c: int|
            column <= c < row.len() && !is_covered(row, c) && !diff::is_blank(row[c], bg) implies c
            + #[trigger] diff::columns(row[c]) - 1 <= diff::last_drawn(row, bg, column, last) by {
            if column < c < column + k {
                assert(is_covered(row, c));
            }
        }
    }
}

/// Behind the last drawn column of a row all cells are blank, and none lies behind a wide one.
pub proof fn lemma_last_column(row: Seq<CellView>, c: int)
    requires
        tidy_row(row),
        0 <= c < row.len() <= usize::MAX,
    ensures
        0 <= diff::last_column(row) < row.len(),
        c > diff::last_column(row) ==> !is_covered(row, c) && diff::is_blank(
            row[c],
            diff::end_color(row),
        ) && diff::columns(row[c]) == 1,
        !is_covered(row, c) && c <= diff::last_column(row) ==> c + diff::columns(row[c]) - 1
            <= diff::last_column(row),
{
    let bg = diff::end_color(row);
    lemma_last_drawn(row, bg, 0, 0);
    assert(is_tidy(row, c));
    if is_covered(row, c) {
        assert(is_tidy(row, c - 1));
        assert(!is_covered(row, c - 1)) by {
            if is_covered(row, c - 1) {
                assert(is_tidy(row, c - 2));
            }
        }
        assert(!diff::is_blank(row[c - 1], bg));
        assert(c - 1 + diff::columns(row[c - 1]) - 1 <= diff::last_column(row));
    } else if !diff::is_blank(row[c], bg) {
        assert(c + diff::columns(row[c]) - 1 <= diff::last_column(row));
    }
}

/// A blank cell looks empty.
proof fn lemma_blank_look(cell: CellView, bg: Color)
    requires
        diff::is_blank(cell, bg),
    ensures
        is_empty(display::look(cell)),
        display::look(cell).bg == style::term_color(bg),
{
    showing::lemma_no_modifier();
}

/// What a row of the screen shows before its cells are drawn: those that are not drawn are shown
/// already, but for one that a wide text still covers.
spec fn ready(
    tearing: Tearing,
    seen: Seq<Glyph>,
    old: Seq<CellView>,
    new: Seq<CellView>,
) -> bool {
    let last = diff::last_column(new);
    &&& seen.len() == new.len()
    &&& forall|c: int|
        0 <= c <= last && c < new.len() && !put_here(old, new, c) && !is_covered(new, c)
            ==> #[trigger] place_shown(seen, new, c)
    &&& forall|c: int|
        #![trigger seen[c]]
        last < c < new.len() ==> {
            ||| alike(seen[c], display::look(new[c]))
            ||| c == last + 1 && is_half(seen[c]) && alike(
                display::remnant(tearing, seen[c], display::look(new[before(new, c)])),
                display::look(new[c]),
            )
        }
}

/// A row that shows `old`, cleared where that is needed, is ready for `new`.
proof fn lemma_ready(
    tearing: Tearing,
    seen: Seq<Glyph>,
    old: Seq<CellView>,
    new: Seq<CellView>,
)
    requires
        tidy_row(old),
        tidy_row(new),
        old.len() == new.len(),
        new.len() <= usize::MAX,
        row_shown(seen, old),
        tears_off(tearing, seen, old, new),
    ensures
        ready(tearing, cleared(tearing, seen, old, new), old, new),
{
    let last = diff::last_column(new);
    let bg = diff::end_color(new);
    let now = cleared(tearing, seen, old, new);
    let clear = diff::needs_clear(old, new);
    if new.len() > 0 {
        lemma_last_column(new, 0);
    }
    assert forall|c: int|
        0 <= c <= last && c < new.len() && !put_here(old, new, c) && !is_covered(
            new,
            c,
        ) implies #[trigger] place_shown(now, new, c) by {
        lemma_last_column(new, c);
        assert(is_tidy(new, c));
        assert(place_shown(seen, old, c));
        let k = diff::columns(new[c]) as int;
        assert(c + k - 1 <= last);
        if clear {
            if last + 1 < new.len() && is_half(seen[last + 1]) {
                assert(c + k < new.len() ==> !is_half(seen[c + k]));
                assert(c + k - 1 != last);
            }
        }
    }
    assert(0 <= last);
    assert forall|c: int| last < c < new.len() implies {
        ||| alike(#[trigger] now[c], display::look(new[c]))
        ||| c == last + 1 && is_half(now[c]) && alike(
            display::remnant(tearing, now[c], display::look(new[before(new, c)])),
            display::look(new[c]),
        )
    } by {
        lemma_last_column(new, c);
        lemma_blank_look(new[c], bg);
        if clear {
            assert(0 < new.len());
            assert(now[c] == display::empty_glyph(style::term_color(bg)));
        } else {
            assert(!(diff::is_invalid(old[c]) || !diff::is_blank(old[c], bg)));
            lemma_blank_look(old[c], bg);
            if is_covered(old, c) {
                assert(is_tidy(old, c - 1));
                if c - 1 > last {
                    assert(!(diff::is_invalid(old[c - 1]) || !diff::is_blank(old[c - 1], bg)));
                }
                assert(c - 1 == last);
                assert(!is_covered(old, c - 1)) by {
                    if is_covered(old, c - 1) {
                        assert(is_tidy(old, c - 2));
                    }
                }
                assert(place_shown(seen, old, c - 1));
            } else {
                assert(place_shown(seen, old, c));
            }
        }
    }
}

/// How far a row of the screen has come once the cells before the column `c` are shown, `start`
/// being what it showed before.
spec fn progress(
    tearing: Tearing,
    start: Seq<Glyph>,
    seen: Seq<Glyph>,
    new: Seq<CellView>,
    c: int,
) -> bool {
    let n = new.len() as int;
    &&& seen.len() == n
    &&& forall|j: int|
        #![trigger seen[j]]
        0 <= j < c ==> if is_covered(new, j) {
            is_half(seen[j])
        } else {
            alike(seen[j], display::look(new[j]))
        }
    &&& c < n && is_covered(new, c) ==> is_half(seen[c])
    &&& c + 1 < n && is_covered(new, c) ==> !is_half(seen[c + 1])
    &&& 0 < c < n && !is_covered(new, c) ==> !is_half(seen[c])
    &&& c < n && !is_covered(new, c) ==> seen[c] == start[c] || (c > 0 && is_half(start[c])
        && seen[c] == display::remnant(tearing, start[c], display::look(new[before(new, c)])))
    &&& forall|j: int|
        #![trigger seen[j]]
        c < j < n ==> seen[j] == start[j] || (j == c + 1 && is_covered(new, c) && is_half(start[j])
            && seen[j] == display::remnant(tearing, start[j], display::look(new[before(new, j)])))
}

/// One more cell of a row.
proof fn lemma_step(
    tearing: Tearing,
    start: Seq<Glyph>,
    old: Seq<CellView>,
    new: Seq<CellView>,
    c: int,
)
    requires
        tidy_row(old),
        tidy_row(new),
        old.len() == new.len(),
        new.len() <= usize::MAX,
        ready(tearing, start, old, new),
        0 <= c < new.len(),
        progress(tearing, start, redrawn(tearing, start, old, new, c), new, c),
    ensures
        progress(tearing, start, redrawn(tearing, start, old, new, c + 1), new, c + 1),
{
    let n = new.len() as int;
    let last = diff::last_column(new);
    let seen = redrawn(tearing, start, old, new, c);
    let next = redrawn(tearing, start, old, new, c + 1);
    let k = diff::columns(new[c]) as int;
    assert(is_tidy(new, c));
    lemma_last_column(new, c);
    if c + 1 < n {
        assert(is_tidy(new, c + 1));
    }
    if is_covered(new, c) {
        assert(is_tidy(new, c - 1));
        assert(next == seen);
        assert(!is_covered(new, c + 1));
    } else if put_here(old, new, c) {
        let look = display::look(new[c]);
        assert(next == display::printed_row(tearing, seen, c, look, k));
        assert(next[c] == look);
        assert(!is_half(look));
        assert forall|j: int| 0 <= j < c implies next[j] == #[trigger] seen[j] by {
            if j == c - 1 {
                assert(!is_half(seen[c]));
            }
        }
        assert(is_covered(new, c + 1) <==> k == 2);
        if c + 1 < n {
            assert(seen[c + 1] == start[c + 1]);
        }
        if c + 2 < n {
            assert(seen[c + 2] == start[c + 2]);
        }
    } else {
        assert(next == seen);
        if c <= last {
            assert(place_shown(start, new, c));
            assert(!is_half(display::look(new[c])));
            assert(!is_half(start[c]));
            if c + 1 < n {
                assert(seen[c + 1] == start[c + 1]);
            }
            if c + 2 < n {
                assert(seen[c + 2] == start[c + 2]);
            }
        } else {
            lemma_blank_look(new[c], diff::end_color(new));
            assert(c > 0);
            assert(alike(start[c], display::look(new[c])) || (c == last + 1 && is_half(start[c])
                && alike(
                display::remnant(tearing, start[c], display::look(new[before(new, c)])),
                display::look(new[c]),
            )));
            assert(alike(seen[c], display::look(new[c])));
            if c + 1 < n {
                lemma_last_column(new, c + 1);
                assert(seen[c + 1] == start[c + 1]);
                assert(alike(start[c + 1], display::look(new[c + 1])));
                assert(!is_half(display::look(new[c + 1])));
            }
        }
    }
}

/// All cells of a row before the column `c`.
proof fn lemma_steps(
    tearing: Tearing,
    start: Seq<Glyph>,
    old: Seq<CellView>,
    new: Seq<CellView>,
    c: int,
)
    requires
        tidy_row(old),
        tidy_row(new),
        old.len() == new.len(),
        new.len() <= usize::MAX,
        ready(tearing, start, old, new),
        0 <= c <= new.len(),
    ensures
        progress(tearing, start, redrawn(tearing, start, old, new, c), new, c),
    decreases c,
{
    if c > 0 {
        lemma_steps(tearing, start, old, new, c - 1);
        lemma_step(tearing, start, old, new, c - 1);
    }
}

/// A row of the screen that shows `old` shows `new` once it has been cleared and its cells have
/// been drawn, where that is needed, and if nothing is left of a wide text at its end.
pub proof fn law_row_shows_what_was_drawn(
    tearing: Tearing,
    seen: Seq<Glyph>,
    old: Seq<CellView>,
    new: Seq<CellView>,
)
    requires
        tidy_row(old),
        tidy_row(new),
        old.len() == new.len(),
        new.len() <= usize::MAX,
        row_shown(seen, old),
        tears_off(tearing, seen, old, new),
    ensures
        row_shown(
            redrawn(
                tearing,
                cleared(tearing, seen, old, new),
                old,
                new,
                new.len() as int,
            ),
            new,
        ),
{
    let start = cleared(tearing, seen, old, new);
    let n = new.len() as int;
    lemma_ready(tearing, seen, old, new);
    lemma_steps(tearing, start, old, new, n);
    let done = redrawn(tearing, start, old, new, n);
    assert forall|c: int|
        0 <= c < n && !is_covered(new, c) && !diff::is_invalid(
            new[c],
        ) implies #[trigger] place_shown(done, new, c) by {
        assert(is_tidy(new, c));
        let k = diff::columns(new[c]) as int;
        if k == 2 {
            assert(is_covered(new, c + 1));
            assert(is_half(done[c + 1]));
        }
        if c + k < n {
            assert(is_tidy(new, c + k));
            if k == 2 {
                assert(is_tidy(new, c + 1));
            }
            assert(!is_covered(new, c + k));
            assert(alike(done[c + k], display::look(new[c + k])));
        }
    }
}

/// A blank cell takes one column.
pub proof fn lemma_blank_columns(cell: CellView)
    requires
        cell.symbol == buffer::glyph(' '),
    ensures
        diff::columns(cell) == 1,
{
    text::law_plain_text_is_visible(cell.symbol);
    assert(text::is_ascii(cell.symbol));
}

/// The cells of a row from `column` on that are not blank, or lie behind a wide one, end at the
/// last drawn column.
proof fn lemma_drawn_end(row: Seq<CellView>, bg: Color, column: int, last: int, k: int)
    requires
        forall|c: int| 0 <= c < row.len() ==> diff::columns(#[trigger] row[c]) <= 2,
        row.len() <= usize::MAX,
        0 <= column,
        last <= column,
    ensures
        column <= k < row.len() && k > diff::last_drawn(row, bg, column, last) ==> diff::is_blank(
            row[k],
            bg,
        ),
    decreases geometry::greatest(row.len() - column, 0),
{
    if column < row.len() {
        let w = diff::columns(row[column]) as int;
        let step = geometry::greatest(w, 1);
        let blank = diff::is_blank(row[column], bg);
        if blank {
            lemma_blank_columns(row[column]);
        }
        let next = if blank {
            last
        } else {
            column + step - 1
        };
        lemma_drawn_end(row, bg, column + step, next, k);
        lemma_drawn_from(row, bg, column + step, next);
    }
}

/// The last drawn column lies no further left than the one that was last found.
pub proof fn lemma_drawn_from(row: Seq<CellView>, bg: Color, column: int, last: int)
    requires
        forall|c: int| 0 <= c < row.len() ==> diff::columns(#[trigger] row[c]) <= 2,
        row.len() <= usize::MAX,
        0 <= column,
        last <= column,
    ensures
        last <= diff::last_drawn(row, bg, column, last),
    decreases geometry::greatest(row.len() - column, 0),
{
    if column < row.len() {
        let w = diff::columns(row[column]) as int;
        let step = geometry::greatest(w, 1);
        let next = if diff::is_blank(row[column], bg) {
            last
        } else {
            column + step - 1
        };
        lemma_drawn_from(row, bg, column + step, next);
    }
}

/// A row of cells that the screen shows needs neither clearing nor drawing, if none takes more
/// than two columns.
pub proof fn law_shown_row_needs_nothing(row: Seq<CellView>, c: int)
    requires
        0 <= c < row.len() <= usize::MAX,
        forall|i: int| 0 <= i < row.len() ==> diff::columns(#[trigger] row[i]) <= 2,
        forall|i: int| 0 <= i < row.len() ==> !diff::is_invalid(#[trigger] row[i]),
    ensures
        !diff::needs_clear(row, row),
        !put_here(row, row, c),
{
    if diff::needs_clear(row, row) {
        let bg = diff::end_color(row);
        let k = choose|k: int|
            diff::last_column(row) < k < row.len() && (diff::is_invalid(#[trigger] row[k])
                || !diff::is_blank(row[k], bg));
        lemma_drawn_end(row, bg, 0, 0, k);
        lemma_drawn_from(row, bg, 0, 0);
    }
}

} // verus!
