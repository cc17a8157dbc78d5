//! What a terminal is told, one operation at a time.

use vstd::prelude::*;

use crate::buffer::Cell;
use crate::buffer::CellView;
use crate::style::TermColor;

verus! {

/// A text attribute that a terminal can be told to switch.
#[derive(Debug, Clone, Copy, PartialEq, Eq, Hash, Structural)]
pub enum Attribute {
    Reset,
    Bold,
    Dim,
    Italic,
    Underlined,
    SlowBlink,
    RapidBlink,
    Reverse,
    CrossedOut,
    NormalIntensity,
    NoItalic,
    NoUnderline,
    NoBlink,
    NoReverse,
    NotCrossedOut,
}

/// Scrolls the rows `first_row` to `last_row` up: the upper ones leave the screen, and blank rows
/// come in below.
#[derive(Debug, Clone, Copy, PartialEq, Eq, Hash, Structural)]
pub struct ScrollUpInRegion {
    pub first_row: u16,
    pub last_row: u16,
    pub lines_to_scroll: u16,
}

/// Scrolls the rows `first_row` to `last_row` down: blank rows come in above.
#[derive(Debug, Clone, Copy, PartialEq, Eq, Hash, Structural)]
pub struct ScrollDownInRegion {
    pub first_row: u16,
    pub last_row: u16,
    pub lines_to_scroll: u16,
}

/// A cell and the place of the screen where it is drawn.
#[derive(Debug, PartialEq, Eq, Hash)]
#[verifier::ext_equal]
pub struct PlacedOf<C> {
    pub x: u16,
    pub y: u16,
    pub cell: C,
}

/// A cell and its place.
pub type Placed = PlacedOf<Cell>;

/// What a cell and its place hold.
pub type PlacedView = PlacedOf<CellView>;

impl View for PlacedOf<Cell> {
    type V = PlacedOf<CellView>;

    open spec fn view(&self) -> PlacedOf<CellView> {
        PlacedOf { x: self.x, y: self.y, cell: self.cell@ }
    }
}

impl Clone for PlacedOf<Cell> {
    fn clone(&self) -> (r: PlacedOf<Cell>)
        ensures
            r@ == self@,
    {
        PlacedOf { x: self.x, y: self.y, cell: self.cell.clone() }
    }
}

/// Several cells and their places, once more.
fn clone_cells(cells: &Vec<Placed>) -> (r: Vec<Placed>)
    ensures
        r@.map_values(|c: Placed| c@) == cells@.map_values(|c: Placed| c@),
{
    let mut copy: Vec<Placed> = Vec::new();
    let mut i: usize = 0;
    while i < cells.len()
        invariant
            i <= cells.len(),
            copy@.len() == i,
            forall|k: int| 0 <= k < i ==> (#[trigger] copy@[k])@ == cells@[k]@,
        decreases cells.len() - i,
    {
        copy.push(cells[i].clone());
        i += 1;
    }
    assert(copy@.map_values(|c: Placed| c@) =~= cells@.map_values(|c: Placed| c@));
    copy
}

/// One operation on the terminal.
#[derive(Debug, PartialEq, Eq, Hash)]
#[verifier::ext_equal]
pub enum OpOf<S, C> {
    /// Moves the cursor.
    MoveTo { x: u16, y: u16 },
    /// Hides the cursor.
    Hide,
    /// Shows the cursor.
    Show,
    /// Clears from the cursor to the end of the screen.
    ClearFromCursorDown,
    /// Clears from the cursor to the end of its row.
    ClearUntilNewLine,
    /// Prints a text at the cursor.
    Print(S),
    /// Sets both colours of what is printed.
    SetColors { fg: TermColor, bg: TermColor },
    /// Sets the colour of the text that is printed.
    SetForegroundColor(TermColor),
    /// Sets the colour behind the text that is printed.
    SetBackgroundColor(TermColor),
    /// Switches an attribute of what is printed.
    SetAttribute(Attribute),
    /// Scrolls some rows up.
    ScrollUp(ScrollUpInRegion),
    /// Scrolls some rows down.
    ScrollDown(ScrollDownInRegion),
    /// Scrolls the whole screen up by so many rows, which come in blank below.
    AppendLines(u16),
    /// Draws cells at their places.
    DrawCells(C),
    /// Starts an update that the terminal shows at once.
    BeginSynchronizedUpdate,
    /// Ends such an update.
    EndSynchronizedUpdate,
    /// Hands the backend's output over.
    Flush,
    /// Hands over what has been written.
    FlushWriter,
}

/// An operation.
pub type Op = OpOf<String, Vec<Placed>>;

/// What an operation holds.
pub type OpView = OpOf<Seq<char>, Seq<PlacedView>>;

impl View for OpOf<String, Vec<Placed>> {
    type V = OpOf<Seq<char>, Seq<PlacedView>>;

    open spec fn view(&self) -> OpOf<Seq<char>, Seq<PlacedView>> {
        match *self {
            OpOf::MoveTo { x, y } => OpOf::MoveTo { x, y },
            OpOf::Hide => OpOf::Hide,
            OpOf::Show => OpOf::Show,
            OpOf::ClearFromCursorDown => OpOf::ClearFromCursorDown,
            OpOf::ClearUntilNewLine => OpOf::ClearUntilNewLine,
            OpOf::Print(text) => OpOf::Print(text@),
            OpOf::SetColors { fg, bg } => OpOf::SetColors { fg, bg },
            OpOf::SetForegroundColor(color) => OpOf::SetForegroundColor(color),
            OpOf::SetBackgroundColor(color) => OpOf::SetBackgroundColor(color),
            OpOf::SetAttribute(attribute) => OpOf::SetAttribute(attribute),
            OpOf::ScrollUp(region) => OpOf::ScrollUp(region),
            OpOf::ScrollDown(region) => OpOf::ScrollDown(region),
            OpOf::AppendLines(n) => OpOf::AppendLines(n),
            OpOf::DrawCells(cells) => OpOf::DrawCells(cells@.map_values(|c: Placed| c@)),
            OpOf::BeginSynchronizedUpdate => OpOf::BeginSynchronizedUpdate,
            OpOf::EndSynchronizedUpdate => OpOf::EndSynchronizedUpdate,
            OpOf::Flush => OpOf::Flush,
            OpOf::FlushWriter => OpOf::FlushWriter,
        }
    }
}

impl Clone for OpOf<String, Vec<Placed>> {
    fn clone(&self) -> (r: OpOf<String, Vec<Placed>>)
        ensures
            r@ == self@,
    {
        match self {
            OpOf::MoveTo { x, y } => OpOf::MoveTo { x: *x, y: *y },
            OpOf::Hide => OpOf::Hide,
            OpOf::Show => OpOf::Show,
            OpOf::ClearFromCursorDown => OpOf::ClearFromCursorDown,
            OpOf::ClearUntilNewLine => OpOf::ClearUntilNewLine,
            OpOf::Print(text) => OpOf::Print(text.clone()),
            OpOf::SetColors { fg, bg } => OpOf::SetColors { fg: *fg, bg: *bg },
            OpOf::SetForegroundColor(color) => OpOf::SetForegroundColor(*color),
            OpOf::SetBackgroundColor(color) => OpOf::SetBackgroundColor(*color),
            OpOf::SetAttribute(attribute) => OpOf::SetAttribute(*attribute),
            OpOf::ScrollUp(region) => OpOf::ScrollUp(*region),
            OpOf::ScrollDown(region) => OpOf::ScrollDown(*region),
            OpOf::AppendLines(n) => OpOf::AppendLines(*n),
            OpOf::DrawCells(cells) => OpOf::DrawCells(clone_cells(cells)),
            OpOf::BeginSynchronizedUpdate => OpOf::BeginSynchronizedUpdate,
            OpOf::EndSynchronizedUpdate => OpOf::EndSynchronizedUpdate,
            OpOf::Flush => OpOf::Flush,
            OpOf::FlushWriter => OpOf::FlushWriter,
        }
    }
}

/// What several operations hold.
pub open spec fn views(ops: Seq<Op>) -> Seq<OpView> {
    ops.map_values(|op: Op| op@)
}

/// Several operations, once more.
pub(crate) fn clone_ops(ops: &Vec<Op>) -> (r: Vec<Op>)
    ensures
        views(r@) == views(ops@),
{
    let mut copy: Vec<Op> = Vec::new();
    let mut i: usize = 0;
    while i < ops.len()
        invariant
            i <= ops.len(),
            copy@.len() == i,
            forall|k: int| 0 <= k < i ==> (#[trigger] copy@[k])@ == ops@[k]@,
        decreases ops.len() - i,
    {
        copy.push(ops[i].clone());
        i += 1;
    }
    assert(views(copy@) =~= views(ops@));
    copy
}

/// Appends an operation.
pub(crate) fn push(ops: &mut Vec<Op>, op: Op)
    ensures
        views(final(ops)@) == views(old(ops)@).push(op@),
{
    ops.push(op);
    assert(views(ops@) =~= views(old(ops)@).push(op@));
}

/// Appending twice is appending both at once.
pub(crate) proof fn lemma_append_twice(a: Seq<OpView>, b: Seq<OpView>, c: Seq<OpView>)
    ensures
        (a + b) + c == a + (b + c),
{
    assert((a + b) + c =~= a + (b + c));
}

/// Appends several operations.
pub(crate) fn append(ops: &mut Vec<Op>, more: Vec<Op>)
    ensures
        views(final(ops)@) == views(old(ops)@) + views(more@),
{
    let mut more = more;
    let ghost added = more@;
    ops.append(&mut more);
    assert(views(ops@) =~= views(old(ops)@) + views(added));
}

/// A digit.
pub open spec fn digit(d: nat) -> char {
    (48 + d) as u8 as char
}

/// A number in decimal, without leading zeros.
pub open spec fn decimal(n: nat) -> Seq<char>
    decreases n,
{
    if n < 10 {
        seq![digit(n)]
    } else {
        decimal(n / 10).push(digit(n % 10))
    }
}

/// Appends a number in decimal.
pub(crate) fn push_decimal(text: &mut String, n: u128)
    ensures
        final(text)@ == old(text)@ + decimal(n as nat),
    decreases n,
{
    if n >= 10 {
        push_decimal(text, n / 10);
    }
    let d: u8 = (n % 10) as u8;
    text.push((48 + d) as char);
    assert(text@ =~= old(text)@ + decimal(n as nat));
}

/// The control sequence of an escape, a bracket, the numbers `a` and `b` and a final letter.
pub open spec fn pair_sequence(a: u16, b: u16, letter: char) -> Seq<char> {
    seq!['\u{1b}', '['] + decimal(a as nat) + seq![';'] + decimal(b as nat) + seq![letter]
}

/// The control sequence of an escape, a bracket, the number `n` and a final letter.
pub open spec fn single_sequence(n: u16, letter: char) -> Seq<char> {
    seq!['\u{1b}', '['] + decimal(n as nat) + seq![letter]
}

/// The control sequence that makes the whole screen scroll again.
pub open spec fn reset_sequence() -> Seq<char> {
    seq!['\u{1b}', '[', 'r']
}

/// Appends a control sequence of two numbers.
fn push_pair(text: &mut String, a: u16, b: u16, letter: char)
    ensures
        final(text)@ == old(text)@ + pair_sequence(a, b, letter),
{
    text.push('\u{1b}');
    text.push('[');
    push_decimal(text, a as u128);
    text.push(';');
    push_decimal(text, b as u128);
    text.push(letter);
    assert(text@ =~= old(text)@ + pair_sequence(a, b, letter));
}

/// Appends a control sequence of one number.
fn push_single(text: &mut String, n: u16, letter: char)
    ensures
        final(text)@ == old(text)@ + single_sequence(n, letter),
{
    text.push('\u{1b}');
    text.push('[');
    push_decimal(text, n as u128);
    text.push(letter);
    assert(text@ =~= old(text)@ + single_sequence(n, letter));
}

/// Appends the control sequence that makes the whole screen scroll again.
fn push_reset(text: &mut String)
    ensures
        final(text)@ == old(text)@ + reset_sequence(),
{
    text.push('\u{1b}');
    text.push('[');
    text.push('r');
    assert(text@ =~= old(text)@ + reset_sequence());
}

/// The text that scrolls the rows `first` to `last` by `n`, in the direction of `letter`: it
/// bounds the scrolling to the rows, counted from one, scrolls, and lifts the bound again.
pub open spec fn scroll_text(first: u16, last: u16, n: u16, letter: char) -> Seq<char> {
    if n == 0 {
        Seq::empty()
    } else {
        pair_sequence(crate::geometry::plus(first, 1), crate::geometry::plus(last, 1), 'r')
            + single_sequence(n, letter) + reset_sequence()
    }
}

/// The text that scrolls the rows `first` to `last` by `n`.
fn scroll_ansi(first: u16, last: u16, n: u16, letter: char) -> (r: String)
    ensures
        r@ == scroll_text(first, last, n, letter),
{
    let mut text: String = String::new();
    if n > 0 {
        push_pair(&mut text, first.saturating_add(1), last.saturating_add(1), 'r');
        push_single(&mut text, n, letter);
        push_reset(&mut text);
    }
    assert(text@ =~= scroll_text(first, last, n, letter));
    text
}

impl ScrollUpInRegion {
    /// The text that tells a terminal to scroll up.
    pub fn write_ansi(&self) -> (r: String)
        ensures
            r@ == scroll_text(self.first_row, self.last_row, self.lines_to_scroll, 'S'),
    {
        scroll_ansi(self.first_row, self.last_row, self.lines_to_scroll, 'S')
    }
}

impl ScrollDownInRegion {
    /// The text that tells a terminal to scroll down.
    pub fn write_ansi(&self) -> (r: String)
        ensures
            r@ == scroll_text(self.first_row, self.last_row, self.lines_to_scroll, 'T'),
    {
        scroll_ansi(self.first_row, self.last_row, self.lines_to_scroll, 'T')
    }
}

/// Bounds scrolling to a range of rows.
#[derive(Debug, PartialEq, Eq)]
pub struct SetScrollRegion(pub std::ops::Range<u16>);

impl Clone for SetScrollRegion {
    fn clone(&self) -> (r: SetScrollRegion)
        ensures
            r == *self,
    {
        SetScrollRegion(self.0.start..self.0.end)
    }
}

impl SetScrollRegion {
    /// The text that tells a terminal to bound scrolling.
    pub fn write_ansi(&self) -> (r: String)
        ensures
            r@ == pair_sequence(self.0.start, self.0.end, 'r'),
    {
        let mut text: String = String::new();
        push_pair(&mut text, self.0.start, self.0.end, 'r');
        assert(text@ =~= pair_sequence(self.0.start, self.0.end, 'r'));
        text
    }
}

/// Lifts the bound of scrolling.
#[derive(Debug, Clone, Copy, PartialEq, Eq)]
pub struct ResetScrollRegion;

impl ResetScrollRegion {
    /// The text that tells a terminal to scroll the whole screen again.
    pub fn write_ansi(&self) -> (r: String)
        ensures
            r@ == reset_sequence(),
    {
        let mut text: String = String::new();
        push_reset(&mut text);
        assert(text@ =~= reset_sequence());
        text
    }
}

/// Whether the operation `n` stands in a synchronized update: one has begun before it, and has not
/// ended.
pub open spec fn in_update(ops: Seq<OpView>, n: int) -> bool
    decreases n,
{
    if n <= 0 {
        false
    } else {
        match ops[n - 1] {
            OpOf::BeginSynchronizedUpdate => true,
            OpOf::EndSynchronizedUpdate => false,
            _ => in_update(ops, n - 1),
        }
    }
}

/// Where the synchronized update that the operation before `n` stands in ends.
pub open spec fn update_end(ops: Seq<OpView>, n: int) -> int
    decreases ops.len() - n,
{
    if n >= ops.len() || ops[n] is EndSynchronizedUpdate {
        n
    } else {
        update_end(ops, n + 1)
    }
}

/// Where to go on once the operation `n` has failed: a synchronized update is still ended, and
/// nothing else is done.
pub open spec fn resumption(ops: Seq<OpView>, n: int) -> int {
    if ops[n] !is EndSynchronizedUpdate && in_update(ops, n) {
        update_end(ops, n + 1)
    } else {
        ops.len() as int
    }
}

/// Where to go on once the operation `failed` has failed.
pub fn resume_at(ops: &Vec<Op>, failed: usize) -> (r: usize)
    requires
        failed < ops@.len(),
    ensures
        r == resumption(views(ops@), failed as int),
{
    let ghost all = views(ops@);
    let len: usize = ops.len();
    let mut n: usize = failed;
    let mut inside: bool = false;
    while n > 0
        invariant_except_break
            !inside,
            in_update(all, n as int) == in_update(all, failed as int),
        invariant
            n <= failed < ops@.len(),
            all == views(ops@),
        ensures
            inside == in_update(all, failed as int),
        decreases n,
    {
        match &ops[n - 1] {
            OpOf::BeginSynchronizedUpdate => {
                inside = true;
                break;
            },
            OpOf::EndSynchronizedUpdate => {
                break;
            },
            _ => {},
        }
        n -= 1;
    }
    if let OpOf::EndSynchronizedUpdate = &ops[failed] {
        inside = false;
    }
    if !inside {
        return len;
    }
    let mut end: usize = failed + 1;
    while end < len
        invariant_except_break
            update_end(all, end as int) == update_end(all, failed + 1),
        invariant
            failed < end <= len == ops@.len(),
            all == views(ops@),
        ensures
            end == update_end(all, failed + 1),
        decreases len - end,
    {
        if let OpOf::EndSynchronizedUpdate = &ops[end] {
            break;
        }
        end += 1;
    }
    end
}

/// The first of three results that is an error, else the last one.
pub open spec fn first_error<E>(
    first: Result<(), E>,
    second: Result<(), E>,
    third: Result<(), E>,
) -> Result<(), E> {
    if first is Err {
        first
    } else if second is Err {
        second
    } else {
        third
    }
}

/// What three steps come to that are all taken: the first error.
pub fn outcome<E>(
    first: Result<(), E>,
    second: Result<(), E>,
    third: Result<(), E>,
) -> (r: Result<(), E>)
    ensures
        r == first_error(first, second, third),
{
    match first {
        Err(error) => Err(error),
        Ok(()) => match second {
            Err(error) => Err(error),
            Ok(()) => third,
        },
    }
}

/// The number that a digit stands for.
pub open spec fn digit_value(ch: char) -> int {
    ch as int - '0' as int
}

/// The number that a text of digits stands for, the last digit counting the ones.
pub open spec fn number_value(text: Seq<char>) -> int
    decreases text.len(),
{
    if text.len() == 0 {
        0
    } else {
        number_value(text.drop_last()) * 10 + digit_value(text.last())
    }
}

/// A number in decimal is written by digits alone, stands for the number and starts with no zero,
/// unless it is zero.
pub proof fn law_decimals_stand_for_their_number(n: nat, i: int)
    ensures
        number_value(decimal(n)) == n,
        decimal(n).len() > 0,
        0 <= i < decimal(n).len() ==> '0' <= decimal(n)[i] <= '9',
        n > 0 ==> decimal(n)[0] != '0',
        n < 10 ==> decimal(n).len() == 1,
    decreases n,
{
    let text = decimal(n);
    if n < 10 {
        assert(text.drop_last() =~= Seq::empty());
        assert(number_value(text.drop_last()) == 0);
    } else {
        law_decimals_stand_for_their_number(n / 10, i);
        law_decimals_stand_for_their_number(n / 10, 0);
        assert(text.drop_last() =~= decimal(n / 10));
        assert(text[0] == decimal(n / 10)[0]);
        if 0 <= i < text.len() - 1 {
            assert(text[i] == decimal(n / 10)[i]);
        }
    }
}

/// The text that scrolls rows bounds the scrolling to them, counted from one, scrolls by as many
/// rows as said, and lifts the bound. Where nothing is to be scrolled, it is empty.
pub proof fn law_scrolling_is_bounded_to_its_rows(first: u16, last: u16, n: u16, letter: char)
    requires
        last < u16::MAX,
        first <= last,
    ensures
        n == 0 ==> scroll_text(first, last, n, letter).len() == 0,
        n > 0 ==> scroll_text(first, last, n, letter) == seq!['\u{1b}', '['] + decimal(
            (first + 1) as nat,
        ) + seq![';'] + decimal((last + 1) as nat) + seq!['r', '\u{1b}', '['] + decimal(n as nat)
            + seq![letter, '\u{1b}', '[', 'r'],
{
    if n > 0 {
        assert(scroll_text(first, last, n, letter) =~= seq!['\u{1b}', '['] + decimal(
            (first + 1) as nat,
        ) + seq![';'] + decimal((last + 1) as nat) + seq!['r', '\u{1b}', '['] + decimal(n as nat)
            + seq![letter, '\u{1b}', '[', 'r']);
    }
}

/// Behind the start of an update that has not ended an operation stands in it.
proof fn lemma_in_update(ops: Seq<OpView>, n: int, b: int)
    requires
        0 <= b < n <= ops.len(),
        ops[b] is BeginSynchronizedUpdate,
        forall|i: int| b < i < n ==> (#[trigger] ops[i]) !is EndSynchronizedUpdate,
    ensures
        in_update(ops, n),
    decreases n,
{
    if n - 1 > b {
        assert(ops[n - 1] !is EndSynchronizedUpdate);
        lemma_in_update(ops, n - 1, b);
    }
}

/// An operation in an update has the start of it before it.
proof fn lemma_update_began(ops: Seq<OpView>, n: int)
    requires
        0 <= n <= ops.len(),
        in_update(ops, n),
    ensures
        exists|b: int|
            0 <= b < n && (#[trigger] ops[b]) is BeginSynchronizedUpdate && forall|i: int|
                b < i < n ==> (#[trigger] ops[i]) !is EndSynchronizedUpdate,
    decreases n,
{
    if ops[n - 1] is BeginSynchronizedUpdate {
        assert(ops[n - 1] is BeginSynchronizedUpdate);
    } else {
        lemma_update_began(ops, n - 1);
        let b = choose|b: int|
            0 <= b < n - 1 && (#[trigger] ops[b]) is BeginSynchronizedUpdate && forall|i: int|
                b < i < n - 1 ==> (#[trigger] ops[i]) !is EndSynchronizedUpdate;
        assert(ops[b] is BeginSynchronizedUpdate);
    }
}

/// The first operation from `n` on that ends an update.
proof fn lemma_update_end(ops: Seq<OpView>, n: int)
    requires
        0 <= n <= ops.len(),
    ensures
        n <= update_end(ops, n) <= ops.len(),
        update_end(ops, n) < ops.len() ==> ops[update_end(ops, n)] is EndSynchronizedUpdate,
        forall|i: int|
            n <= i < update_end(ops, n) ==> (#[trigger] ops[i]) !is EndSynchronizedUpdate,
    decreases ops.len() - n,
{
    if n < ops.len() && ops[n] !is EndSynchronizedUpdate {
        lemma_update_end(ops, n + 1);
    }
}

/// Whether the operation `n` stands in an update: one began before it, and none of those between
/// ended it.
pub open spec fn stands_in_update(ops: Seq<OpView>, n: int) -> bool {
    exists|b: int|
        0 <= b < n && (#[trigger] ops[b]) is BeginSynchronizedUpdate && forall|i: int|
            b < i < n ==> (#[trigger] ops[i]) !is EndSynchronizedUpdate
}

/// Once an operation has failed that stands in an update, and does not end it, it goes on with the
/// first one behind it that ends the update. Once any other has failed, nothing more is done.
pub proof fn law_failed_update_is_ended(ops: Seq<OpView>, n: int)
    requires
        0 <= n < ops.len(),
    ensures
        ({
            let next = resumption(ops, n);
            let open = stands_in_update(ops, n) && ops[n] !is EndSynchronizedUpdate;
            &&& n < next <= ops.len()
            &&& !open ==> next == ops.len()
            &&& open && next < ops.len() ==> ops[next] is EndSynchronizedUpdate
            &&& open ==> forall|i: int|
                n < i < next ==> (#[trigger] ops[i]) !is EndSynchronizedUpdate
        }),
{
    if in_update(ops, n) {
        lemma_update_began(ops, n);
    }
    if stands_in_update(ops, n) {
        let b = choose|b: int|
            0 <= b < n && (#[trigger] ops[b]) is BeginSynchronizedUpdate && forall|i: int|
                b < i < n ==> (#[trigger] ops[i]) !is EndSynchronizedUpdate;
        lemma_in_update(ops, n, b);
    }
    lemma_update_end(ops, n + 1);
}

/// What three steps come to is an error if one of them is, and then the error of the first that is.
pub proof fn law_first_error_counts<E>(
    first: Result<(), E>,
    second: Result<(), E>,
    third: Result<(), E>,
)
    ensures
        first_error(first, second, third) is Ok <==> first is Ok && second is Ok && third is Ok,
        first matches Err(e) ==> first_error(first, second, third) == Err::<(), E>(e),
        first is Ok && second is Err ==> first_error(first, second, third) == second,
        first is Ok && second is Ok ==> first_error(first, second, third) == third,
{
}

} // verus!
