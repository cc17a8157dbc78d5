//! Styled text and how many columns it takes on a terminal.

use unicode_width::UnicodeWidthChar;
use unicode_width::UnicodeWidthStr;
use vstd::prelude::*;

use crate::style::Style;

verus! {

/// The escape character.
pub const ESC: char = '\u{1b}';

/// The bell character, which ends an operating system command.
pub const BEL: char = '\u{7}';

/// A run of text in one style.
#[derive(Debug)]
pub struct Span {
    pub content: String,
    pub style: Style,
}

/// A line of text, made of spans that lie on the line's own style.
#[derive(Debug)]
pub struct Line {
    pub spans: Vec<Span>,
    pub style: Style,
}

/// What a span holds.
pub struct SpanView {
    pub content: Seq<char>,
    pub style: Style,
}

/// What a line holds.
#[verifier::ext_equal]
pub struct LineView {
    pub spans: Seq<SpanView>,
    pub style: Style,
}

impl View for Span {
    type V = SpanView;

    open spec fn view(&self) -> SpanView {
        SpanView { content: self.content@, style: self.style }
    }
}

impl View for Line {
    type V = LineView;

    open spec fn view(&self) -> LineView {
        LineView { spans: self.spans@.map_values(|s: Span| s@), style: self.style }
    }
}

impl Clone for Span {
    fn clone(&self) -> (r: Span)
        ensures
            r@ == self@,
    {
        Span { content: self.content.clone(), style: self.style }
    }
}

impl Clone for Line {
    fn clone(&self) -> (r: Line)
        ensures
            r@ == self@,
    {
        let mut spans: Vec<Span> = Vec::new();
        let mut i: usize = 0;
        while i < self.spans.len()
            invariant
                i <= self.spans.len(),
                spans@.len() == i,
                forall|k: int| 0 <= k < i ==> (#[trigger] spans@[k])@ == self.spans@[k]@,
            decreases self.spans.len() - i,
        {
            spans.push(self.spans[i].clone());
            i += 1;
        }
        let line = Line { spans, style: self.style };
        assert(line@.spans =~= self@.spans);
        line
    }
}

impl Line {
    /// The line that holds `text` as one span, in the terminal's own style.
    pub fn raw(text: &str) -> (r: Line)
        ensures
            r@.style == Style::spec_plain(),
            r@.spans =~= seq![SpanView { content: text@, style: Style::spec_plain() }],
    {
        let mut spans: Vec<Span> = Vec::new();
        spans.push(Span { content: text.to_owned(), style: Style::plain() });
        Line { spans, style: Style::plain() }
    }
}

/// How many columns `UnicodeWidthStr::width` gives a text.
pub uninterp spec fn unicode_columns(text: Seq<char>) -> nat;

/// How many columns `UnicodeWidthChar::width` gives a character that is no control character.
pub uninterp spec fn unicode_char_columns(ch: char) -> usize;

/// Whether a character is a control character.
pub open spec fn is_control(ch: char) -> bool {
    ch < '\u{20}' || '\u{7f}' <= ch < '\u{a0}'
}

/// Whether a character is a printable one of ASCII.
pub open spec fn is_printable_ascii(ch: char) -> bool {
    '\u{20}' <= ch <= '\u{7e}'
}

/// Whether all characters of a text are printable ones of ASCII.
pub open spec fn is_ascii(text: Seq<char>) -> bool {
    forall|i: int| 0 <= i < text.len() ==> is_printable_ascii(#[trigger] text[i])
}

/// How many columns a text takes: one for each character where all are printable ones of ASCII.
pub open spec fn text_columns(text: Seq<char>) -> nat {
    if is_ascii(text) {
        text.len()
    } else {
        unicode_columns(text)
    }
}

/// How many columns a character takes: none is given for a control character, and a printable one
/// of ASCII takes one.
pub open spec fn char_columns(ch: char) -> Option<usize> {
    if is_control(ch) {
        None
    } else if is_printable_ascii(ch) {
        Some(1)
    } else {
        Some(unicode_char_columns(ch))
    }
}

/// `UnicodeWidthStr::width`: the columns of a text, a function of its characters alone. A text of
/// printable ASCII characters takes one for each.
#[verifier::external_body]
pub(crate) fn text_width(text: &str) -> (r: usize)
    ensures
        r == (if is_ascii(text@) {
            text@.len()
        } else {
            unicode_columns(text@)
        }),
{
    UnicodeWidthStr::width(text)
}

/// `UnicodeWidthChar::width`: the columns of a character, a function of it alone. None are given
/// exactly for the control characters, and a printable ASCII character takes one.
#[verifier::external_body]
pub(crate) fn char_width(ch: char) -> (r: Option<usize>)
    ensures
        r == (if is_control(ch) {
            None
        } else if is_printable_ascii(ch) {
            Some(1usize)
        } else {
            Some(unicode_char_columns(ch))
        }),
{
    UnicodeWidthChar::width(ch)
}

/// The columns of several texts together.
pub open spec fn total_columns(texts: Seq<Seq<char>>) -> nat
    decreases texts.len(),
{
    if texts.len() == 0 {
        0
    } else {
        total_columns(texts.drop_last()) + text_columns(texts.last())
    }
}

impl LineView {
    /// The columns of the line.
    pub open spec fn columns(self) -> nat {
        total_columns(self.spans.map_values(|s: SpanView| s.content))
    }
}

/// `ratatui::text::Line::width`: the columns of the line's spans together.
#[verifier::external_body]
pub(crate) fn line_width(line: &Line) -> (r: usize)
    ensures
        r == line@.columns(),
{
    let spans = line.spans.iter().map(|s| ratatui::text::Span::raw(s.content.as_str()));
    ratatui::text::Line::from_iter(spans).width()
}

/// `std::string::String::push`: the character is appended.
pub assume_specification[ std::string::String::push ](string: &mut String, ch: char)
    ensures
        final(string)@ == old(string)@.push(ch),
;

/// Where the operating system command whose body starts at `from` ends: behind its bell, or at
/// the end of the text where no bell follows.
pub open spec fn command_end(text: Seq<char>, from: int) -> int
    decreases text.len() - from,
{
    if from >= text.len() {
        text.len() as int
    } else if text[from] == BEL {
        from + 1
    } else {
        command_end(text, from + 1)
    }
}

/// The characters of `text` from `from` on that a terminal shows: those outside of operating
/// system commands, which start with an escape and a closing bracket.
pub open spec fn visible_from(text: Seq<char>, from: int) -> Seq<char>
    decreases text.len() - from,
    when 0 <= from
    via visible_from_decreases
{
    if from >= text.len() {
        Seq::empty()
    } else if text[from] == ESC && from + 1 < text.len() && text[from + 1] == ']' {
        visible_from(text, command_end(text, from + 2))
    } else {
        seq![text[from]] + visible_from(text, from + 1)
    }
}

#[via_fn]
proof fn visible_from_decreases(text: Seq<char>, from: int) {
    if from < text.len() && from + 1 < text.len() {
        lemma_command_end(text, from + 2);
    }
}

proof fn lemma_command_end(text: Seq<char>, from: int)
    ensures
        from <= text.len() ==> from <= command_end(text, from) <= text.len(),
    decreases text.len() - from,
{
    if from < text.len() && text[from] != BEL {
        lemma_command_end(text, from + 1);
    }
}

/// The characters of `text` that a terminal shows.
pub open spec fn visible(text: Seq<char>) -> Seq<char> {
    visible_from(text, 0)
}

/// A text without an escape shows all of its characters.
pub proof fn law_plain_text_is_visible(text: Seq<char>)
    requires
        !text.contains(ESC),
    ensures
        visible(text) == text,
{
    lemma_plain_suffix(text, 0);
    assert(text.subrange(0, text.len() as int) =~= text);
}

proof fn lemma_plain_suffix(text: Seq<char>, from: int)
    requires
        !text.contains(ESC),
        0 <= from <= text.len(),
    ensures
        visible_from(text, from) == text.subrange(from, text.len() as int),
    decreases text.len() - from,
{
    if from < text.len() {
        lemma_plain_suffix(text, from + 1);
        assert(text.contains(text[from]));
        assert(visible_from(text, from) =~= text.subrange(from, text.len() as int));
    } else {
        assert(visible_from(text, from) =~= text.subrange(from, text.len() as int));
    }
}

/// The characters of a text.
pub(crate) fn chars_of(text: &str) -> (r: Vec<char>)
    ensures
        r@ == text@,
{
    let mut chars: Vec<char> = Vec::new();
    for ch in it: text.chars()
        invariant
            chars@ == text@.subrange(0, it.index() as int),
            it.seq() == text@,
            0 <= it.index() <= text@.len(),
    {
        chars.push(ch);
        assert(chars@ =~= text@.subrange(0, it.index() + 1));
    }
    assert(text@.subrange(0, text@.len() as int) =~= text@);
    chars
}

/// How many columns a cell's text takes on the screen: operating system commands in it take none.
pub fn display_width(s: &str) -> (r: usize)
    ensures
        r == text_columns(visible(s@)),
{
    let chars = chars_of(s);
    let mut plain: String = String::new();
    let mut i: usize = 0;
    while i < chars.len()
        invariant
            chars@ == s@,
            i <= chars.len(),
            visible(s@) == plain@ + visible_from(s@, i as int),
        decreases chars.len() - i,
    {
        if chars[i] == ESC && i + 1 < chars.len() && chars[i + 1] == ']' {
            let ghost start = i as int;
            i += 2;
            while i < chars.len() && chars[i] != BEL
                invariant
                    chars@ == s@,
                    start + 2 <= i <= chars.len(),
                    command_end(s@, start + 2) == command_end(s@, i as int),
                decreases chars.len() - i,
            {
                i += 1;
            }
            if i < chars.len() {
                i += 1;
            }
        } else {
            plain.push(chars[i]);
            assert(visible_from(s@, i as int) =~= seq![s@[i as int]] + visible_from(s@, i + 1));
            i += 1;
        }
    }
    assert(plain@ + visible_from(s@, i as int) =~= plain@);
    text_width(plain.as_str())
}

/// Where no bell follows, an operating system command reaches to the end of the text; else it ends
/// behind the first one.
proof fn lemma_command_ends_at_its_bell(text: Seq<char>, from: int, k: int)
    requires
        0 <= from <= k < text.len(),
        text[k] == BEL,
        forall|i: int| from <= i < k ==> (#[trigger] text[i]) != BEL,
    ensures
        command_end(text, from) == k + 1,
    decreases k - from,
{
    if from < k {
        assert(text[from] != BEL);
        lemma_command_ends_at_its_bell(text, from + 1, k);
    }
}

/// What a terminal shows of a text from some place on is what it shows of the rest of the text.
proof fn lemma_visible_rest(text: Seq<char>, from: int)
    requires
        0 <= from <= text.len(),
    ensures
        visible_from(text, from) == visible(text.subrange(from, text.len() as int)),
{
    lemma_visible_shifted(text, from, 0);
}

/// What a terminal shows of a text from some place on does not depend on what stands before.
proof fn lemma_visible_shifted(text: Seq<char>, from: int, k: int)
    requires
        0 <= from,
        0 <= k,
        from + k <= text.len(),
    ensures
        visible_from(text, from + k) == visible_from(
            text.subrange(from, text.len() as int),
            k,
        ),
    decreases text.len() - from - k,
{
    let rest = text.subrange(from, text.len() as int);
    if from + k < text.len() {
        assert(rest[k] == text[from + k]);
        if text[from + k] == ESC && from + k + 1 < text.len() && text[from + k + 1] == ']' {
            assert(rest[k + 1] == text[from + k + 1]);
            lemma_command_shifted(text, from, k + 2);
            lemma_command_end(text, from + k + 2);
            lemma_visible_shifted(text, from, command_end(rest, k + 2));
        } else {
            if k + 1 < rest.len() {
                assert(rest[k + 1] == text[from + k + 1]);
            }
            lemma_visible_shifted(text, from, k + 1);
        }
    }
}

/// Where an operating system command ends does not depend on what stands before it.
proof fn lemma_command_shifted(text: Seq<char>, from: int, k: int)
    requires
        0 <= from,
        0 <= k,
        from + k <= text.len(),
    ensures
        command_end(text, from + k) == from + command_end(
            text.subrange(from, text.len() as int),
            k,
        ),
    decreases text.len() - from - k,
{
    let rest = text.subrange(from, text.len() as int);
    if from + k < text.len() {
        assert(rest[k] == text[from + k]);
        lemma_command_shifted(text, from, k + 1);
    }
}

/// A terminal shows a character that starts no operating system command, and then what it shows of
/// the rest of the text.
pub proof fn law_plain_characters_are_visible(ch: char, rest: Seq<char>)
    requires
        ch != ESC || rest.len() == 0 || rest[0] != ']',
    ensures
        visible(seq![ch] + rest) == seq![ch] + visible(rest),
        visible(Seq::empty()) == Seq::<char>::empty(),
{
    let all = seq![ch] + rest;
    assert(all[0] == ch);
    if rest.len() > 0 {
        assert(all[1] == rest[0]);
    }
    lemma_visible_rest(all, 1);
    assert(all.subrange(1, all.len() as int) =~= rest);
}

/// A terminal shows nothing of an operating system command, up to its bell, and then what it shows
/// of the rest of the text; of one without a bell the text ends with it.
pub proof fn law_operating_system_commands_are_invisible(body: Seq<char>, rest: Seq<char>)
    requires
        !body.contains(BEL),
    ensures
        visible(seq![ESC, ']'] + body + seq![BEL] + rest) == visible(rest),
        visible(seq![ESC, ']'] + body) == Seq::<char>::empty(),
{
    let all = seq![ESC, ']'] + body + seq![BEL] + rest;
    let k = 2 + body.len() as int;
    assert(all[0] == ESC && all[1] == ']' && all[k] == BEL);
    assert forall|i: int| 2 <= i < k implies (#[trigger] all[i]) != BEL by {
        assert(body.contains(body[i - 2]));
        assert(all[i] == body[i - 2]);
    }
    lemma_command_ends_at_its_bell(all, 2, k);
    lemma_visible_rest(all, k + 1);
    assert(all.subrange(k + 1, all.len() as int) =~= rest);
    let open = seq![ESC, ']'] + body;
    assert(open[0] == ESC && open[1] == ']');
    assert forall|i: int| 2 <= i < k implies (#[trigger] open[i]) != BEL by {
        assert(body.contains(body[i - 2]));
        assert(open[i] == body[i - 2]);
    }
    lemma_open_command(open, 2);
    assert(visible_from(open, open.len() as int) =~= Seq::empty());
}

/// An operating system command without a bell reaches to the end of the text.
proof fn lemma_open_command(text: Seq<char>, from: int)
    requires
        0 <= from <= text.len(),
        forall|i: int| from <= i < text.len() ==> (#[trigger] text[i]) != BEL,
    ensures
        command_end(text, from) == text.len(),
    decreases text.len() - from,
{
    if from < text.len() {
        assert(text[from] != BEL);
        lemma_open_command(text, from + 1);
    }
}

/// A text of printable ASCII characters takes as many columns as it has characters, and each of
/// them takes one.
pub proof fn law_ascii_takes_a_column_each(text: Seq<char>, i: int)
    requires
        is_ascii(text),
        0 <= i < text.len(),
    ensures
        text_columns(text) == text.len(),
        char_columns(text[i]) == Some(1usize),
{
}

} // verus!
