//! Lines of a trace of what was decided, for a file that the environment names.

use vstd::prelude::*;

use crate::command;
use crate::command::push_decimal;
use crate::text::chars_of;

verus! {

/// Whether `char::is_whitespace` holds of a character.
pub uninterp spec fn white_space(ch: char) -> bool;

/// `char::is_whitespace`: whether a character has the Unicode property `White_Space`, a function
/// of the character alone.
#[verifier::external_body]
fn is_white_space(ch: char) -> (r: bool)
    ensures
        r == white_space(ch),
{
    ch.is_whitespace()
}

/// How many of the first `n` characters of a text are left once white space is cut off at their
/// end.
pub open spec fn trimmed_end(text: Seq<char>, n: nat) -> nat
    decreases n,
{
    if n > 0 && white_space(text[n - 1]) {
        trimmed_end(text, (n - 1) as nat)
    } else {
        n
    }
}

/// The first of the characters `from` to before `end` of a text that is no white space.
pub open spec fn trimmed_start(text: Seq<char>, from: int, end: int) -> int
    decreases end - from,
{
    if from < end && white_space(text[from]) {
        trimmed_start(text, from + 1, end)
    } else {
        from
    }
}

/// A text without the white space at its start and at its end.
pub open spec fn trimmed(text: Seq<char>) -> Seq<char> {
    let end = trimmed_end(text, text.len()) as int;
    text.subrange(trimmed_start(text, 0, end), end)
}

/// A character, in lower case if it is an ASCII letter.
pub open spec fn ascii_lower(ch: char) -> char {
    if 'A' <= ch <= 'Z' {
        (ch as u8 + 32) as u8 as char
    } else {
        ch
    }
}

/// Whether two texts are the same but for the case of ASCII letters.
pub open spec fn same_word(a: Seq<char>, b: Seq<char>) -> bool {
    a.len() == b.len() && forall|i: int|
        0 <= i < a.len() ==> ascii_lower(#[trigger] a[i]) == ascii_lower(b[i])
}

/// The file that a value of the environment names: none where it is empty, `0` or `false`, a
/// fixed one where it is `1` or `true`, and else the value itself, without the white space around
/// it.
pub open spec fn trace_path(value: Seq<char>) -> Option<Seq<char>> {
    let name = trimmed(value);
    if name.len() == 0 || name == "0"@ || same_word(name, "false"@) {
        None
    } else if name == "1"@ || same_word(name, "true"@) {
        Some("/tmp/lilterm-trace.log"@)
    } else {
        Some(name)
    }
}

/// A character, in lower case if it is an ASCII letter.
fn to_ascii_lower(ch: char) -> (r: char)
    ensures
        r == ascii_lower(ch),
{
    if 'A' <= ch && ch <= 'Z' {
        (ch as u8 + 32) as char
    } else {
        ch
    }
}

/// Whether two texts are the same but for the case of ASCII letters.
fn is_same_word(a: &Vec<char>, b: &str) -> (r: bool)
    ensures
        r == same_word(a@, b@),
{
    let other: Vec<char> = chars_of(b);
    if a.len() != other.len() {
        return false;
    }
    let mut i: usize = 0;
    while i < a.len()
        invariant
            i <= a@.len() == other@.len(),
            other@ == b@,
            forall|k: int| 0 <= k < i ==> ascii_lower(#[trigger] a@[k]) == ascii_lower(b@[k]),
        decreases a.len() - i,
    {
        if to_ascii_lower(a[i]) != to_ascii_lower(other[i]) {
            return false;
        }
        i += 1;
    }
    true
}

/// Whether two texts are the same.
fn is_same(a: &Vec<char>, b: &str) -> (r: bool)
    ensures
        r == (a@ == b@),
{
    let other: Vec<char> = chars_of(b);
    if a.len() != other.len() {
        return false;
    }
    let mut i: usize = 0;
    while i < a.len()
        invariant
            i <= a@.len() == other@.len(),
            other@ == b@,
            forall|k: int| 0 <= k < i ==> #[trigger] a@[k] == b@[k],
        decreases a.len() - i,
    {
        if a[i] != other[i] {
            return false;
        }
        i += 1;
    }
    assert(a@ =~= b@);
    true
}

/// The characters of a text without the white space at its start and at its end.
fn trim(value: &str) -> (r: Vec<char>)
    ensures
        r@ == trimmed(value@),
{
    let chars: Vec<char> = chars_of(value);
    let mut end: usize = chars.len();
    while end > 0 && is_white_space(chars[end - 1])
        invariant
            end <= chars@.len(),
            chars@ == value@,
            trimmed_end(value@, end as nat) == trimmed_end(value@, value@.len()),
        decreases end,
    {
        end -= 1;
    }
    let mut start: usize = 0;
    while start < end && is_white_space(chars[start])
        invariant
            start <= end <= chars@.len(),
            chars@ == value@,
            trimmed_start(value@, start as int, end as int) == trimmed_start(
                value@,
                0,
                end as int,
            ),
        decreases end - start,
    {
        start += 1;
    }
    let mut kept: Vec<char> = Vec::new();
    let mut i: usize = start;
    while i < end
        invariant
            start <= i <= end <= chars@.len(),
            chars@ == value@,
            kept@ == value@.subrange(start as int, i as int),
        decreases end - i,
    {
        kept.push(chars[i]);
        i += 1;
        assert(kept@ =~= value@.subrange(start as int, i as int));
    }
    kept
}

/// A text of characters.
fn text_of(chars: &Vec<char>) -> (r: String)
    ensures
        r@ == chars@,
{
    let mut text: String = String::new();
    let mut i: usize = 0;
    while i < chars.len()
        invariant
            i <= chars@.len(),
            text@ == chars@.take(i as int),
        decreases chars.len() - i,
    {
        text.push(chars[i]);
        i += 1;
        assert(text@ =~= chars@.take(i as int));
    }
    assert(chars@.take(i as int) =~= chars@);
    text
}

/// The file that a trace goes to, if the environment names one.
pub fn configured_path(value: Option<&str>) -> (r: Option<String>)
    ensures
        r is Some <==> value is Some && trace_path(value->0@) is Some,
        r is Some ==> Some(r->0@) == trace_path(value->0@),
{
    let name: Vec<char> = match value {
        Some(value) => trim(value),
        None => {
            return None;
        },
    };
    if name.len() == 0 || is_same(&name, "0") || is_same_word(&name, "false") {
        None
    } else if is_same(&name, "1") || is_same_word(&name, "true") {
        Some("/tmp/lilterm-trace.log".to_owned())
    } else {
        Some(text_of(&name))
    }
}

/// What is written to the trace, and which message was last written for each key.
pub struct Trace {
    path: Option<String>,
    keys: Vec<String>,
    messages: Vec<String>,
}

/// What a trace holds.
#[verifier::ext_equal]
pub struct TraceView {
    /// The file that the trace goes to, if there is one.
    pub path: Option<Seq<char>>,
    /// The message that was last written for each key.
    pub last: Map<Seq<char>, Seq<char>>,
}

/// The messages by their keys.
pub open spec fn by_key(keys: Seq<String>, messages: Seq<String>) -> Map<Seq<char>, Seq<char>>
    decreases keys.len(),
{
    if keys.len() == 0 {
        Map::empty()
    } else {
        by_key(keys.drop_last(), messages.drop_last()).insert(keys.last()@, messages.last()@)
    }
}

/// Whether no two keys are the same.
pub open spec fn distinct(keys: Seq<String>) -> bool {
    forall|i: int, j: int| 0 <= i < j < keys.len() ==> (#[trigger] keys[i])@ != (#[trigger] keys[j])@
}

/// The keys are exactly those that are listed.
proof fn lemma_keys(keys: Seq<String>, messages: Seq<String>, key: Seq<char>)
    requires
        keys.len() == messages.len(),
    ensures
        by_key(keys, messages).dom().contains(key) <==> exists|i: int|
            0 <= i < keys.len() && (#[trigger] keys[i])@ == key,
    decreases keys.len(),
{
    if keys.len() > 0 {
        let n = keys.len() - 1;
        lemma_keys(keys.drop_last(), messages.drop_last(), key);
        assert forall|i: int| 0 <= i < n implies #[trigger] keys[i] == keys.drop_last()[i] by {}
        if keys[n]@ != key && by_key(keys, messages).dom().contains(key) {
            let i = choose|i: int|
                0 <= i < keys.drop_last().len() && (#[trigger] keys.drop_last()[i])@ == key;
            assert(keys[i]@ == key);
        }
        if exists|i: int| 0 <= i < keys.len() && (#[trigger] keys[i])@ == key {
            let i = choose|i: int| 0 <= i < keys.len() && (#[trigger] keys[i])@ == key;
            if i < n {
                assert(keys.drop_last()[i]@ == key);
            }
        }
    }
}

/// Each key has the message that is listed for it.
proof fn lemma_message(keys: Seq<String>, messages: Seq<String>, i: int)
    requires
        keys.len() == messages.len(),
        distinct(keys),
        0 <= i < keys.len(),
    ensures
        by_key(keys, messages).dom().contains(keys[i]@),
        by_key(keys, messages)[keys[i]@] == messages[i]@,
    decreases keys.len(),
{
    let n = keys.len() - 1;
    if i < n {
        assert forall|a: int, b: int| 0 <= a < b < n implies (
        #[trigger] keys.drop_last()[a])@ != (#[trigger] keys.drop_last()[b])@ by {
            assert(keys[a]@ != keys[b]@);
        }
        lemma_message(keys.drop_last(), messages.drop_last(), i);
        assert(keys[i]@ != keys[n]@);
    }
}

/// A new message for a listed key replaces the one before.
proof fn lemma_replaced(keys: Seq<String>, messages: Seq<String>, i: int, message: String)
    requires
        keys.len() == messages.len(),
        distinct(keys),
        0 <= i < keys.len(),
    ensures
        by_key(keys, messages.update(i, message)) == by_key(keys, messages).insert(
            keys[i]@,
            message@,
        ),
    decreases keys.len(),
{
    let n = keys.len() - 1;
    let updated = messages.update(i, message);
    if i < n {
        assert forall|a: int, b: int| 0 <= a < b < n implies (
        #[trigger] keys.drop_last()[a])@ != (#[trigger] keys.drop_last()[b])@ by {
            assert(keys[a]@ != keys[b]@);
        }
        lemma_replaced(keys.drop_last(), messages.drop_last(), i, message);
        assert(updated.drop_last() =~= messages.drop_last().update(i, message));
        assert(keys[i]@ != keys[n]@);
    } else {
        assert(updated.drop_last() =~= messages.drop_last());
    }
    assert(by_key(keys, updated) =~= by_key(keys, messages).insert(keys[i]@, message@));
}

impl View for Trace {
    type V = TraceView;

    closed spec fn view(&self) -> TraceView {
        TraceView {
            path: match self.path {
                Some(path) => Some(path@),
                None => None,
            },
            last: by_key(self.keys@, self.messages@),
        }
    }
}

/// A line of the trace: the time in milliseconds, the process and the message.
pub open spec fn trace_line(millis: u128, pid: u32, message: Seq<char>) -> Seq<char> {
    command::decimal(millis as nat) + " pid="@ + command::decimal(pid as nat) + " "@ + message
        + "\n"@
}

impl TraceView {
    /// Whether a message for a key is another one than was last written for it.
    pub open spec fn is_news(self, key: Seq<char>, message: Seq<char>) -> bool {
        !(self.last.dom().contains(key) && self.last[key] == message)
    }

    /// The trace once a message has been written for a key, if it is written at all.
    pub open spec fn noted(self, key: Seq<char>, message: Seq<char>) -> TraceView {
        if self.path is Some {
            TraceView { last: self.last.insert(key, message), ..self }
        } else {
            self
        }
    }
}

/// A message that has just been written for a key is no news for it, and no other key is touched.
pub proof fn law_repeated_message_is_no_news(
    trace: TraceView,
    key: Seq<char>,
    message: Seq<char>,
    other: Seq<char>,
    text: Seq<char>,
)
    requires
        trace.path is Some,
        other != key,
    ensures
        !trace.noted(key, message).is_news(key, message),
        trace.noted(key, message).is_news(other, text) == trace.is_news(other, text),
{
}

impl Trace {
    /// Whether each key has one message.
    pub closed spec fn wf(self) -> bool {
        self.keys@.len() == self.messages@.len() && distinct(self.keys@)
    }

    /// A trace that nothing has been written to, into the file that the environment names.
    pub fn new(value: Option<&str>) -> (r: Trace)
        ensures
            r.wf(),
            r@ == (TraceView {
                path: match value {
                    Some(value) => trace_path(value@),
                    None => None,
                },
                last: Map::empty(),
            }),
    {
        Trace { path: configured_path(value), keys: Vec::new(), messages: Vec::new() }
    }

    /// The file that the trace goes to.
    pub fn path(&self) -> (r: Option<&str>)
        ensures
            r is Some <==> self@.path is Some,
            r is Some ==> self@.path == Some(r->0@),
    {
        match &self.path {
            Some(path) => Some(path.as_str()),
            None => None,
        }
    }

    /// Where a key is listed.
    fn find(&self, key: &String) -> (r: Option<usize>)
        requires
            self.wf(),
        ensures
            r is Some ==> r->0 < self.keys@.len() && self.keys@[r->0 as int]@ == key@,
            r is Some <==> self@.last.dom().contains(key@),
    {
        proof {
            lemma_keys(self.keys@, self.messages@, key@);
        }
        let mut i: usize = 0;
        while i < self.keys.len()
            invariant
                i <= self.keys.len(),
                forall|k: int| 0 <= k < i ==> (#[trigger] self.keys@[k])@ != key@,
                self@.last.dom().contains(key@) <==> exists|k: int|
                    0 <= k < self.keys@.len() && (#[trigger] self.keys@[k])@ == key@,
            decreases self.keys.len() - i,
        {
            if self.keys[i] == *key {
                return Some(i);
            }
            i += 1;
        }
        None
    }
}

/// Whether a trace is written.
pub fn enabled(trace: &Trace) -> (r: bool)
    ensures
        r == (trace@.path is Some),
{
    trace.path.is_some()
}

/// The line to write to the trace for a message, if a trace is written.
pub fn log(trace: &Trace, millis: u128, pid: u32, message: &str) -> (r: Option<String>)
    ensures
        r is Some <==> trace@.path is Some,
        r is Some ==> r->0@ == trace_line(millis, pid, message@),
{
    if !enabled(trace) {
        return None;
    }
    let mut line: String = String::new();
    push_decimal(&mut line, millis);
    line.append(" pid=");
    push_decimal(&mut line, pid as u128);
    line.append(" ");
    line.append(message);
    line.append("\n");
    assert(line@ =~= trace_line(millis, pid, message@));
    Some(line)
}

/// The line to write to the trace for a message with a key, if a trace is written and the message
/// is another one than was last written for the key.
pub fn log_changed(
    trace: &mut Trace,
    key: &str,
    message: &str,
    millis: u128,
    pid: u32,
) -> (r: Option<String>)
    requires
        old(trace).wf(),
    ensures
        final(trace).wf(),
        final(trace)@ == old(trace)@.noted(key@, message@),
        r is Some <==> old(trace)@.path is Some && old(trace)@.is_news(key@, message@),
        r is Some ==> r->0@ == trace_line(millis, pid, key@ + " "@ + message@),
{
    if !enabled(trace) {
        return None;
    }
    let key_text: String = key.to_owned();
    let message_text: String = message.to_owned();
    let mut line: String = key.to_owned();
    line.append(" ");
    line.append(message);
    match trace.find(&key_text) {
        Some(i) => {
            proof {
                lemma_message(trace.keys@, trace.messages@, i as int);
                lemma_replaced(trace.keys@, trace.messages@, i as int, message_text);
            }
            if trace.messages[i] == message_text {
                assert(trace@.last =~= trace@.last.insert(key@, message@));
                return None;
            }
            trace.messages.set(i, message_text);
        },
        None => {
            proof {
                lemma_keys(trace.keys@, trace.messages@, key@);
            }
            trace.keys.push(key_text);
            trace.messages.push(message_text);
            assert(trace.keys@.drop_last() =~= old(trace).keys@);
            assert(trace.messages@.drop_last() =~= old(trace).messages@);
        },
    }
    log(trace, millis, pid, line.as_str())
}

/// What is cut off at the end of a text is white space, and what is left ends with none.
proof fn lemma_trimmed_end(text: Seq<char>, n: nat)
    requires
        n <= text.len(),
    ensures
        trimmed_end(text, n) <= n,
        forall|i: int| trimmed_end(text, n) <= i < n ==> white_space(#[trigger] text[i]),
        trimmed_end(text, n) > 0 ==> !white_space(text[trimmed_end(text, n) - 1]),
    decreases n,
{
    if n > 0 && white_space(text[n - 1]) {
        lemma_trimmed_end(text, (n - 1) as nat);
    }
}

/// What is cut off at the start of a text is white space, and what is left starts with none.
proof fn lemma_trimmed_start(text: Seq<char>, from: int, end: int)
    requires
        0 <= from <= end <= text.len(),
    ensures
        from <= trimmed_start(text, from, end) <= end,
        forall|i: int|
            from <= i < trimmed_start(text, from, end) ==> white_space(#[trigger] text[i]),
        trimmed_start(text, from, end) < end ==> !white_space(
            text[trimmed_start(text, from, end)],
        ),
    decreases end - from,
{
    if from < end && white_space(text[from]) {
        lemma_trimmed_start(text, from + 1, end);
    }
}

/// A trimmed text is a part of the text that neither starts nor ends with white space, and all that
/// is cut off is white space.
pub proof fn law_trimming_cuts_white_space(text: Seq<char>)
    ensures
        exists|a: int, b: int|
            {
                &&& 0 <= a <= b <= text.len()
                &&& #[trigger] text.subrange(a, b) == trimmed(text)
                &&& forall|i: int|
                    0 <= i < a || b <= i < text.len() ==> white_space(#[trigger] text[i])
            },
        trimmed(text).len() > 0 ==> !white_space(trimmed(text)[0]) && !white_space(
            trimmed(text).last(),
        ),
{
    let end = trimmed_end(text, text.len()) as int;
    let start = trimmed_start(text, 0, end);
    lemma_trimmed_end(text, text.len());
    lemma_trimmed_start(text, 0, end);
    assert(text.subrange(start, end) == trimmed(text));
}

/// A trace goes to the file that is named, without the white space around its name. None is written
/// where the name is empty or one of the words that say no, and a fixed file takes the place of the
/// words that say yes, in lower or upper case.
pub proof fn law_trace_goes_to_the_named_file(value: Seq<char>)
    ensures
        ({
            let name = trimmed(value);
            let no = name.len() == 0 || name == "0"@ || same_word(name, "false"@);
            let yes = name == "1"@ || same_word(name, "true"@);
            &&& trace_path(value) is None <==> no
            &&& yes ==> trace_path(value) == Some("/tmp/lilterm-trace.log"@)
            &&& !no && !yes ==> trace_path(value) == Some(name)
        }),
{
    reveal_strlit("0");
    reveal_strlit("1");
    reveal_strlit("false");
    reveal_strlit("true");
    assert("0"@[0] != "1"@[0]);
    let name = trimmed(value);
    if same_word(name, "false"@) && same_word(name, "true"@) {
        assert(name.len() == 5 && name.len() == 4);
    }
}

/// An ASCII letter and the same in the other case are the same letter; any other character is the
/// same as itself alone.
pub proof fn law_words_are_the_same_in_either_case(a: char, b: char)
    ensures
        same_word(seq![a], seq![b]) <==> a == b || ('A' <= a <= 'Z' && b as int == a as int + 32)
            || ('A' <= b <= 'Z' && a as int == b as int + 32),
{
    let x = seq![a];
    let y = seq![b];
    assert(x[0] == a && y[0] == b);
    if ascii_lower(a) == ascii_lower(b) {
        assert(same_word(x, y));
    }
}

/// A message is written for a key just where the one before it was another one, or there was none.
/// Without a file nothing is noted.
pub proof fn law_changed_messages_are_news(
    trace: TraceView,
    key: Seq<char>,
    message: Seq<char>,
    next: Seq<char>,
)
    ensures
        trace.path is Some ==> (trace.noted(key, message).is_news(key, next) <==> next != message),
        !trace.last.dom().contains(key) ==> trace.is_news(key, message),
        trace.path is None ==> trace.noted(key, message) == trace,
        trace.noted(key, message).path == trace.path,
{
}

/// A line of the trace starts with the time, ends with the message and a line feed, and names the
/// process between them.
pub proof fn law_trace_line_holds_its_message(millis: u128, pid: u32, message: Seq<char>)
    ensures
        ({
            let line = trace_line(millis, pid, message);
            let time = command::decimal(millis as nat);
            let n = time.len() as int;
            let process = command::decimal(pid as nat);
            let end = line.len() - 1 - message.len();
            &&& line.subrange(0, n) == time
            &&& line.subrange(n, n + 5) == " pid="@
            &&& line.subrange(n + 5, end - 1) == process
            &&& line[end - 1] == ' '
            &&& line.subrange(end, line.len() - 1) == message
            &&& line.last() == '\n'
        }),
{
    reveal_strlit(" pid=");
    reveal_strlit(" ");
    reveal_strlit("\n");
    let line = trace_line(millis, pid, message);
    let time = command::decimal(millis as nat);
    let n = time.len() as int;
    let process = command::decimal(pid as nat);
    let end = line.len() - 1 - message.len();
    assert(line.subrange(0, n) =~= time);
    assert(line.subrange(n, n + 5) =~= " pid="@);
    assert(line.subrange(n + 5, end - 1) =~= process);
    assert(line.subrange(end, line.len() - 1) =~= message);
}

} // verus!
