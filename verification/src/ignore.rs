//! The effective ignore set of a scan: the caller's patterns, and the
//! bundled default rules where the caller asks for them.

use vstd::prelude::*;
use vstd::string::StrSliceExecFns;
use vstd::utf8::{decode_utf8, valid_utf8};
use crate::text::{chars_of, texts};

verus! {

/// The characters that count as whitespace: those with the Unicode property
/// White_Space.
pub open spec fn is_whitespace(c: char) -> bool {
    let point: u32 = c as u32;
    ||| 0x09 <= point <= 0x0D
    ||| point == 0x20
    ||| point == 0x85
    ||| point == 0xA0
    ||| point == 0x1680
    ||| 0x2000 <= point <= 0x200A
    ||| point == 0x2028
    ||| point == 0x2029
    ||| point == 0x202F
    ||| point == 0x205F
    ||| point == 0x3000
}

/// The text without the whitespace it begins with.
pub open spec fn trim_start(text: Seq<char>) -> Seq<char>
    decreases text.len(),
{
    if text.len() > 0 && is_whitespace(text.first()) {
        trim_start(text.drop_first())
    } else {
        text
    }
}

/// The text without the whitespace it ends with.
pub open spec fn trim_end(text: Seq<char>) -> Seq<char>
    decreases text.len(),
{
    if text.len() > 0 && is_whitespace(text.last()) {
        trim_end(text.drop_last())
    } else {
        text
    }
}

/// The text without the whitespace around it.
pub open spec fn trim(text: Seq<char>) -> Seq<char> {
    trim_end(trim_start(text))
}

/// Where the first line of a text ends: at its first line feed, or at its
/// end if it has none.
pub open spec fn first_line_len(text: Seq<char>) -> nat
    decreases text.len(),
{
    if text.len() == 0 || text.first() == '\n' {
        0
    } else {
        1 + first_line_len(text.drop_first())
    }
}

/// What follows the first line of a text and the line feed that ends it.
pub open spec fn after_first_line(text: Seq<char>) -> Seq<char> {
    if first_line_len(text) < text.len() {
        text.skip(first_line_len(text) as int + 1)
    } else {
        Seq::empty()
    }
}

/// The lines of a text. A line feed ends a line; a text that does not end in
/// one still ends its last line.
pub open spec fn split_lines(text: Seq<char>) -> Seq<Seq<char>>
    decreases text.len(),
{
    if text.len() == 0 {
        Seq::empty()
    } else {
        seq![text.take(first_line_len(text) as int)] + split_lines(after_first_line(text))
    }
}

/// Whether a line of the rules resource holds a pattern: once trimmed it is
/// neither empty nor a comment, which begins with `#`.
pub open spec fn is_rule(line: Seq<char>) -> bool {
    trim(line).len() > 0 && trim(line).first() != '#'
}

/// The patterns that the text of a rules resource holds: its lines that hold
/// a pattern, trimmed, in the order of the text.
pub open spec fn rule_patterns(text: Seq<char>) -> Seq<Seq<char>> {
    split_lines(text).filter(|line: Seq<char>| is_rule(line)).map_values(
        |line: Seq<char>| trim(line),
    )
}

/// Whether a character is whitespace.
pub fn is_whitespace_char(c: char) -> (white: bool)
    ensures
        white == is_whitespace(c),
{
    let point: u32 = c as u32;
    (0x09 <= point && point <= 0x0D) || point == 0x20 || point == 0x85 || point == 0xA0 || point
        == 0x1680 || (0x2000 <= point && point <= 0x200A) || point == 0x2028 || point == 0x2029
        || point == 0x202F || point == 0x205F || point == 0x3000
}

proof fn lemma_first_line_len(text: Seq<char>, at: int)
    requires
        0 <= at <= text.len(),
        forall|i: int| 0 <= i < at ==> text[i] != '\n',
        at == text.len() || text[at] == '\n',
    ensures
        first_line_len(text) == at,
    decreases at,
{
    if at > 0 {
        lemma_first_line_len(text.drop_first(), at - 1);
    }
}

proof fn lemma_trim_start(text: Seq<char>, at: int)
    requires
        0 <= at <= text.len(),
        forall|i: int| 0 <= i < at ==> is_whitespace(text[i]),
        at == text.len() || !is_whitespace(text[at]),
    ensures
        trim_start(text) == text.skip(at),
    decreases at,
{
    if at > 0 {
        lemma_trim_start(text.drop_first(), at - 1);
    }
}

proof fn lemma_trim_end(text: Seq<char>, at: int)
    requires
        0 <= at <= text.len(),
        forall|i: int| at <= i < text.len() ==> is_whitespace(text[i]),
        at == 0 || !is_whitespace(text[at - 1]),
    ensures
        trim_end(text) == text.take(at),
    decreases text.len() - at,
{
    if at < text.len() {
        lemma_trim_end(text.drop_last(), at);
    }
}

/// Where the line that begins at `from` ends.
fn line_end(chars: &Vec<char>, from: usize) -> (end: usize)
    requires
        from <= chars@.len(),
    ensures
        from <= end <= chars@.len(),
        end - from == first_line_len(chars@.skip(from as int)),
{
    let mut end: usize = from;
    while end < chars.len() && chars[end] != '\n'
        invariant
            from <= end <= chars@.len(),
            forall|i: int| from <= i < end ==> chars@[i] != '\n',
        decreases chars@.len() - end,
    {
        end = end + 1;
    }
    proof {
        lemma_first_line_len(chars@.skip(from as int), end - from);
    }
    end
}

/// The part of `chars[from..end]` that is left when the whitespace around it
/// is taken away.
fn trimmed_bounds(chars: &Vec<char>, from: usize, end: usize) -> (bounds: (usize, usize))
    requires
        from <= end <= chars@.len(),
    ensures
        from <= bounds.0 <= bounds.1 <= end,
        chars@.subrange(bounds.0 as int, bounds.1 as int) == trim(
            chars@.subrange(from as int, end as int),
        ),
{
    let mut start: usize = from;
    while start < end && is_whitespace_char(chars[start])
        invariant
            from <= start <= end <= chars@.len(),
            forall|i: int| from <= i < start ==> is_whitespace(chars@[i]),
        decreases end - start,
    {
        start = start + 1;
    }
    let mut stop: usize = end;
    while stop > start && is_whitespace_char(chars[stop - 1])
        invariant
            start <= stop <= end <= chars@.len(),
            forall|i: int| stop <= i < end ==> is_whitespace(chars@[i]),
        decreases stop - start,
    {
        stop = stop - 1;
    }
    proof {
        let line = chars@.subrange(from as int, end as int);
        lemma_trim_start(line, start - from);
        assert(line.skip(start - from) == chars@.subrange(start as int, end as int));
        let rest = chars@.subrange(start as int, end as int);
        lemma_trim_end(rest, stop - start);
    }
    (start, stop)
}

proof fn lemma_rule_patterns_step(text: Seq<char>)
    requires
        text.len() > 0,
    ensures
        rule_patterns(text) == (if is_rule(text.take(first_line_len(text) as int)) {
            seq![trim(text.take(first_line_len(text) as int))]
        } else {
            Seq::<Seq<char>>::empty()
        }) + rule_patterns(after_first_line(text)),
{
    let line = text.take(first_line_len(text) as int);
    let rest = split_lines(after_first_line(text));
    let holds_rule = |line: Seq<char>| is_rule(line);
    reveal_with_fuel(Seq::filter, 2);
    Seq::filter_distributes_over_add(seq![line], rest, holds_rule);
}

/// Reads the text of a rules resource: every line that, once trimmed, is
/// neither empty nor a comment gives one pattern, trimmed, in file order.
pub fn parse_rules(text: &str) -> (patterns: Vec<String>)
    ensures
        texts(patterns@) == rule_patterns(text@),
{
    let chars = chars_of(text);
    let mut patterns: Vec<String> = Vec::new();
    let mut from: usize = 0;
    assert(text@.skip(0) == text@);
    while from < chars.len()
        invariant
            chars@ == text@,
            from <= chars@.len(),
            texts(patterns@) + rule_patterns(text@.skip(from as int)) == rule_patterns(text@),
        decreases chars@.len() - from,
    {
        let ghost rest = text@.skip(from as int);
        let end = line_end(&chars, from);
        let (start, stop) = trimmed_bounds(&chars, from, end);
        proof {
            lemma_rule_patterns_step(rest);
            assert(rest.take(end - from) == text@.subrange(from as int, end as int));
        }
        if start < stop && chars[start] != '#' {
            let pattern = String::from_str(text.substring_char(start, stop));
            patterns.push(pattern);
        }
        let next: usize = if end < chars.len() {
            end + 1
        } else {
            end
        };
        proof {
            assert(after_first_line(rest) == text@.skip(next as int));
        }
        from = next;
    }
    patterns
}

/// Where the bundled default rules are kept, relative to the directory of the
/// installed package.
pub const DEFAULT_RULES_PATH: &'static str = "data/ignore/.ignorerules.txt";

/// The pattern that asks for the bundled default rules. It is a request, not
/// a pattern, and is never part of an effective ignore set.
pub open spec fn sentinel() -> Seq<char> {
    seq!['a', 'l', 'l']
}

/// The patterns of a list that are not the sentinel, in order.
pub open spec fn without_sentinel(patterns: Seq<Seq<char>>) -> Seq<Seq<char>> {
    patterns.filter(|pattern: Seq<char>| pattern != sentinel())
}

/// What was found where the bundled default rules are kept.
#[derive(Debug, PartialEq, Eq)]
pub enum RulesResource {
    /// There is no such file.
    Missing,
    /// The file is there but could not be opened; the text says why.
    CannotOpen(String),
    /// The file was opened but could not be read to its end; the text says
    /// why.
    CannotRead(String),
    /// The bytes of the file.
    Content(Vec<u8>),
}

pub enum RulesView {
    Missing,
    CannotOpen(Seq<char>),
    CannotRead(Seq<char>),
    Content(Seq<u8>),
}

impl View for RulesResource {
    type V = RulesView;

    open spec fn view(&self) -> RulesView {
        match self {
            RulesResource::Missing => RulesView::Missing,
            RulesResource::CannotOpen(why) => RulesView::CannotOpen(why@),
            RulesResource::CannotRead(why) => RulesView::CannotRead(why@),
            RulesResource::Content(bytes) => RulesView::Content(bytes@),
        }
    }
}

impl Clone for RulesResource {
    fn clone(&self) -> (copy: RulesResource)
        ensures
            copy@ == self@,
    {
        match self {
            RulesResource::Missing => RulesResource::Missing,
            RulesResource::CannotOpen(why) => RulesResource::CannotOpen(why.clone()),
            RulesResource::CannotRead(why) => RulesResource::CannotRead(why.clone()),
            RulesResource::Content(bytes) => RulesResource::Content(bytes.clone()),
        }
    }
}

/// Why an ignore set could not be resolved: the rules resource is there but
/// its patterns could not be had.
#[derive(Debug, PartialEq, Eq)]
pub enum IoFailure {
    /// The resource could not be opened; the text says why.
    Open(String),
    /// The resource could not be read to its end; the text says why.
    Read(String),
    /// The resource is not UTF-8 text.
    Decode,
}

pub enum IoFailureView {
    Open(Seq<char>),
    Read(Seq<char>),
    Decode,
}

impl View for IoFailure {
    type V = IoFailureView;

    open spec fn view(&self) -> IoFailureView {
        match self {
            IoFailure::Open(why) => IoFailureView::Open(why@),
            IoFailure::Read(why) => IoFailureView::Read(why@),
            IoFailure::Decode => IoFailureView::Decode,
        }
    }
}

impl Clone for IoFailure {
    fn clone(&self) -> (copy: IoFailure)
        ensures
            copy@ == self@,
    {
        match self {
            IoFailure::Open(why) => IoFailure::Open(why.clone()),
            IoFailure::Read(why) => IoFailure::Read(why.clone()),
            IoFailure::Decode => IoFailure::Decode,
        }
    }
}

impl IoFailureView {
    /// The words that tell the failure.
    pub open spec fn message(self) -> Seq<char> {
        match self {
            IoFailureView::Open(why) => "Failed to open ignore file: "@ + why,
            IoFailureView::Read(why) => "Error reading line: "@ + why,
            IoFailureView::Decode => "Error reading line: stream did not contain valid UTF-8"@,
        }
    }
}

impl IoFailure {
    /// The words that tell the failure.
    pub fn message(&self) -> (message: String)
        ensures
            message@ == self@.message(),
    {
        match self {
            IoFailure::Open(why) => String::from_str("Failed to open ignore file: ").concat(
                why.as_str(),
            ),
            IoFailure::Read(why) => String::from_str("Error reading line: ").concat(why.as_str()),
            IoFailure::Decode => String::from_str(
                "Error reading line: stream did not contain valid UTF-8",
            ),
        }
    }
}

/// The effective ignore set of a scan. Without the sentinel the caller's
/// patterns are the set and the resource is not looked at. With it, the
/// sentinel leaves the set, and the patterns of the resource follow the
/// caller's own: none where the resource is missing, and no set at all where
/// the resource is there but cannot be read or decoded.
pub open spec fn effective_ignore_set(ignored: Seq<Seq<char>>, rules: RulesView) -> Result<
    Seq<Seq<char>>,
    IoFailureView,
> {
    if !ignored.contains(sentinel()) {
        Ok(ignored)
    } else {
        match rules {
            RulesView::Missing => Ok(without_sentinel(ignored)),
            RulesView::CannotOpen(why) => Err(IoFailureView::Open(why)),
            RulesView::CannotRead(why) => Err(IoFailureView::Read(why)),
            RulesView::Content(bytes) => if valid_utf8(bytes) {
                Ok(without_sentinel(ignored) + rule_patterns(decode_utf8(bytes)))
            } else {
                Err(IoFailureView::Decode)
            },
        }
    }
}

/// Whether a resolution ended as it had to: with these patterns, or with
/// this failure.
pub open spec fn resolves_to(
    resolved: Result<Vec<String>, IoFailure>,
    expected: Result<Seq<Seq<char>>, IoFailureView>,
) -> bool {
    match expected {
        Ok(patterns) => resolved is Ok && texts(resolved->Ok_0@) == patterns,
        Err(failure) => resolved is Err && resolved->Err_0@ == failure,
    }
}

/// `String::from_utf8` of std: the text that the bytes encode, where they are
/// UTF-8, and nothing where they are not.
#[verifier::external_body]
fn decode(bytes: Vec<u8>) -> (text: Option<String>)
    ensures
        text is Some <==> valid_utf8(bytes@),
        text is Some ==> text->0@ == decode_utf8(bytes@),
{
    String::from_utf8(bytes).ok()
}

fn sentinel_text() -> (all: String)
    ensures
        all@ == sentinel(),
{
    let all = String::from_str("all");
    proof {
        reveal_strlit("all");
    }
    all
}

/// Whether the caller asks for the bundled default rules: whether the
/// sentinel is among the patterns.
pub fn requests_default_rules(ignored: &Vec<String>) -> (asked: bool)
    ensures
        asked == texts(ignored@).contains(sentinel()),
{
    let all = sentinel_text();
    let mut at: usize = 0;
    while at < ignored.len()
        invariant
            at <= ignored@.len(),
            all@ == sentinel(),
            forall|i: int| 0 <= i < at ==> texts(ignored@)[i] != sentinel(),
        decreases ignored@.len() - at,
    {
        if ignored[at] == all {
            assert(texts(ignored@)[at as int] == sentinel());
            return true;
        }
        at = at + 1;
    }
    false
}

/// The caller's own patterns: all of them but the sentinel, in order.
fn own_patterns(ignored: &Vec<String>) -> (own: Vec<String>)
    ensures
        texts(own@) == without_sentinel(texts(ignored@)),
{
    let all = sentinel_text();
    let mut own: Vec<String> = Vec::new();
    let mut at: usize = 0;
    while at < ignored.len()
        invariant
            at <= ignored@.len(),
            all@ == sentinel(),
            texts(own@) == without_sentinel(texts(ignored@).take(at as int)),
        decreases ignored@.len() - at,
    {
        proof {
            reveal(Seq::filter);
            assert(texts(ignored@).take(at + 1).drop_last() == texts(ignored@).take(at as int));
        }
        if ignored[at] != all {
            own.push(ignored[at].clone());
        }
        at = at + 1;
    }
    assert(texts(ignored@).take(at as int) == texts(ignored@));
    own
}

/// Appends the patterns of `more` to `patterns`.
fn append_patterns(patterns: &mut Vec<String>, more: Vec<String>)
    ensures
        texts(final(patterns)@) == texts(old(patterns)@) + texts(more@),
{
    let mut more = more;
    patterns.append(&mut more);
}

/// Resolves the effective ignore set of a scan from the caller's patterns and
/// from what was found where the default rules are kept.
pub fn resolve(ignored: Vec<String>, rules: RulesResource) -> (resolved: Result<
    Vec<String>,
    IoFailure,
>)
    ensures
        resolves_to(resolved, effective_ignore_set(texts(ignored@), rules@)),
{
    if !requests_default_rules(&ignored) {
        return Ok(ignored);
    }
    let mut patterns = own_patterns(&ignored);
    match rules {
        RulesResource::Missing => Ok(patterns),
        RulesResource::CannotOpen(why) => Err(IoFailure::Open(why)),
        RulesResource::CannotRead(why) => Err(IoFailure::Read(why)),
        RulesResource::Content(bytes) => match decode(bytes) {
            Some(text) => {
                let rules = parse_rules(text.as_str());
                append_patterns(&mut patterns, rules);
                Ok(patterns)
            },
            None => Err(IoFailure::Decode),
        },
    }
}

/// What is left of a text's beginning after trimming begins with no
/// whitespace, and is an end of the text.
proof fn lemma_trim_start_shape(text: Seq<char>)
    ensures
        trim_start(text).len() == 0 || !is_whitespace(trim_start(text).first()),
        trim_start(text).len() <= text.len(),
        trim_start(text) == text.skip(text.len() - trim_start(text).len()),
    decreases text.len(),
{
    if text.len() > 0 && is_whitespace(text.first()) {
        lemma_trim_start_shape(text.drop_first());
    }
}

/// What is left of a text's end after trimming ends with no whitespace, and
/// is a beginning of the text.
proof fn lemma_trim_end_shape(text: Seq<char>)
    ensures
        trim_end(text).len() == 0 || !is_whitespace(trim_end(text).last()),
        trim_end(text).len() <= text.len(),
        trim_end(text) == text.take(trim_end(text).len() as int),
    decreases text.len(),
{
    if text.len() > 0 && is_whitespace(text.last()) {
        lemma_trim_end_shape(text.drop_last());
    }
}

/// A trimmed text neither begins nor ends with whitespace, so that trimming
/// it again changes nothing.
pub proof fn trimmed_text_has_no_whitespace_around(text: Seq<char>)
    ensures
        trim(text).len() > 0 ==> !is_whitespace(trim(text).first()) && !is_whitespace(
            trim(text).last(),
        ),
        trim(text).len() <= text.len(),
        trim(trim(text)) == trim(text),
{
    lemma_trim_start_shape(text);
    lemma_trim_end_shape(trim_start(text));
}

/// Every pattern read from a rules resource is a trimmed line that is
/// neither empty nor a comment.
pub proof fn rule_patterns_are_trimmed_rules(text: Seq<char>)
    ensures
        forall|i: int|
            0 <= i < rule_patterns(text).len() ==> {
                let pattern = #[trigger] rule_patterns(text)[i];
                &&& pattern.len() > 0
                &&& pattern.first() != '#'
                &&& !is_whitespace(pattern.first())
                &&& !is_whitespace(pattern.last())
                &&& trim(pattern) == pattern
            },
{
    let holds_rule = |line: Seq<char>| is_rule(line);
    let rules = split_lines(text).filter(holds_rule);
    assert forall|i: int| 0 <= i < rule_patterns(text).len() implies {
        let pattern = #[trigger] rule_patterns(text)[i];
        &&& pattern.len() > 0
        &&& pattern.first() != '#'
        &&& !is_whitespace(pattern.first())
        &&& !is_whitespace(pattern.last())
        &&& trim(pattern) == pattern
    } by {
        split_lines(text).lemma_filter_pred(holds_rule, i);
        trimmed_text_has_no_whitespace_around(rules[i]);
    }
}

/// The sentinel never stays among the caller's own patterns, and a list
/// without it is left as it is.
pub proof fn sentinel_is_never_forwarded(patterns: Seq<Seq<char>>)
    ensures
        !without_sentinel(patterns).contains(sentinel()),
        without_sentinel(patterns).len() <= patterns.len(),
        !patterns.contains(sentinel()) ==> without_sentinel(patterns) == patterns,
    decreases patterns.len(),
{
    let not_sentinel = |pattern: Seq<char>| pattern != sentinel();
    patterns.lemma_filter_len(not_sentinel);
    if without_sentinel(patterns).contains(sentinel()) {
        let i = choose|i: int|
            0 <= i < without_sentinel(patterns).len() && without_sentinel(patterns)[i]
                == sentinel();
        patterns.lemma_filter_pred(not_sentinel, i);
    }
    reveal(Seq::filter);
    if patterns.len() > 0 {
        sentinel_is_never_forwarded(patterns.drop_last());
        if !patterns.contains(sentinel()) {
            assert(!patterns.drop_last().contains(sentinel()));
        }
    }
}

} // verus!
