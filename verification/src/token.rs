//! Tokens, their source locations, and the categories of characters.

use crate::grammar::{
    all_scanned, scanned, char_at, default_categories, default_category, emit, escape_at, hex_value, is_hex_digit, lemma_char_code,
    lemma_run_bounds, lemma_scan_advances, load, par_name, prepared_line, pull, rest_text, run_end, run_text, scan,
    scan_comment, scan_control_sequence, scan_end_of_line, scan_space, span_of,
    strip_trailing_spaces, toggled, TokenizerView,
};
use crate::interval_map::{IntIntervalMap, IntervalMap, Label};
use std::collections::VecDeque;
use vstd::prelude::*;
use vstd::std_specs::cmp::PartialEqSpecImpl;
use vstd::std_specs::iter::IteratorSpec;

verus! {

/// The lexical category of a character. Every character has exactly one at any time.
#[derive(Debug, PartialEq, Eq, Copy, Clone, Structural)]
pub enum Category {
    /// Starts a control sequence (`\`).
    Escape,
    /// Begins a group (`{`).
    GroupOpen,
    /// Ends a group (`}`).
    GroupClose,
    /// Math shift (`$`).
    MathShift,
    /// Alignment tab (`&`).
    Alignment,
    /// End of line.
    EndOfLine,
    /// Macro parameter marker (`#`).
    Parameter,
    /// Math superscript (`^`).
    Superscript,
    /// Math subscript (`_`).
    Subscript,
    /// Ignored character.
    Ignored,
    /// Space.
    Space,
    /// Letter.
    Letter,
    /// Any other character (digits, punctuation).
    Other,
    /// Active character (`~`).
    Active,
    /// Starts a comment (`%`).
    Comment,
    /// Invalid input.
    Invalid,
}

impl Label for Category {
    fn same(self, other: Self) -> (r: bool) {
        self == other
    }
}

/// A location in the input: a line number and the first and last column of
/// the source characters involved.
///
/// A span marked `unknown` stands for "any location": it compares equal to
/// every span. The tokenizer never produces one.
#[derive(Debug, Clone, Copy)]
pub struct Span {
    /// Number of the line the token was read from; the first line is line 1.
    pub line: usize,
    /// Column of the first character of the span.
    pub start: usize,
    /// Column of the last character of the span.
    pub end: usize,
    /// Set on the placeholder that matches every span.
    pub unknown: bool,
}

impl Span {
    pub fn new(line: usize, start: usize, end: usize) -> (span: Self)
        ensures
            span == (Span { line, start, end, unknown: false }),
    {
        Span { line, start, end, unknown: false }
    }

    /// Moves the end of the span `step` columns to the right.
    pub fn extend(&mut self, step: usize)
        requires
            old(self).end + step <= usize::MAX,
        ensures
            *final(self) == (Span { end: (old(self).end + step) as usize, ..*old(self) }),
    {
        self.end = self.end + step;
    }

    /// The placeholder span, which is equal to any other span.
    pub fn any() -> (span: Self)
        ensures
            span == (Span { line: 0, start: 0, end: 0, unknown: true }),
    {
        Span { line: 0, start: 0, end: 0, unknown: true }
    }

    /// Whether two spans compare equal: they name the same place, or one of
    /// them is the placeholder.
    pub open spec fn agrees(self, other: Span) -> bool {
        ||| self.unknown
        ||| other.unknown
        ||| (self.line == other.line && self.start == other.start && self.end == other.end)
    }
}

impl PartialEq for Span {
    fn eq(&self, other: &Self) -> (r: bool) {
        self.unknown || other.unknown || (self.line == other.line && self.start == other.start
            && self.end == other.end)
    }
}

impl PartialEqSpecImpl for Span {
    open spec fn obeys_eq_spec() -> bool {
        true
    }

    open spec fn eq_spec(&self, other: &Self) -> bool {
        self.agrees(*other)
    }
}

/// Tokens that plain TeX would not produce, kept for diagnostics.
#[derive(Debug, PartialEq, Clone)]
pub enum OtherToken {
    /// The text of a comment, without the character that started it.
    Comment(String),
    /// A character of category `Ignored`.
    IgnoredCharacter(char),
    /// A character of category `Invalid`.
    InvalidCharacter(char),
    /// Input that was read and dropped: a run of blanks, or the rest of a
    /// line after an end-of-line character.
    Skipped(String),
}

/// A token of the language.
#[derive(Debug, PartialEq, Clone)]
pub enum Token {
    /// A control sequence with its name.
    ControlSequence(String, Span),
    /// A single character with its category.
    Character(char, Category),
    /// A macro parameter, numbered 1 to 9. The tokenizer does not produce
    /// it; it arises when a macro definition is parsed.
    Parameter(u8),
    /// A diagnostic token.
    Other(OtherToken, Span),
}

/// The mathematical value of an `OtherToken`.
pub enum OtherTokenView {
    Comment(Seq<char>),
    IgnoredCharacter(char),
    InvalidCharacter(char),
    Skipped(Seq<char>),
}

/// The mathematical value of a `Token`.
pub enum TokenView {
    ControlSequence(Seq<char>, Span),
    Character(char, Category),
    Parameter(u8),
    Other(OtherTokenView, Span),
}

impl View for OtherToken {
    type V = OtherTokenView;

    open spec fn view(&self) -> OtherTokenView {
        match *self {
            OtherToken::Comment(text) => OtherTokenView::Comment(text@),
            OtherToken::IgnoredCharacter(c) => OtherTokenView::IgnoredCharacter(c),
            OtherToken::InvalidCharacter(c) => OtherTokenView::InvalidCharacter(c),
            OtherToken::Skipped(text) => OtherTokenView::Skipped(text@),
        }
    }
}

impl View for Token {
    type V = TokenView;

    open spec fn view(&self) -> TokenView {
        match *self {
            Token::ControlSequence(name, span) => TokenView::ControlSequence(name@, span),
            Token::Character(c, category) => TokenView::Character(c, category),
            Token::Parameter(n) => TokenView::Parameter(n),
            Token::Other(other, span) => TokenView::Other(other@, span),
        }
    }
}

/// The values of a sequence of tokens.
pub open spec fn token_views(tokens: Seq<Token>) -> Seq<TokenView> {
    tokens.map_values(|t: Token| t@)
}

/// The value of an optional token.
pub open spec fn optional_view(token: Option<Token>) -> Option<TokenView> {
    match token {
        Some(t) => Some(t@),
        None => None,
    }
}

/// Where the tokenizer stands within a line.
#[derive(Debug, PartialEq, Eq, Copy, Clone, Structural)]
pub enum TokenizerState {
    /// Nothing but blanks has been read from the current line.
    LineStart,
    /// In the middle of a line.
    LineMiddle,
    /// After a control word or a space: further blanks are dropped.
    SkippingBlanks,
}

/// `String::push` appends the character to the end of the string.
pub assume_specification[ String::push ](text: &mut String, ch: char)
    ensures
        final(text)@ == old(text)@.push(ch),
;

/// The code of a character.
fn code_of(c: char) -> (code: u32)
    ensures
        code as int == c as int,
        code <= 0x10FFFF,
{
    c as u32
}

/// The number that the hexadecimal digit `c` stands for, if it is one.
fn hex_digit(c: char) -> (digit: Option<u8>)
    ensures
        digit is Some == is_hex_digit(c),
        digit matches Some(d) ==> d as int == hex_value(c) && d < 16,
{
    if '0' <= c && c <= '9' {
        Some((c as u8) - 48)
    } else if 'a' <= c && c <= 'f' {
        Some((c as u8) - 87)
    } else {
        None
    }
}

/// The character that one of code below 128 stands for after a doubled superscript character.
fn toggle(c: char) -> (r: char)
    requires
        (c as int) < 128,
    ensures
        r == toggled(c),
{
    let code: u8 = c as u8;
    if code < 64 {
        (code + 64) as char
    } else {
        (code - 64) as char
    }
}

/// The characters of a string.
fn chars_of(text: &String) -> (chars: Vec<char>)
    ensures
        chars@ == text@,
{
    let mut chars: Vec<char> = Vec::new();
    for c in it: text.as_str().chars()
        invariant
            chars@ == it.seq().take(it.index()),
            it.seq() == text@,
    {
        chars.push(c);
    }
    chars
}

/// A raw line made ready for scanning.
fn prepare_line(raw: &String, end_of_line: char) -> (line: Vec<char>)
    ensures
        line@ == prepared_line(raw@, end_of_line),
{
    let mut line = chars_of(raw);
    while line.len() > 0 && line[line.len() - 1] == ' '
        invariant
            strip_trailing_spaces(line@) == strip_trailing_spaces(raw@),
        decreases line.len(),
    {
        line.pop();
    }
    if code_of(end_of_line) <= 255 {
        line.push(end_of_line);
    }
    line
}

/// A token generator for TeX.
///
/// Takes an iterator over input lines and turns it into a sequence of
/// tokens, one per call of `next`. The categories of characters and the
/// end-of-line character can be changed between calls; a change affects the
/// characters scanned after it.
#[derive(Debug)]
pub struct Tokenizer<L> {
    category_map: IntIntervalMap<u32, Category>,
    state: TokenizerState,
    lines: L,
    /// The current line.
    line: Vec<char>,
    line_count: usize,
    /// The column of the next character of the current line.
    pos: usize,
    endlinechar: char,
    /// Tokens produced and not yet delivered, oldest first.
    token_buffer: VecDeque<Token>,
}

/// How a tokenizer can be steered while it runs.
pub trait TokenizerInteraction {
    /// The tokenizer is in a valid state.
    spec fn valid(&self) -> bool;

    /// The category of every character.
    spec fn categories(&self) -> Map<char, Category>;

    /// The character appended to each line.
    spec fn end_of_line_char(&self) -> char;

    /// Changes the category of `chr` to `category`, for the characters scanned from now on.
    fn catcode(&mut self, chr: char, category: Category)
        requires
            old(self).valid(),
        ensures
            final(self).valid(),
            final(self).categories() == old(self).categories().insert(chr, category),
            final(self).end_of_line_char() == old(self).end_of_line_char(),
    ;

    /// Changes the end-of-line character to `chr`, for the lines loaded from
    /// now on. With a code above 255 nothing is appended to a line.
    fn set_endlinechar(&mut self, chr: char)
        requires
            old(self).valid(),
        ensures
            final(self).valid(),
            final(self).categories() == old(self).categories(),
            final(self).end_of_line_char() == chr,
    ;

    /// The end-of-line character.
    fn get_endlinechar(&self) -> (chr: char)
        ensures
            chr == self.end_of_line_char(),
    ;
}

impl<L> View for Tokenizer<L> {
    type V = TokenizerView;

    closed spec fn view(&self) -> TokenizerView {
        TokenizerView {
            categories: Map::total(|c: char| self.category_map.at(c as int)),
            end_of_line: self.endlinechar,
            state: self.state,
            line: self.line@,
            pos: self.pos as int,
            line_number: self.line_count as int,
            queue: token_views(self.token_buffer@),
        }
    }
}

impl<L: Iterator<Item = String>> TokenizerInteraction for Tokenizer<L> {
    open spec fn valid(&self) -> bool {
        self.wf()
    }

    open spec fn categories(&self) -> Map<char, Category> {
        self@.categories
    }

    open spec fn end_of_line_char(&self) -> char {
        self@.end_of_line
    }

    fn catcode(&mut self, chr: char, category: Category)
        ensures
            final(self)@ == (TokenizerView {
                categories: old(self)@.categories.insert(chr, category),
                ..old(self)@
            }),
            final(self).source() == old(self).source(),
    {
        self.category_map.assign_single(code_of(chr), category);
        proof {
            assert forall|c: char| #[trigger]
                self@.categories[c] == old(self)@.categories.insert(chr, category)[c] by {
                lemma_char_code(c);
                assert(self.category_map.at(c as int) == (if c as int == chr as int {
                    category
                } else {
                    old(self).category_map.at(c as int)
                }));
            }
        }
    }

    fn set_endlinechar(&mut self, chr: char)
        ensures
            final(self)@ == (TokenizerView { end_of_line: chr, ..old(self)@ }),
            final(self).source() == old(self).source(),
    {
        self.endlinechar = chr;
    }

    fn get_endlinechar(&self) -> (chr: char) {
        self.endlinechar
    }
}

impl<L: Iterator<Item = String>> Tokenizer<L> {
    /// The table of categories is valid, the cursor lies within the current
    /// line, the queue holds only tokens that the scanner gave, and the
    /// source of lines is one that ends.
    pub closed spec fn wf(&self) -> bool {
        &&& self.category_map.wf()
        &&& self.pos <= self.line@.len()
        &&& all_scanned(self@.queue)
        &&& self.lines.obeys_prophetic_iter_laws()
        &&& self.lines.decrease() is Some
    }

    /// The source of the lines that are left to read.
    pub closed spec fn source(&self) -> L {
        self.lines
    }

    /// Create a new tokenizer over `lines` with the default categories and
    /// the carriage return as end-of-line character.
    pub fn new(lines: L) -> (tokenizer: Self)
        requires
            lines.obeys_prophetic_iter_laws(),
            lines.decrease() is Some,
        ensures
            tokenizer.wf(),
            tokenizer.source() == lines,
            tokenizer@ == (TokenizerView {
                categories: default_categories(),
                end_of_line: '\r',
                state: TokenizerState::LineStart,
                line: Seq::empty(),
                pos: 0,
                line_number: 0,
                queue: Seq::empty(),
            }),
    {
        let mut map: IntIntervalMap<u32, Category> = IntIntervalMap::new(Category::Other);
        map.assign_single('\\' as u32, Category::Escape);
        map.assign_single('{' as u32, Category::GroupOpen);
        map.assign_single('}' as u32, Category::GroupClose);
        map.assign_single('$' as u32, Category::MathShift);
        map.assign_single('&' as u32, Category::Alignment);
        map.assign_single('\n' as u32, Category::EndOfLine);
        map.assign_single('\r' as u32, Category::EndOfLine);
        map.assign_single('#' as u32, Category::Parameter);
        map.assign_single('^' as u32, Category::Superscript);
        map.assign_single('_' as u32, Category::Subscript);
        map.assign_single('\0' as u32, Category::Ignored);
        map.assign_single(' ' as u32, Category::Space);
        map.assign_single('\t' as u32, Category::Space);
        map.assign(('a' as u32)..('z' as u32 + 1), Category::Letter);
        map.assign(('A' as u32)..('Z' as u32 + 1), Category::Letter);
        map.assign(('0' as u32)..('9' as u32 + 1), Category::Other);
        map.assign((':' as u32)..('@' as u32 + 1), Category::Other);
        map.assign_single('~' as u32, Category::Active);
        map.assign_single('%' as u32, Category::Comment);
        map.assign(('\x01' as u32)..('\x08' as u32 + 1), Category::Invalid);
        map.assign_single('\x0b' as u32, Category::Invalid);
        map.assign_single('\x0c' as u32, Category::Invalid);
        map.assign(('\x0e' as u32)..('\x1f' as u32 + 1), Category::Invalid);
        let tokenizer = Tokenizer {
            category_map: map,
            state: TokenizerState::LineStart,
            lines,
            line: Vec::new(),
            line_count: 0,
            pos: 0,
            endlinechar: '\r',
            token_buffer: VecDeque::new(),
        };
        proof {
            assert forall|c: char| #[trigger]
                tokenizer@.categories[c] == default_category(c) by {
                lemma_char_code(c);
            }
            assert(tokenizer@.categories =~= default_categories());
            assert(tokenizer@.queue =~= Seq::empty());
        }
        tokenizer
    }

    /// Span of the next input character.
    fn here(&self) -> (span: Span)
        ensures
            span == span_of(self@.line_number, self@.pos, self@.pos),
    {
        Span::new(self.line_count, self.pos, self.pos)
    }

    /// Appends a token to the queue.
    fn push(&mut self, token: Token)
        requires
            old(self).wf(),
            scanned(token@),
        ensures
            final(self).wf(),
            final(self)@ == emit(old(self)@, old(self)@.pos, old(self)@.state, seq![token@]),
            final(self).lines == old(self).lines,
    {
        self.token_buffer.push_back(token);
        proof {
            assert(self@.queue =~= old(self)@.queue + seq![token@]);
            assert forall|i: int| 0 <= i < self@.queue.len() implies scanned(
                #[trigger] self@.queue[i],
            ) by {
                if i < old(self)@.queue.len() {
                    assert(self@.queue[i] == old(self)@.queue[i]);
                }
            }
        }
    }

    /// Advance to the next line of input.
    ///
    /// Returns whether there was one.
    #[must_use]
    fn next_line(&mut self) -> (loaded: bool)
        requires
            old(self).wf(),
            old(self)@.line_number + old(self).lines.remaining().len() <= usize::MAX,
        ensures
            final(self).wf(),
            loaded == (old(self).lines.remaining().len() > 0),
            loaded ==> final(self)@ == load(old(self)@, old(self).lines.remaining()[0]@),
            loaded ==> final(self).lines.remaining() == old(self).lines.remaining().drop_first(),
            loaded ==> decreases_to!(old(self).lines.decrease()->0 => final(self).lines.decrease()->0),
            !loaded ==> final(self)@ == (TokenizerView {
                state: TokenizerState::LineStart,
                ..old(self)@
            }),
            !loaded ==> final(self).lines.remaining() == old(self).lines.remaining(),
    {
        self.state = TokenizerState::LineStart;
        let raw = match self.lines.next() {
            Some(l) => l,
            None => {
                return false;
            },
        };
        self.line = prepare_line(&raw, self.endlinechar);
        self.pos = 0;
        self.line_count = self.line_count + 1;
        true
    }

    /// Get the category of a character.
    fn cat(&self, c: char) -> (category: Category)
        requires
            self.wf(),
        ensures
            category == self@.categories[c],
    {
        self.category_map.get(code_of(c))
    }

    /// Parse a superscript-escaped character (e.g. `^^A` or `^^0f`) at the cursor.
    ///
    /// Returns the character it stands for and the number of columns it takes.
    fn parse_superscript_char(&self) -> (found: Option<(char, usize)>)
        requires
            self.wf(),
        ensures
            match found {
                Some((c, n)) => escape_at(self@.categories, self@.line, self@.pos) == Some(
                    (c, n as int),
                ),
                None => escape_at(self@.categories, self@.line, self@.pos) is None,
            },
            found matches Some((_, n)) ==> 3 <= n <= 4 && self@.pos + n <= self@.line.len(),
    {
        let len = self.line.len();
        if len < 3 || self.pos >= len - 2 {
            return None;
        }
        let first = self.line[self.pos];
        if self.cat(first) != Category::Superscript {
            return None;
        }
        if self.line[self.pos + 1] != first {
            return None;
        }
        let follower = self.line[self.pos + 2];
        if self.pos + 3 < len {
            match (hex_digit(follower), hex_digit(self.line[self.pos + 3])) {
                (Some(high), Some(low)) => {
                    let code: u8 = 16 * high + low;
                    return Some((code as char, 4));
                },
                _ => {},
            }
        }
        if code_of(follower) < 128 {
            Some((toggle(follower), 3))
        } else {
            None
        }
    }

    /// Pop the next character from the current line. An escaped character
    /// takes more than one column.
    fn pop_char(&mut self) -> (popped: Option<char>)
        requires
            old(self).wf(),
        ensures
            final(self).wf(),
            final(self).lines == old(self).lines,
            match char_at(old(self)@.categories, old(self)@.line, old(self)@.pos) {
                Some((c, n)) => popped == Some(c) && final(self)@ == (TokenizerView {
                    pos: old(self)@.pos + n,
                    ..old(self)@
                }),
                None => popped is None && final(self)@ == old(self)@,
            },
    {
        match self.parse_superscript_char() {
            Some((c, l)) => {
                assert(self.pos + l <= self.line.len());
                self.pos = self.pos + l;
                Some(c)
            },
            None => {
                if self.pos < self.line.len() {
                    let c = self.line[self.pos];
                    self.pos = self.pos + 1;
                    Some(c)
                } else {
                    None
                }
            },
        }
    }

    /// The next character of the current line, with escapes resolved.
    fn look_ahead(&self) -> (next: Option<char>)
        requires
            self.wf(),
        ensures
            match char_at(self@.categories, self@.line, self@.pos) {
                Some((c, _)) => next == Some(c),
                None => next is None,
            },
    {
        match self.parse_superscript_char() {
            Some((c, _)) => Some(c),
            None => {
                if self.pos < self.line.len() {
                    Some(self.line[self.pos])
                } else {
                    None
                }
            },
        }
    }

    /// Reads on while the characters are of `category`, and appends them to `text`.
    fn take_run(&mut self, category: Category, text: &mut String)
        requires
            old(self).wf(),
        ensures
            final(self).wf(),
            final(self).lines == old(self).lines,
            final(self)@ == (TokenizerView {
                pos: run_end(old(self)@.categories, old(self)@.line, old(self)@.pos, category),
                ..old(self)@
            }),
            final(text)@ == old(text)@ + run_text(
                old(self)@.categories,
                old(self)@.line,
                old(self)@.pos,
                category,
            ),
    {
        let ghost v = self@;
        let ghost start = text@;
        loop
            invariant
                self.wf(),
                self.lines == old(self).lines,
                self@ == (TokenizerView { pos: self@.pos, ..v }),
                v == old(self)@,
                start == old(text)@,
                run_end(v.categories, v.line, self@.pos, category) == run_end(
                    v.categories,
                    v.line,
                    v.pos,
                    category,
                ),
                text@ + run_text(v.categories, v.line, self@.pos, category) == start + run_text(
                    v.categories,
                    v.line,
                    v.pos,
                    category,
                ),
            ensures
                run_end(v.categories, v.line, self@.pos, category) == self@.pos,
                run_text(v.categories, v.line, self@.pos, category) == Seq::<char>::empty(),
            decreases self.line.len() - self.pos,
        {
            let ghost sofar = text@;
            match self.look_ahead() {
                Some(c) => {
                    if self.cat(c) == category {
                        self.pop_char();
                        text.push(c);
                        proof {
                            let tail = run_text(v.categories, v.line, self@.pos, category);
                            assert(sofar.push(c) + tail =~= sofar + (seq![c] + tail));
                        }
                    } else {
                        break ;
                    }
                },
                None => {
                    break ;
                },
            }
        }
    }

    /// Reads all that is left of the current line.
    fn take_rest(&mut self) -> (text: String)
        requires
            old(self).wf(),
        ensures
            final(self).wf(),
            final(self).lines == old(self).lines,
            final(self)@ == (TokenizerView { pos: old(self)@.line.len() as int, ..old(self)@ }),
            text@ == rest_text(old(self)@.categories, old(self)@.line, old(self)@.pos),
    {
        let ghost v = self@;
        let mut text = String::new();
        loop
            invariant
                self.wf(),
                self.lines == old(self).lines,
                self@ == (TokenizerView { pos: self@.pos, ..v }),
                v == old(self)@,
                text@ + rest_text(v.categories, v.line, self@.pos) == rest_text(
                    v.categories,
                    v.line,
                    v.pos,
                ),
            ensures
                self@.pos == v.line.len(),
                rest_text(v.categories, v.line, self@.pos) == Seq::<char>::empty(),
            decreases self.line.len() - self.pos,
        {
            let ghost sofar = text@;
            match self.pop_char() {
                Some(c) => {
                    text.push(c);
                    proof {
                        let tail = rest_text(v.categories, v.line, self@.pos);
                        assert(sofar.push(c) + tail =~= sofar + (seq![c] + tail));
                    }
                },
                None => {
                    break ;
                },
            }
        }
        text
    }

    /// Reads the name of a control sequence whose escape character was read
    /// from the columns of `here`.
    fn control_sequence(&mut self, here: Span)
        requires
            old(self).wf(),
            here.start < old(self).pos,
            here == span_of(old(self)@.line_number, here.start as int, old(self)@.pos - 1),
        ensures
            final(self).wf(),
            final(self).lines == old(self).lines,
            final(self)@ == scan_control_sequence(
                TokenizerView { pos: here.start as int, ..old(self)@ },
                old(self)@.pos,
            ),
    {
        let ghost v = TokenizerView { pos: here.start as int, ..self@ };
        let mut here = here;
        match self.pop_char() {
            None => {
                self.push(Token::ControlSequence(String::new(), here));
            },
            Some(c) => {
                let mut content = String::new();
                content.push(c);
                match self.cat(c) {
                    Category::Letter => {
                        proof {
                            lemma_run_bounds(v.categories, v.line, self@.pos, Category::Letter);
                        }
                        self.take_run(Category::Letter, &mut content);
                        self.state = TokenizerState::SkippingBlanks;
                    },
                    Category::Space => {
                        self.state = TokenizerState::SkippingBlanks;
                    },
                    _ => {
                        self.state = TokenizerState::LineMiddle;
                    },
                }
                here.end = self.pos - 1;
                self.push(Token::ControlSequence(content, here));
            },
        }
    }

    /// Drops the rest of the line after an end-of-line character that began
    /// at column `here.start`, and closes the line.
    fn end_of_line(&mut self, here: Span)
        requires
            old(self).wf(),
            here.start < old(self).pos,
            here == span_of(old(self)@.line_number, here.start as int, old(self)@.pos - 1),
        ensures
            final(self).wf(),
            final(self).lines == old(self).lines,
            final(self)@ == scan_end_of_line(
                TokenizerView { pos: here.start as int, ..old(self)@ },
                old(self)@.pos,
            ),
    {
        let ghost v = TokenizerView { pos: here.start as int, ..self@ };
        // throw away rest of line
        let skipped = self.take_rest();
        if !skipped.as_str().is_empty() {
            let mut loc = here;
            loc.end = self.pos - 1;
            self.push(Token::Other(OtherToken::Skipped(skipped), loc));
        }
        match self.state {
            TokenizerState::LineStart => {
                let par = "par".to_owned();
                proof {
                    reveal_strlit("par");
                    assert(par@ =~= par_name());
                }
                self.push(Token::ControlSequence(par, here));
            },
            TokenizerState::LineMiddle => {
                let space = self.cat(' ');
                self.push(Token::Character(' ', space));
            },
            TokenizerState::SkippingBlanks => {},
        }
        proof {
            assert(self@.queue =~= scan_end_of_line(v, old(self)@.pos).queue);
        }
    }

    /// Handles the space character `chr`, read from the columns of `here`.
    fn space(&mut self, chr: char, here: Span)
        requires
            old(self).wf(),
            here.start < old(self).pos,
            here == span_of(old(self)@.line_number, here.start as int, old(self)@.pos - 1),
        ensures
            final(self).wf(),
            final(self).lines == old(self).lines,
            final(self)@ == scan_space(
                TokenizerView { pos: here.start as int, ..old(self)@ },
                chr,
                old(self)@.pos,
            ),
    {
        match self.state {
            TokenizerState::LineStart | TokenizerState::SkippingBlanks => {
                let mut whitespace = String::new();
                whitespace.push(chr);
                proof {
                    lemma_run_bounds(self@.categories, self@.line, self@.pos, Category::Space);
                }
                self.take_run(Category::Space, &mut whitespace);
                let mut loc = here;
                loc.end = self.pos - 1;
                self.push(Token::Other(OtherToken::Skipped(whitespace), loc));
            },
            TokenizerState::LineMiddle => {
                self.state = TokenizerState::SkippingBlanks;
                let space = self.cat(' ');
                self.push(Token::Character(' ', space));
            },
        }
    }

    /// Reads a comment whose first character began at column `here.start`.
    fn comment(&mut self, here: Span)
        requires
            old(self).wf(),
            here.start < old(self).pos,
            here == span_of(old(self)@.line_number, here.start as int, old(self)@.pos - 1),
        ensures
            final(self).wf(),
            final(self).lines == old(self).lines,
            final(self)@ == scan_comment(
                TokenizerView { pos: here.start as int, ..old(self)@ },
                old(self)@.pos,
            ),
    {
        let comment = self.take_rest();
        let mut loc = here;
        loc.end = self.pos - 1;
        self.push(Token::Other(OtherToken::Comment(comment), loc));
    }

    /// Scans from the cursor: reads one character and whatever its category
    /// draws in, and queues the tokens that this gives.
    fn scan_step(&mut self)
        requires
            old(self).wf(),
            old(self).pos < old(self).line@.len(),
        ensures
            final(self).wf(),
            final(self).lines == old(self).lines,
            final(self)@ == scan(old(self)@),
    {
        let mut here = self.here();
        let chr = match self.pop_char() {
            Some(c) => c,
            // The cursor lies within the line, so there is a character.
            None => {
                return ;
            },
        };
        here.end = self.pos - 1;
        // process the character by its category
        match self.cat(chr) {
            Category::Escape => {
                self.control_sequence(here);
            },
            Category::EndOfLine => {
                self.end_of_line(here);
            },
            Category::Ignored => {
                self.push(Token::Other(OtherToken::IgnoredCharacter(chr), here));
            },
            Category::Space => {
                self.space(chr, here);
            },
            Category::Comment => {
                self.comment(here);
            },
            Category::Invalid => {
                self.push(Token::Other(OtherToken::InvalidCharacter(chr), here));
            },
            category => {
                self.state = TokenizerState::LineMiddle;
                self.push(Token::Character(chr, category));
            },
        }
    }

    /// Delivers the next token, or `None` when the input has ended.
    ///
    /// Queued tokens come first. With an empty queue the scanner runs, line
    /// after line, until it has produced a token or the lines have run out.
    ///
    /// Lines are numbered with a `usize`, so the lines read so far and the
    /// lines still to come must together be no more than `usize::MAX`. Each
    /// call hands this bound on to the next. For the first call, on lines
    /// held in a vector `v` and passed as `v.into_iter()`,
    /// `vstd::std_specs::vec::axiom_spec_into_iter` says that the lines to
    /// come are those of `v`.
    pub fn next(&mut self) -> (token: Option<Token>)
        requires
            old(self).wf(),
            old(self)@.line_number + old(self).source().remaining().len() <= usize::MAX,
        ensures
            final(self).wf(),
            token matches Some(t) ==> scanned(t@),
            optional_view(token) == pull(old(self)@, old(self).source().remaining()).token,
            final(self)@ == pull(old(self)@, old(self).source().remaining()).after,
            final(self).source().remaining() == pull(
                old(self)@,
                old(self).source().remaining(),
            ).rest,
            final(self)@.line_number + final(self).source().remaining().len() <= usize::MAX,
    {
        loop
            invariant
                self.wf(),
                self@.line_number + self.lines.remaining().len() <= usize::MAX,
                pull(self@, self.lines.remaining()) == pull(
                    old(self)@,
                    old(self).lines.remaining(),
                ),
            decreases self.lines.decrease()->0, self.line.len() - self.pos,
        {
            let ghost v = self@;
            match self.token_buffer.pop_front() {
                Some(t) => {
                    proof {
                        assert(self@.queue =~= v.queue.drop_first());
                        assert(t@ == v.queue[0]);
                        assert(all_scanned(v.queue.drop_first()));
                    }
                    return Some(t);
                },
                None => {},
            }
            if self.pos < self.line.len() {
                proof {
                    lemma_scan_advances(v);
                }
                self.scan_step();
            } else {
                if !self.next_line() {
                    return None;
                }
            }
        }
    }
}

} // verus!
