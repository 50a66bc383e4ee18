//! The lexical grammar, as mathematical functions on a line of characters
//! and a table of categories. The tokenizer is proved against these.

use crate::token::{Category, OtherTokenView, Span, TokenView, TokenizerState};
use vstd::prelude::*;

verus! {

/// Everything that decides what a tokenizer does next, apart from the lines it has yet to read.
pub struct TokenizerView {
    /// The category of every character.
    pub categories: Map<char, Category>,
    /// The character appended to each line; none is appended if its code exceeds 255.
    pub end_of_line: char,
    pub state: TokenizerState,
    /// The current line, prepared for scanning.
    pub line: Seq<char>,
    /// The column of the next character to scan.
    pub pos: int,
    /// The number of lines loaded so far.
    pub line_number: int,
    /// Tokens produced and not yet delivered, oldest first.
    pub queue: Seq<TokenView>,
}

/// A digit `0`-`9` or a lower-case letter `a`-`f`.
pub open spec fn is_hex_digit(c: char) -> bool {
    ('0' <= c && c <= '9') || ('a' <= c && c <= 'f')
}

/// The number that a hexadecimal digit stands for.
pub open spec fn hex_value(c: char) -> int {
    if c <= '9' {
        c as int - 48
    } else {
        c as int - 87
    }
}

/// A character of code below 128 with 64 added to, or taken from, its code.
pub open spec fn toggled(c: char) -> char {
    if (c as int) < 64 {
        (c as int + 64) as char
    } else {
        (c as int - 64) as char
    }
}

/// The superscript escape at column `pos`, if there is one: the character it
/// stands for and the number of columns it takes.
///
/// An escape is a character of category `Superscript`, the same character
/// again, and then either two hexadecimal digits, which give the code, or one
/// character of code below 128, which is toggled.
pub open spec fn escape_at(cats: Map<char, Category>, line: Seq<char>, pos: int) -> Option<
    (char, int),
> {
    if 0 <= pos && pos + 2 < line.len() && cats[line[pos]] == Category::Superscript && line[pos
        + 1] == line[pos] {
        if pos + 3 < line.len() && is_hex_digit(line[pos + 2]) && is_hex_digit(line[pos + 3]) {
            Some(((16 * hex_value(line[pos + 2]) + hex_value(line[pos + 3])) as char, 4))
        } else if (line[pos + 2] as int) < 128 {
            Some((toggled(line[pos + 2]), 3))
        } else {
            None
        }
    } else {
        None
    }
}

/// The character read at column `pos` and the number of columns it takes:
/// an escape where there is one, else the character that stands there.
/// `None` at the end of the line.
pub open spec fn char_at(cats: Map<char, Category>, line: Seq<char>, pos: int) -> Option<
    (char, int),
> {
    match escape_at(cats, line, pos) {
        Some(found) => Some(found),
        None => if 0 <= pos < line.len() {
            Some((line[pos], 1))
        } else {
            None
        },
    }
}

/// The column after the longest run of characters of category `cat` read from `pos` on.
pub open spec fn run_end(cats: Map<char, Category>, line: Seq<char>, pos: int, cat: Category) -> int
    decreases line.len() - pos,
{
    match char_at(cats, line, pos) {
        Some((c, n)) => if cats[c] == cat {
            run_end(cats, line, pos + n, cat)
        } else {
            pos
        },
        None => pos,
    }
}

/// The characters of the longest run of category `cat` read from `pos` on.
pub open spec fn run_text(cats: Map<char, Category>, line: Seq<char>, pos: int, cat: Category) -> Seq<
    char,
>
    decreases line.len() - pos,
{
    match char_at(cats, line, pos) {
        Some((c, n)) => if cats[c] == cat {
            seq![c] + run_text(cats, line, pos + n, cat)
        } else {
            Seq::empty()
        },
        None => Seq::empty(),
    }
}

/// All characters read from `pos` to the end of the line.
pub open spec fn rest_text(cats: Map<char, Category>, line: Seq<char>, pos: int) -> Seq<char>
    decreases line.len() - pos,
{
    match char_at(cats, line, pos) {
        Some((c, n)) => seq![c] + rest_text(cats, line, pos + n),
        None => Seq::empty(),
    }
}

/// The category that a character has when a tokenizer is created.
pub open spec fn default_category(c: char) -> Category {
    if c == '\\' {
        Category::Escape
    } else if c == '{' {
        Category::GroupOpen
    } else if c == '}' {
        Category::GroupClose
    } else if c == '$' {
        Category::MathShift
    } else if c == '&' {
        Category::Alignment
    } else if c == '\n' || c == '\r' {
        Category::EndOfLine
    } else if c == '#' {
        Category::Parameter
    } else if c == '^' {
        Category::Superscript
    } else if c == '_' {
        Category::Subscript
    } else if c == '\0' {
        Category::Ignored
    } else if c == ' ' || c == '\t' {
        Category::Space
    } else if ('a' <= c && c <= 'z') || ('A' <= c && c <= 'Z') {
        Category::Letter
    } else if c == '~' {
        Category::Active
    } else if c == '%' {
        Category::Comment
    } else if (c as int) < 32 {
        Category::Invalid
    } else {
        Category::Other
    }
}

/// The categories of all characters when a tokenizer is created.
pub open spec fn default_categories() -> Map<char, Category> {
    Map::total(|c: char| default_category(c))
}

/// The location of columns `start` to `end` of line `line`.
pub open spec fn span_of(line: int, start: int, end: int) -> Span {
    Span { line: line as usize, start: start as usize, end: end as usize, unknown: false }
}

/// `v` after scanning up to column `pos`, in state `state`, with `tokens` produced.
pub open spec fn emit(
    v: TokenizerView,
    pos: int,
    state: TokenizerState,
    tokens: Seq<TokenView>,
) -> TokenizerView {
    TokenizerView { pos, state, queue: v.queue + tokens, ..v }
}

/// The name of the control sequence that a blank line stands for.
pub open spec fn par_name() -> Seq<char> {
    seq!['p', 'a', 'r']
}

/// An escape character was read from column `v.pos` and ended before column `after`.
///
/// The next character starts the name. A letter draws all following letters
/// into the name, and blanks after it are dropped; after a space blanks are
/// dropped too. With no character left on the line the name is empty and the
/// state stays as it was.
pub open spec fn scan_control_sequence(v: TokenizerView, after: int) -> TokenizerView {
    match char_at(v.categories, v.line, after) {
        None => emit(
            v,
            after,
            v.state,
            seq![TokenView::ControlSequence(Seq::empty(), span_of(v.line_number, v.pos, after - 1))],
        ),
        Some((c, n)) => match v.categories[c] {
            Category::Letter => {
                let end = run_end(v.categories, v.line, after + n, Category::Letter);
                let name = seq![c] + run_text(v.categories, v.line, after + n, Category::Letter);
                emit(
                    v,
                    end,
                    TokenizerState::SkippingBlanks,
                    seq![TokenView::ControlSequence(name, span_of(v.line_number, v.pos, end - 1))],
                )
            },
            Category::Space => emit(
                v,
                after + n,
                TokenizerState::SkippingBlanks,
                seq![TokenView::ControlSequence(seq![c], span_of(v.line_number, v.pos, after + n - 1))],
            ),
            _ => emit(
                v,
                after + n,
                TokenizerState::LineMiddle,
                seq![TokenView::ControlSequence(seq![c], span_of(v.line_number, v.pos, after + n - 1))],
            ),
        },
    }
}

/// An end-of-line character was read from column `v.pos` and ended before column `after`.
///
/// The rest of the line is dropped, and reported if there was any. Then a
/// line on which nothing was read yet gives a paragraph break, a line read up
/// to its middle gives a space, and after dropped blanks nothing is given.
pub open spec fn scan_end_of_line(v: TokenizerView, after: int) -> TokenizerView {
    let dropped = rest_text(v.categories, v.line, after);
    let report = if dropped.len() > 0 {
        seq![
            TokenView::Other(
                OtherTokenView::Skipped(dropped),
                span_of(v.line_number, v.pos, v.line.len() - 1),
            ),
        ]
    } else {
        Seq::empty()
    };
    let closing = match v.state {
        TokenizerState::LineStart => seq![
            TokenView::ControlSequence(par_name(), span_of(v.line_number, v.pos, after - 1)),
        ],
        TokenizerState::LineMiddle => seq![TokenView::Character(' ', v.categories[' '])],
        TokenizerState::SkippingBlanks => Seq::empty(),
    };
    emit(v, v.line.len() as int, v.state, report + closing)
}

/// The space character `c` was read from column `v.pos` and ended before column `after`.
///
/// In the middle of a line it gives one space token. Elsewhere it is dropped
/// together with all blanks that follow, and the dropped text is reported.
pub open spec fn scan_space(v: TokenizerView, c: char, after: int) -> TokenizerView {
    match v.state {
        TokenizerState::LineMiddle => emit(
            v,
            after,
            TokenizerState::SkippingBlanks,
            seq![TokenView::Character(' ', v.categories[' '])],
        ),
        _ => {
            let end = run_end(v.categories, v.line, after, Category::Space);
            let blanks = seq![c] + run_text(v.categories, v.line, after, Category::Space);
            emit(
                v,
                end,
                v.state,
                seq![
                    TokenView::Other(
                        OtherTokenView::Skipped(blanks),
                        span_of(v.line_number, v.pos, end - 1),
                    ),
                ],
            )
        },
    }
}

/// A comment character was read from column `v.pos` and ended before column
/// `after`: the rest of the line is the comment.
pub open spec fn scan_comment(v: TokenizerView, after: int) -> TokenizerView {
    emit(
        v,
        v.line.len() as int,
        v.state,
        seq![
            TokenView::Other(
                OtherTokenView::Comment(rest_text(v.categories, v.line, after)),
                span_of(v.line_number, v.pos, v.line.len() - 1),
            ),
        ],
    )
}

/// One step of the scanner: reads the character at column `v.pos` and
/// whatever its category draws in, and appends the tokens it gives to the queue.
pub open spec fn scan(v: TokenizerView) -> TokenizerView
    recommends
        0 <= v.pos < v.line.len(),
{
    let (c, n) = char_at(v.categories, v.line, v.pos).unwrap();
    let after = v.pos + n;
    let here = span_of(v.line_number, v.pos, after - 1);
    match v.categories[c] {
        Category::Escape => scan_control_sequence(v, after),
        Category::EndOfLine => scan_end_of_line(v, after),
        Category::Ignored => emit(
            v,
            after,
            v.state,
            seq![TokenView::Other(OtherTokenView::IgnoredCharacter(c), here)],
        ),
        Category::Space => scan_space(v, c, after),
        Category::Comment => scan_comment(v, after),
        Category::Invalid => emit(
            v,
            after,
            v.state,
            seq![TokenView::Other(OtherTokenView::InvalidCharacter(c), here)],
        ),
        category => emit(v, after, TokenizerState::LineMiddle, seq![TokenView::Character(c, category)]),
    }
}

/// `text` without the spaces at its end.
pub open spec fn strip_trailing_spaces(text: Seq<char>) -> Seq<char>
    decreases text.len(),
{
    if text.len() > 0 && text.last() == ' ' {
        strip_trailing_spaces(text.drop_last())
    } else {
        text
    }
}

/// A raw line made ready for scanning: trailing spaces are removed, then the
/// end-of-line character is appended unless its code exceeds 255.
pub open spec fn prepared_line(raw: Seq<char>, end_of_line: char) -> Seq<char> {
    let text = strip_trailing_spaces(raw);
    if end_of_line as int <= 255 {
        text.push(end_of_line)
    } else {
        text
    }
}

/// `v` after the raw line `raw` was loaded.
pub open spec fn load(v: TokenizerView, raw: Seq<char>) -> TokenizerView {
    TokenizerView {
        state: TokenizerState::LineStart,
        line: prepared_line(raw, v.end_of_line),
        pos: 0,
        line_number: v.line_number + 1,
        ..v
    }
}

/// The outcome of asking for the next token.
pub struct Pulled {
    /// The token delivered, or `None` at the end of the input.
    pub token: Option<TokenView>,
    /// The tokenizer afterwards.
    pub after: TokenizerView,
    /// The lines that are left to read.
    pub rest: Seq<String>,
}

/// Asks a tokenizer `v` that has the lines `lines` left to read for its next token.
///
/// The oldest queued token is delivered if there is one. Otherwise the
/// scanner takes a step on the current line, or, at the end of that line,
/// the next line is loaded, and the question is asked again. At the end of
/// the last line there is no token, and nothing is left to read.
pub open spec fn pull(v: TokenizerView, lines: Seq<String>) -> Pulled
    decreases lines.len(), v.line.len() - v.pos,
    via pull_decreases
{
    if v.queue.len() > 0 {
        Pulled {
            token: Some(v.queue[0]),
            after: TokenizerView { queue: v.queue.drop_first(), ..v },
            rest: lines,
        }
    } else if 0 <= v.pos < v.line.len() {
        pull(scan(v), lines)
    } else if lines.len() > 0 {
        pull(load(v, lines[0]@), lines.drop_first())
    } else {
        Pulled {
            token: None,
            after: TokenizerView { state: TokenizerState::LineStart, ..v },
            rest: lines,
        }
    }
}

#[via_fn]
proof fn pull_decreases(v: TokenizerView, lines: Seq<String>) {
    if v.queue.len() > 0 {
    } else if 0 <= v.pos < v.line.len() {
        lemma_scan_advances(v);
    }
}

/// The code of a character is a Unicode scalar value.
pub proof fn lemma_char_code(c: char)
    ensures
        0 <= c as int <= 0xD7FF || 0xE000 <= c as int <= 0x10FFFF,
{
}

/// A run ends between its start and the end of the line.
pub proof fn lemma_run_bounds(cats: Map<char, Category>, line: Seq<char>, pos: int, cat: Category)
    requires
        0 <= pos <= line.len(),
    ensures
        pos <= run_end(cats, line, pos, cat) <= line.len(),
    decreases line.len() - pos,
{
    match char_at(cats, line, pos) {
        Some((c, n)) => {
            if cats[c] == cat {
                lemma_run_bounds(cats, line, pos + n, cat);
            }
        },
        None => {},
    }
}

/// A step of the scanner moves forward on the same line.
pub proof fn lemma_scan_advances(v: TokenizerView)
    requires
        0 <= v.pos < v.line.len(),
    ensures
        v.pos < scan(v).pos <= v.line.len(),
        scan(v).line == v.line,
        scan(v).categories == v.categories,
        scan(v).end_of_line == v.end_of_line,
        scan(v).line_number == v.line_number,
{
    let (c, n) = char_at(v.categories, v.line, v.pos).unwrap();
    let after = v.pos + n;
    match v.categories[c] {
        Category::Escape => {
            match char_at(v.categories, v.line, after) {
                None => {},
                Some((d, m)) => {
                    lemma_run_bounds(v.categories, v.line, after + m, Category::Letter);
                },
            }
        },
        Category::Space => {
            lemma_run_bounds(v.categories, v.line, after, Category::Space);
        },
        _ => {},
    }
}

/// A step of the scanner leaves the queued tokens in place and adds at most two at the end.
pub proof fn lemma_scan_appends(v: TokenizerView)
    requires
        0 <= v.pos < v.line.len(),
    ensures
        v.queue.len() <= scan(v).queue.len() <= v.queue.len() + 2,
        scan(v).queue.take(v.queue.len() as int) == v.queue,
{
    let (c, n) = char_at(v.categories, v.line, v.pos).unwrap();
    lemma_char_code(c);
    assert(scan(v).queue.take(v.queue.len() as int) =~= v.queue);
}

/// A token as the scanner gives it: it is no parameter, and where it has a
/// location, the location is a real one.
pub open spec fn scanned(t: TokenView) -> bool {
    match t {
        TokenView::ControlSequence(_, span) => !span.unknown,
        TokenView::Character(_, _) => true,
        TokenView::Parameter(_) => false,
        TokenView::Other(_, span) => !span.unknown,
    }
}

/// All tokens of the queue are as the scanner gives them.
pub open spec fn all_scanned(queue: Seq<TokenView>) -> bool {
    forall|i: int| 0 <= i < queue.len() ==> scanned(#[trigger] queue[i])
}

/// A step of the scanner queues no parameter token and no token with the placeholder location.
pub proof fn lemma_scan_queues_scanned_tokens(v: TokenizerView)
    requires
        0 <= v.pos < v.line.len(),
        all_scanned(v.queue),
    ensures
        all_scanned(scan(v).queue),
{
    let (c, n) = char_at(v.categories, v.line, v.pos).unwrap();
    lemma_char_code(c);
}

/// A tokenizer that holds only scanned tokens delivers only such tokens:
/// never a parameter, never the placeholder location.
pub proof fn lemma_pull_delivers_scanned_tokens(v: TokenizerView, lines: Seq<String>)
    requires
        all_scanned(v.queue),
    ensures
        pull(v, lines).token matches Some(t) ==> scanned(t),
        all_scanned(pull(v, lines).after.queue),
    decreases lines.len(), v.line.len() - v.pos,
{
    if v.queue.len() > 0 {
        assert(all_scanned(v.queue.drop_first()));
    } else if 0 <= v.pos < v.line.len() {
        lemma_scan_advances(v);
        lemma_scan_queues_scanned_tokens(v);
        lemma_pull_delivers_scanned_tokens(scan(v), lines);
    } else if lines.len() > 0 {
        lemma_pull_delivers_scanned_tokens(load(v, lines[0]@), lines.drop_first());
    }
}

/// The end of the input is final: a tokenizer that has delivered `None` has
/// read all lines, and asked again without new lines it delivers `None`
/// and stays as it is.
pub proof fn lemma_end_is_permanent(v: TokenizerView, lines: Seq<String>)
    requires
        pull(v, lines).token is None,
    ensures
        pull(v, lines).rest.len() == 0,
        pull(pull(v, lines).after, pull(v, lines).rest) == pull(v, lines),
    decreases lines.len(), v.line.len() - v.pos,
{
    if v.queue.len() > 0 {
    } else if 0 <= v.pos < v.line.len() {
        lemma_scan_advances(v);
        lemma_end_is_permanent(scan(v), lines);
    } else if lines.len() > 0 {
        lemma_end_is_permanent(load(v, lines[0]@), lines.drop_first());
    }
}

/// Every line that is loaded is counted: the line number grows by the
/// number of lines read.
pub proof fn lemma_pull_counts_lines(v: TokenizerView, lines: Seq<String>)
    ensures
        pull(v, lines).after.line_number + pull(v, lines).rest.len() == v.line_number + lines.len(),
        pull(v, lines).after.categories == v.categories,
        pull(v, lines).after.end_of_line == v.end_of_line,
    decreases lines.len(), v.line.len() - v.pos,
{
    if v.queue.len() > 0 {
    } else if 0 <= v.pos < v.line.len() {
        lemma_scan_advances(v);
        lemma_pull_counts_lines(scan(v), lines);
    } else if lines.len() > 0 {
        lemma_pull_counts_lines(load(v, lines[0]@), lines.drop_first());
    }
}

} // verus!
