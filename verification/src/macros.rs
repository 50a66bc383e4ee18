//! Macro definitions: the token lists of a definition are checked and their
//! parameter markers resolved.

use crate::token::{token_views, Category, Token, TokenView};
use vstd::prelude::*;
use vstd::std_specs::cmp::PartialEqSpecImpl;

verus! {

/// A stretch of the input, from one position to another. A position is a
/// line number and a column.
///
/// A span marked `unknown` stands for "any location": it compares equal to
/// every span.
#[derive(Debug, Clone, Copy)]
pub struct Span {
    /// Line number and column of the start.
    pub start: (usize, usize),
    /// Line number and column of the end.
    pub end: (usize, usize),
    /// Set on the placeholder that matches every span.
    pub unknown: bool,
}

impl Span {
    pub fn new(start: (usize, usize), end: (usize, usize)) -> (span: Self)
        ensures
            span == (Span { start, end, unknown: false }),
    {
        Span { start, end, unknown: false }
    }

    /// Moves the end of the span to `end`.
    pub fn extend_to(&mut self, end: (usize, usize))
        ensures
            *final(self) == (Span { end, ..*old(self) }),
    {
        self.end = end;
    }

    /// The placeholder span, which is equal to any other span.
    pub fn any() -> (span: Self)
        ensures
            span == (Span { start: (0, 0), end: (0, 0), unknown: true }),
    {
        Span { start: (0, 0), end: (0, 0), unknown: true }
    }

    /// Whether two spans compare equal: they name the same stretch, or one
    /// of them is the placeholder.
    pub open spec fn agrees(self, other: Span) -> bool {
        ||| self.unknown
        ||| other.unknown
        ||| (self.start == other.start && self.end == other.end)
    }
}

impl PartialEq for Span {
    fn eq(&self, other: &Self) -> (r: bool) {
        self.unknown || other.unknown || (self.start.0 == other.start.0 && self.start.1
            == other.start.1 && self.end.0 == other.end.0 && self.end.1 == other.end.1)
    }
}

impl PartialEqSpecImpl for Span {
    open spec fn obeys_eq_spec() -> bool {
        true
    }

    open spec fn eq_spec(&self, other: &Self) -> bool {
        self.agrees(*other)
    }
}

/// Why a macro definition was rejected.
#[derive(Debug, Copy, Clone, PartialEq, Eq, Structural)]
pub enum ExpansionError {
    /// What is being defined is not a control sequence.
    InvalidDefName,
    /// A group character stands in the parameter text.
    ExplicitBracesInParameterText,
    /// The parameters are not numbered 1, 2, 3 and so on. Kept for stricter
    /// checking; `define` never returns it.
    NonConsecutiveParameterNumber,
    /// A parameter marker is not followed by a digit from 1 to 9 or by
    /// another parameter marker.
    InvalidParameterNumber,
}

impl ExpansionError {
    /// The short form of the error, as shown to a user.
    pub open spec fn message_text(self) -> Seq<char> {
        match self {
            ExpansionError::InvalidDefName => "Invalid Definition Name"@,
            ExpansionError::ExplicitBracesInParameterText => "Explicit Braces in Macro Parameter Text"@,
            ExpansionError::NonConsecutiveParameterNumber => "Non-Consecutive Parameter Number in Parameter Text"@,
            ExpansionError::InvalidParameterNumber => "Invalid Parameter Number"@,
        }
    }

    /// The rule that was broken, as a sentence.
    pub open spec fn description_text(self) -> Seq<char> {
        match self {
            ExpansionError::InvalidDefName => "The first argument of a macro definition must be a control sequence!"@,
            ExpansionError::ExplicitBracesInParameterText => "The macro parameter text cannot contain explicit groups!"@,
            ExpansionError::NonConsecutiveParameterNumber => "Macro parameters must be numbered consecutively!"@,
            ExpansionError::InvalidParameterNumber => "Macro parameter names must be numbers with category code 12!"@,
        }
    }

    /// The short form of the error, as shown to a user.
    pub fn message(&self) -> (text: &'static str)
        ensures
            text@ == self.message_text(),
    {
        match self {
            ExpansionError::InvalidDefName => "Invalid Definition Name",
            ExpansionError::ExplicitBracesInParameterText => "Explicit Braces in Macro Parameter Text",
            ExpansionError::NonConsecutiveParameterNumber => "Non-Consecutive Parameter Number in Parameter Text",
            ExpansionError::InvalidParameterNumber => "Invalid Parameter Number",
        }
    }

    /// The rule that was broken, as a sentence.
    pub fn description(&self) -> (text: &'static str)
        ensures
            text@ == self.description_text(),
    {
        match self {
            ExpansionError::InvalidDefName => "The first argument of a macro definition must be a control sequence!",
            ExpansionError::ExplicitBracesInParameterText => "The macro parameter text cannot contain explicit groups!",
            ExpansionError::NonConsecutiveParameterNumber => "Macro parameters must be numbered consecutively!",
            ExpansionError::InvalidParameterNumber => "Macro parameter names must be numbers with category code 12!",
        }
    }
}

/// A character of category `Parameter`: the marker that introduces a parameter.
pub open spec fn is_marker(t: TokenView) -> bool {
    t matches TokenView::Character(_, Category::Parameter)
}

/// A character of category `GroupOpen` or `GroupClose`.
pub open spec fn is_brace(t: TokenView) -> bool {
    t matches TokenView::Character(_, category) && (category == Category::GroupOpen || category
        == Category::GroupClose)
}

/// What the token that follows a parameter marker turns the two into: a
/// digit from 1 to 9 of category `Other` gives the parameter of that number,
/// and a second marker stands for itself. Any other token is an error.
pub open spec fn after_marker(t: TokenView) -> Option<TokenView> {
    match t {
        TokenView::Character(c, Category::Other) => if '1' <= c && c <= '9' {
            Some(TokenView::Parameter((c as int - 48) as u8))
        } else {
            None
        },
        TokenView::Character(_, Category::Parameter) => Some(t),
        _ => None,
    }
}

/// `rest` with `prefix` in front of it, if `rest` is no error.
pub open spec fn with_prefix(
    prefix: Seq<TokenView>,
    rest: Result<Seq<TokenView>, ExpansionError>,
) -> Result<Seq<TokenView>, ExpansionError> {
    match rest {
        Ok(list) => Ok(prefix + list),
        Err(e) => Err(e),
    }
}

/// A token list with its parameter markers resolved, or the first error in it.
///
/// A marker and the token after it become one token, as `after_marker`
/// says; a marker with nothing or with anything else after it is an
/// `InvalidParameterNumber`. A group character that follows no marker is an
/// `ExplicitBracesInParameterText`, unless `braces_allowed`. Every other
/// token stays as it is.
pub open spec fn normalized(tokens: Seq<TokenView>, braces_allowed: bool) -> Result<
    Seq<TokenView>,
    ExpansionError,
>
    decreases tokens.len(),
{
    if tokens.len() == 0 {
        Ok(Seq::empty())
    } else if is_marker(tokens[0]) {
        if tokens.len() == 1 {
            Err(ExpansionError::InvalidParameterNumber)
        } else {
            match after_marker(tokens[1]) {
                Some(t) => with_prefix(seq![t], normalized(tokens.skip(2), braces_allowed)),
                None => Err(ExpansionError::InvalidParameterNumber),
            }
        }
    } else if is_brace(tokens[0]) && !braces_allowed {
        Err(ExpansionError::ExplicitBracesInParameterText)
    } else {
        with_prefix(seq![tokens[0]], normalized(tokens.skip(1), braces_allowed))
    }
}

/// The mathematical value of a `Macro`.
pub struct MacroView {
    pub control_sequence: Seq<char>,
    pub parameter_text: Seq<TokenView>,
    pub replacement_text: Seq<TokenView>,
    pub location: Span,
}

/// Where a macro is defined, given the location of the control sequence that
/// names it: the definition starts where the control sequence starts, and its
/// end is left at line 0, column 0. An unknown location stays unknown.
pub open spec fn definition_site(span: crate::token::Span) -> Span {
    Span { start: (span.line, span.start), end: (0, 0), unknown: span.unknown }
}

/// The macro that a definition gives, or the error that rejects it.
///
/// The name must be a control sequence. The parameter text is normalized
/// with braces forbidden, then the replacement text with braces allowed or
/// not as `replacement_braces` says; the first error found is the result.
pub open spec fn definition(
    control_sequence: TokenView,
    parameter_text: Seq<TokenView>,
    replacement_text: Seq<TokenView>,
    replacement_braces: bool,
) -> Result<MacroView, ExpansionError> {
    match control_sequence {
        TokenView::ControlSequence(name, span) => match normalized(parameter_text, false) {
            Err(e) => Err(e),
            Ok(parameters) => match normalized(replacement_text, replacement_braces) {
                Err(e) => Err(e),
                Ok(replacement) => Ok(
                    MacroView {
                        control_sequence: name,
                        parameter_text: parameters,
                        replacement_text: replacement,
                        location: definition_site(span),
                    },
                ),
            },
        },
        _ => Err(ExpansionError::InvalidDefName),
    }
}

/// Represents the definition of a TeX macro.
#[derive(Debug, Clone, PartialEq)]
pub struct Macro {
    /// The control sequence name of this macro.
    control_sequence: String,
    /// Parameter token list.
    parameter_text: Vec<Token>,
    /// Output token list.
    replacement_text: Vec<Token>,
    /// Where the macro was defined.
    location: Span,
}

impl View for Macro {
    type V = MacroView;

    closed spec fn view(&self) -> MacroView {
        MacroView {
            control_sequence: self.control_sequence@,
            parameter_text: token_views(self.parameter_text@),
            replacement_text: token_views(self.replacement_text@),
            location: self.location,
        }
    }
}

impl Macro {
    /// Resolves the parameter markers of a token list.
    fn parse_param_list(tokens: Vec<Token>, braces_allowed: bool) -> (r: Result<
        Vec<Token>,
        ExpansionError,
    >)
        ensures
            match r {
                Ok(list) => normalized(token_views(tokens@), braces_allowed) == Ok::<
                    Seq<TokenView>,
                    ExpansionError,
                >(token_views(list@)),
                Err(e) => normalized(token_views(tokens@), braces_allowed) == Err::<
                    Seq<TokenView>,
                    ExpansionError,
                >(e),
            },
    {
        broadcast use vstd::std_specs::vec::axiom_spec_into_iter;

        let ghost all = token_views(tokens@);
        let mut out: Vec<Token> = Vec::new();
        let mut arg_start = false;
        proof {
            assert(all.skip(0) =~= all);
            lemma_with_empty_prefix(normalized(all, braces_allowed));
        }
        for token in it: tokens.into_iter()
            invariant
                it.seq() == tokens@,
                all == token_views(tokens@),
                arg_start ==> it.index() > 0 && is_marker(all[it.index() - 1]),
                normalized(all, braces_allowed) == with_prefix(
                    token_views(out@),
                    normalized(
                        all.skip(
                            if arg_start {
                                it.index() - 1
                            } else {
                                it.index()
                            },
                        ),
                        braces_allowed,
                    ),
                ),
        {
            let ghost i = it.index();
            let ghost done = token_views(out@);
            let ghost tail = normalized(all.skip(i + 1), braces_allowed);
            proof {
                assert(all.skip(i).skip(1) =~= all.skip(i + 1));
                if arg_start {
                    assert(all.skip(i - 1).skip(2) =~= all.skip(i + 1));
                }
                lemma_prefix_grows(done, token@, tail);
                if after_marker(token@) is Some {
                    lemma_prefix_grows(done, after_marker(token@).unwrap(), tail);
                }
            }
            if arg_start {
                match token {
                    Token::Character(c, category) => {
                        match category {
                            Category::Other => {
                                if '1' <= c && c <= '9' {
                                    out.push(Token::Parameter((c as u8) - 48));
                                } else {
                                    return Err(ExpansionError::InvalidParameterNumber);
                                }
                            },
                            Category::Parameter => {
                                out.push(Token::Character(c, category));
                            },
                            _ => {
                                return Err(ExpansionError::InvalidParameterNumber);
                            },
                        }
                    },
                    _ => {
                        return Err(ExpansionError::InvalidParameterNumber);
                    },
                }
                arg_start = false;
                proof {
                    assert(token_views(out@) =~= done.push(after_marker(token@).unwrap()));
                }
            } else {
                match token {
                    Token::Character(c, category) => {
                        match category {
                            Category::Parameter => {
                                arg_start = true;
                            },
                            Category::GroupOpen | Category::GroupClose => {
                                if braces_allowed {
                                    out.push(Token::Character(c, category));
                                    proof {
                                        assert(token_views(out@) =~= done.push(token@));
                                    }
                                } else {
                                    return Err(ExpansionError::ExplicitBracesInParameterText);
                                }
                            },
                            _ => {
                                out.push(Token::Character(c, category));
                                proof {
                                    assert(token_views(out@) =~= done.push(token@));
                                }
                            },
                        }
                    },
                    other => {
                        out.push(other);
                        proof {
                            assert(token_views(out@) =~= done.push(token@));
                        }
                    },
                }
            }
        }
        if arg_start {
            return Err(ExpansionError::InvalidParameterNumber);
        }
        Ok(out)
    }

    /// Defines the macro named by `control_sequence`, with braces forbidden
    /// in both token lists.
    pub fn define(
        control_sequence: Token,
        parameter_text: Vec<Token>,
        replacement_text: Vec<Token>,
    ) -> (r: Result<Macro, ExpansionError>)
        ensures
            match r {
                Ok(m) => definition(
                    control_sequence@,
                    token_views(parameter_text@),
                    token_views(replacement_text@),
                    false,
                ) == Ok::<MacroView, ExpansionError>(m@),
                Err(e) => definition(
                    control_sequence@,
                    token_views(parameter_text@),
                    token_views(replacement_text@),
                    false,
                ) == Err::<MacroView, ExpansionError>(e),
            },
    {
        Self::define_with(control_sequence, parameter_text, replacement_text, false)
    }

    /// Defines the macro named by `control_sequence`. Braces are forbidden
    /// in the parameter text; in the replacement text they are allowed if
    /// `replacement_braces` is set.
    pub fn define_with(
        control_sequence: Token,
        parameter_text: Vec<Token>,
        replacement_text: Vec<Token>,
        replacement_braces: bool,
    ) -> (r: Result<Macro, ExpansionError>)
        ensures
            match r {
                Ok(m) => definition(
                    control_sequence@,
                    token_views(parameter_text@),
                    token_views(replacement_text@),
                    replacement_braces,
                ) == Ok::<MacroView, ExpansionError>(m@),
                Err(e) => definition(
                    control_sequence@,
                    token_views(parameter_text@),
                    token_views(replacement_text@),
                    replacement_braces,
                ) == Err::<MacroView, ExpansionError>(e),
            },
    {
        let (name, span) = match control_sequence {
            Token::ControlSequence(name, span) => (name, span),
            _ => {
                return Err(ExpansionError::InvalidDefName);
            },
        };
        let parameters = match Self::parse_param_list(parameter_text, false) {
            Ok(list) => list,
            Err(e) => {
                return Err(e);
            },
        };
        let replacement = match Self::parse_param_list(replacement_text, replacement_braces) {
            Ok(list) => list,
            Err(e) => {
                return Err(e);
            },
        };
        Ok(
            Macro {
                control_sequence: name,
                parameter_text: parameters,
                replacement_text: replacement,
                location: Span {
                    start: (span.line, span.start),
                    end: (0, 0),
                    unknown: span.unknown,
                },
            },
        )
    }

    /// The control sequence name of this macro.
    pub fn control_sequence(&self) -> (name: &String)
        ensures
            name@ == self@.control_sequence,
    {
        &self.control_sequence
    }

    /// The parameter text, with parameter markers resolved.
    pub fn parameter_text(&self) -> (tokens: &Vec<Token>)
        ensures
            token_views(tokens@) == self@.parameter_text,
    {
        &self.parameter_text
    }

    /// The replacement text, with parameter markers resolved.
    pub fn replacement_text(&self) -> (tokens: &Vec<Token>)
        ensures
            token_views(tokens@) == self@.replacement_text,
    {
        &self.replacement_text
    }

    /// Where the macro was defined.
    pub fn location(&self) -> (span: Span)
        ensures
            span == self@.location,
    {
        self.location
    }
}

/// An empty prefix changes nothing.
pub proof fn lemma_with_empty_prefix(rest: Result<Seq<TokenView>, ExpansionError>)
    ensures
        with_prefix(Seq::empty(), rest) == rest,
{
    match rest {
        Ok(list) => {
        },
        Err(_) => {},
    }
}

/// Moving a token from the front of the rest to the end of the prefix changes nothing.
pub proof fn lemma_prefix_grows(
    prefix: Seq<TokenView>,
    t: TokenView,
    rest: Result<Seq<TokenView>, ExpansionError>,
)
    ensures
        with_prefix(prefix, with_prefix(seq![t], rest)) == with_prefix(prefix.push(t), rest),
{
    match rest {
        Ok(list) => {
            assert(prefix + (seq![t] + list) =~= prefix.push(t) + list);
        },
        Err(_) => {},
    }
}

/// A token list that holds no parameter marker and no group character is
/// accepted as it stands.
pub proof fn lemma_plain_list_is_unchanged(tokens: Seq<TokenView>, braces_allowed: bool)
    requires
        forall|i: int| 0 <= i < tokens.len() ==> !is_marker(#[trigger] tokens[i]) && !is_brace(tokens[i]),
    ensures
        normalized(tokens, braces_allowed) == Ok::<Seq<TokenView>, ExpansionError>(tokens),
    decreases tokens.len(),
{
    if tokens.len() > 0 {
        let rest = tokens.skip(1);
        assert forall|i: int| 0 <= i < rest.len() implies !is_marker(#[trigger] rest[i]) && !is_brace(
            rest[i],
        ) by {
            assert(rest[i] == tokens[i + 1]);
        }
        lemma_plain_list_is_unchanged(rest, braces_allowed);
        assert(seq![tokens[0]] + rest =~= tokens);
    } else {
        assert(tokens =~= Seq::empty());
    }
}

/// Resolving markers never makes a list longer.
pub proof fn lemma_normalized_is_no_longer(tokens: Seq<TokenView>, braces_allowed: bool)
    ensures
        normalized(tokens, braces_allowed) matches Ok(list) ==> list.len() <= tokens.len(),
    decreases tokens.len(),
{
    if tokens.len() > 0 {
        if is_marker(tokens[0]) {
            if tokens.len() > 1 {
                lemma_normalized_is_no_longer(tokens.skip(2), braces_allowed);
            }
        } else {
            lemma_normalized_is_no_longer(tokens.skip(1), braces_allowed);
        }
    }
}

} // verus!
