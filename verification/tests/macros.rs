use tex_parser::macros::{ExpansionError, Macro};
use tex_parser::token::{Category, Token, TokenizerInteraction, Tokenizer};

fn tokens(input: &str) -> Vec<Token> {
    let mut tokenizer = Tokenizer::new(input.lines().map(|s| s.to_owned()));
    // disable endlinechar
    tokenizer.set_endlinechar(std::char::from_u32(256).unwrap());
    let mut result = vec![];
    while let Some(token) = tokenizer.next() {
        result.push(token);
    }
    result
}

#[test]
fn define_macro() {
    let cs = Token::ControlSequence("test".to_owned(), tex_parser::token::Span::any());
    let param = vec![];
    let replacement = tokens("hello world!");
    assert!(Macro::define(cs, param, replacement).is_ok());
}

#[test]
fn define_macro_with_args() {
    let cs = Token::ControlSequence("PickTwo".to_owned(), tex_parser::token::Span::any());
    let param = tokens("#1abc#2");
    let replacement = tokens("(#1,#2)");
    assert_eq!(
        Err(ExpansionError::InvalidParameterNumber),
        Macro::define(cs.clone(), tokens("#0"), vec![])
    );
    assert_eq!(
        Err(ExpansionError::ExplicitBracesInParameterText),
        Macro::define(cs.clone(), tokens("#1{#2}"), vec![])
    );
    assert_eq!(
        Err(ExpansionError::InvalidParameterNumber),
        Macro::define(cs.clone(), tokens("#{#2"), vec![])
    );
    assert_eq!(
        Err(ExpansionError::InvalidParameterNumber),
        Macro::define(cs.clone(), tokens("#abc#2"), vec![])
    );
    let defined = Macro::define(cs, param, replacement).expect("could not define macro!");
    assert_eq!("PickTwo", defined.control_sequence());
    let mut parameter_text = vec![Token::Parameter(1)];
    parameter_text.extend(tokens("abc"));
    parameter_text.push(Token::Parameter(2));
    assert_eq!(&parameter_text, defined.parameter_text());
    assert_eq!(
        &vec![
            Token::Character('(', Category::Other),
            Token::Parameter(1),
            Token::Character(',', Category::Other),
            Token::Parameter(2),
            Token::Character(')', Category::Other),
        ],
        defined.replacement_text()
    );
    assert_eq!(tex_parser::macros::Span::any(), defined.location());
}

#[test]
fn parameter_text_is_normalized() {
    let cs = Token::ControlSequence("PickTwo".to_owned(), tex_parser::token::Span::new(3, 4, 11));
    let defined = Macro::define(cs, tokens("#1abc#2"), vec![]).unwrap();
    assert_eq!(
        &vec![
            Token::Parameter(1),
            Token::Character('a', Category::Letter),
            Token::Character('b', Category::Letter),
            Token::Character('c', Category::Letter),
            Token::Parameter(2),
        ],
        defined.parameter_text()
    );
    assert!(defined.replacement_text().is_empty());
}

#[test]
fn definition_site_starts_at_the_control_sequence() {
    let cs = Token::ControlSequence("a".to_owned(), tex_parser::token::Span::new(3, 4, 11));
    let defined = Macro::define(cs, vec![], vec![]).unwrap();
    let site = defined.location();
    assert_eq!((3, 4), site.start);
    assert_eq!((0, 0), site.end);
    assert!(!site.unknown);
    assert_eq!(tex_parser::macros::Span::new((3, 4), (0, 0)), site);
    assert_ne!(tex_parser::macros::Span::new((3, 5), (0, 0)), site);

    let anywhere = Token::ControlSequence("a".to_owned(), tex_parser::token::Span::any());
    let defined = Macro::define(anywhere, vec![], vec![]).unwrap();
    assert!(defined.location().unknown);
}

#[test]
fn name_must_be_a_control_sequence() {
    for name in [
        Token::Character('a', Category::Letter),
        Token::Parameter(1),
        Token::Other(
            tex_parser::token::OtherToken::Skipped(" ".to_owned()),
            tex_parser::token::Span::any(),
        ),
    ] {
        assert_eq!(Err(ExpansionError::InvalidDefName), Macro::define(name, vec![], vec![]));
    }
    // The name is looked at first.
    assert_eq!(
        Err(ExpansionError::InvalidDefName),
        Macro::define(Token::Parameter(1), tokens("#0"), tokens("{"))
    );
}

#[test]
fn every_digit_from_one_to_nine_names_a_parameter() {
    let cs = Token::ControlSequence("a".to_owned(), tex_parser::token::Span::any());
    let defined = Macro::define(cs.clone(), tokens("#1#2#3#4#5#6#7#8#9"), vec![]).unwrap();
    let expected: Vec<Token> = (1..=9).map(Token::Parameter).collect();
    assert_eq!(&expected, defined.parameter_text());
    // A digit of another category names nothing.
    let letter_digit = vec![
        Token::Character('#', Category::Parameter),
        Token::Character('1', Category::Letter),
    ];
    assert_eq!(
        Err(ExpansionError::InvalidParameterNumber),
        Macro::define(cs.clone(), letter_digit, vec![])
    );
    // Nor does a control sequence or a parameter.
    let control = vec![
        Token::Character('#', Category::Parameter),
        Token::ControlSequence("1".to_owned(), tex_parser::token::Span::any()),
    ];
    assert_eq!(Err(ExpansionError::InvalidParameterNumber), Macro::define(cs.clone(), control, vec![]));
    let resolved = vec![Token::Character('#', Category::Parameter), Token::Parameter(1)];
    assert_eq!(Err(ExpansionError::InvalidParameterNumber), Macro::define(cs, resolved, vec![]));
}

#[test]
fn doubled_marker_stands_for_itself() {
    let cs = Token::ControlSequence("a".to_owned(), tex_parser::token::Span::any());
    let defined = Macro::define(cs.clone(), tokens("a##b"), tokens("##1")).unwrap();
    assert_eq!(
        &vec![
            Token::Character('a', Category::Letter),
            Token::Character('#', Category::Parameter),
            Token::Character('b', Category::Letter),
        ],
        defined.parameter_text()
    );
    assert_eq!(
        &vec![Token::Character('#', Category::Parameter), Token::Character('1', Category::Other)],
        defined.replacement_text()
    );
    // Of two different markers the second one stays.
    let two = vec![
        Token::Character('#', Category::Parameter),
        Token::Character('!', Category::Parameter),
    ];
    let defined = Macro::define(cs, two, vec![]).unwrap();
    assert_eq!(&vec![Token::Character('!', Category::Parameter)], defined.parameter_text());
}

#[test]
fn marker_at_the_end_is_rejected() {
    let cs = Token::ControlSequence("a".to_owned(), tex_parser::token::Span::any());
    assert_eq!(
        Err(ExpansionError::InvalidParameterNumber),
        Macro::define(cs.clone(), tokens("#"), vec![])
    );
    assert_eq!(
        Err(ExpansionError::InvalidParameterNumber),
        Macro::define(cs.clone(), tokens("#1#"), vec![])
    );
    assert_eq!(
        Err(ExpansionError::InvalidParameterNumber),
        Macro::define(cs.clone(), tokens("###"), vec![])
    );
    assert_eq!(Err(ExpansionError::InvalidParameterNumber), Macro::define(cs, vec![], tokens("a#")));
}

#[test]
fn first_error_is_reported() {
    let cs = Token::ControlSequence("a".to_owned(), tex_parser::token::Span::any());
    assert_eq!(
        Err(ExpansionError::ExplicitBracesInParameterText),
        Macro::define(cs.clone(), tokens("a}#0"), vec![])
    );
    assert_eq!(
        Err(ExpansionError::InvalidParameterNumber),
        Macro::define(cs.clone(), tokens("a#0}"), vec![])
    );
    // The parameter text is looked at before the replacement text.
    assert_eq!(
        Err(ExpansionError::InvalidParameterNumber),
        Macro::define(cs.clone(), tokens("#0"), tokens("{"))
    );
    assert_eq!(
        Err(ExpansionError::ExplicitBracesInParameterText),
        Macro::define(cs, tokens("{"), tokens("#0"))
    );
}

#[test]
fn braces_in_the_replacement_text() {
    let cs = Token::ControlSequence("a".to_owned(), tex_parser::token::Span::any());
    assert_eq!(
        Err(ExpansionError::ExplicitBracesInParameterText),
        Macro::define(cs.clone(), vec![], tokens("{#1}"))
    );
    assert_eq!(
        Err(ExpansionError::ExplicitBracesInParameterText),
        Macro::define_with(cs.clone(), vec![], tokens("{#1}"), false)
    );
    let defined = Macro::define_with(cs.clone(), tokens("#1"), tokens("{#1}"), true).unwrap();
    assert_eq!(
        &vec![
            Token::Character('{', Category::GroupOpen),
            Token::Parameter(1),
            Token::Character('}', Category::GroupClose),
        ],
        defined.replacement_text()
    );
    // In the parameter text they stay forbidden.
    assert_eq!(
        Err(ExpansionError::ExplicitBracesInParameterText),
        Macro::define_with(cs.clone(), tokens("#1{"), vec![], true)
    );
    // A brace right after a marker is a wrong parameter number either way.
    assert_eq!(
        Err(ExpansionError::InvalidParameterNumber),
        Macro::define_with(cs, vec![], tokens("#{"), true)
    );
}

#[test]
fn other_tokens_pass_unchanged() {
    let cs = Token::ControlSequence("a".to_owned(), tex_parser::token::Span::new(1, 0, 1));
    let list = vec![
        Token::ControlSequence("b".to_owned(), tex_parser::token::Span::new(1, 2, 3)),
        Token::Parameter(4),
        Token::Other(
            tex_parser::token::OtherToken::Comment("c".to_owned()),
            tex_parser::token::Span::new(1, 4, 5),
        ),
        Token::Character('1', Category::Other),
        Token::Character('$', Category::MathShift),
    ];
    let defined = Macro::define(cs, list.clone(), list.clone()).unwrap();
    assert_eq!("a", defined.control_sequence());
    assert_eq!(&list, defined.parameter_text());
    assert_eq!(&list, defined.replacement_text());
}

#[test]
fn error_messages() {
    assert_eq!("Invalid Definition Name", ExpansionError::InvalidDefName.message());
    assert_eq!(
        "Explicit Braces in Macro Parameter Text",
        ExpansionError::ExplicitBracesInParameterText.message()
    );
    assert_eq!(
        "Non-Consecutive Parameter Number in Parameter Text",
        ExpansionError::NonConsecutiveParameterNumber.message()
    );
    assert_eq!("Invalid Parameter Number", ExpansionError::InvalidParameterNumber.message());
    assert_eq!(
        "The first argument of a macro definition must be a control sequence!",
        ExpansionError::InvalidDefName.description()
    );
    assert_eq!(
        "The macro parameter text cannot contain explicit groups!",
        ExpansionError::ExplicitBracesInParameterText.description()
    );
    assert_eq!(
        "Macro parameters must be numbered consecutively!",
        ExpansionError::NonConsecutiveParameterNumber.description()
    );
    assert_eq!(
        "Macro parameter names must be numbers with category code 12!",
        ExpansionError::InvalidParameterNumber.description()
    );
}

#[test]
fn macro_span_equality_and_extension() {
    let mut span = tex_parser::macros::Span::new((1, 2), (1, 5));
    assert_eq!((1, 2), span.start);
    assert_eq!((1, 5), span.end);
    span.extend_to((2, 7));
    assert_eq!((1, 2), span.start);
    assert_eq!((2, 7), span.end);
    assert_eq!(tex_parser::macros::Span::new((1, 2), (2, 7)), span);
    assert_ne!(tex_parser::macros::Span::new((1, 2), (1, 5)), span);
    assert_eq!(tex_parser::macros::Span::any(), span);
    assert_eq!(span, tex_parser::macros::Span::any());
    // A span of zeros that is not the placeholder is a place like any other.
    assert_ne!(tex_parser::macros::Span::new((0, 0), (0, 0)), span);
}
