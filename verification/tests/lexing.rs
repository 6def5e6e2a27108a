use covalent::lexer::{is_id, is_num, Lexer};
use covalent::token::Token;

fn tokens(code: &str) -> Vec<Token> {
    let mut lexer = Lexer::new(code.to_string());
    let mut out = Vec::new();
    loop {
        let t = lexer.tokenize();
        let end = matches!(t, Token::EOF);
        out.push(t);
        if end {
            return out;
        }
    }
}

#[test]
fn declaration_tokens() {
    let ts = tokens("set x = 5");
    assert_eq!(ts.len(), 5);
    assert!(matches!(ts[0], Token::SetKw));
    assert!(matches!(&ts[1], Token::Ident(x) if x == "x"));
    assert!(matches!(&ts[2], Token::Operator(o) if o == "="));
    assert!(matches!(ts[3], Token::Int(5)));
    assert!(matches!(ts[4], Token::EOF));
}

#[test]
fn operators_floats_and_comments() {
    let ts = tokens("a >= 2.5 # a note\nb == 10");
    assert_eq!(ts.len(), 7);
    assert!(matches!(&ts[0], Token::Ident(x) if x == "a"));
    assert!(matches!(&ts[1], Token::Operator(o) if o == ">="));
    assert!(matches!(&ts[2], Token::Float(f) if f == "2.5"));
    assert!(matches!(&ts[3], Token::Ident(x) if x == "b"));
    assert!(matches!(&ts[4], Token::Operator(o) if o == "=="));
    assert!(matches!(ts[5], Token::Int(10)));
    assert!(matches!(ts[6], Token::EOF));
}

#[test]
fn doubled_logic_operators() {
    let ts = tokens("&& & || < <= -> -");
    assert!(matches!(&ts[0], Token::Operator(o) if o == "&&"));
    assert!(matches!(&ts[1], Token::Operator(o) if o == "&"));
    assert!(matches!(&ts[2], Token::Operator(o) if o == "||"));
    assert!(matches!(&ts[3], Token::Operator(o) if o == "<"));
    assert!(matches!(&ts[4], Token::Operator(o) if o == "<="));
    assert!(matches!(ts[5], Token::Access));
    assert!(matches!(&ts[6], Token::Operator(o) if o == "-"));
    assert!(matches!(ts[7], Token::EOF));
}

#[test]
fn strings_with_either_quote() {
    let ts = tokens("\"hi there\" 'yo'");
    assert!(matches!(&ts[0], Token::Str(s) if s == "hi there"));
    assert!(matches!(&ts[1], Token::Str(s) if s == "yo"));
    assert!(matches!(ts[2], Token::EOF));
}

#[test]
fn brackets_and_punctuation() {
    let ts = tokens("{ [ ( ) ] } : , . !");
    assert!(matches!(ts[0], Token::LeftBracket));
    assert!(matches!(ts[1], Token::LeftBrace));
    assert!(matches!(ts[2], Token::LeftParen));
    assert!(matches!(ts[3], Token::RightParen));
    assert!(matches!(ts[4], Token::RightBrace));
    assert!(matches!(ts[5], Token::RightBracket));
    assert!(matches!(ts[6], Token::Colon));
    assert!(matches!(ts[7], Token::Comma));
    assert!(matches!(ts[8], Token::Dot));
    assert!(matches!(ts[9], Token::Exec));
    assert!(matches!(ts[10], Token::EOF));
}

#[test]
fn keywords_bools_and_tags() {
    let ts = tokens("if else while break continue ret true false __int__ __float__ other ");
    assert!(matches!(ts[0], Token::IfKw));
    assert!(matches!(ts[1], Token::ElseKw));
    assert!(matches!(ts[2], Token::WhileKw));
    assert!(matches!(ts[3], Token::BreakKw));
    assert!(matches!(ts[4], Token::Continuekw));
    assert!(matches!(ts[5], Token::RetKw));
    assert!(matches!(ts[6], Token::Bool(true)));
    assert!(matches!(ts[7], Token::Bool(false)));
    assert!(matches!(&ts[8], Token::Tag(t) if t == "int"));
    assert!(matches!(&ts[9], Token::Tag(t) if t == "float"));
    assert!(matches!(&ts[10], Token::Ident(x) if x == "other"));
}

#[test]
fn unknown_character_is_reported() {
    let mut lexer = Lexer::new("@".to_string());
    let t = lexer.tokenize();
    assert!(matches!(&t, Token::Error(e) if e == "code:AT000\nunknown char '@'\nat line:0, column:1"));
    assert_eq!(lexer.errors.len(), 1);
    assert_eq!(lexer.errors[0].msg, "unknown char '@'");
}

#[test]
fn unfinished_string_is_reported() {
    let mut lexer = Lexer::new("\"abc".to_string());
    let t = lexer.tokenize();
    assert!(matches!(t, Token::Error(_)));
    assert_eq!(lexer.errors.len(), 1);
    assert_eq!(
        lexer.errors[0].msg,
        "reached end of file and didnt finish string started at line 0, colmun 1"
    );
}

#[test]
fn lines_are_counted() {
    let mut lexer = Lexer::new("\n\n  @".to_string());
    let _ = lexer.tokenize();
    assert_eq!(lexer.errors[0].line, 2);
    assert_eq!(lexer.errors[0].column, 3);
}

#[test]
fn number_and_name_characters() {
    assert!(is_num('7'));
    assert!(is_num('.'));
    assert!(!is_num('a'));
    assert!(is_id('a'));
    assert!(is_id('_'));
    assert!(!is_id(' '));
    assert!(!is_id('('));
    assert!(!is_id('$'));
}

#[test]
fn numbers_with_a_dot_are_floats() {
    let mut lexer = Lexer::new("x".to_string());
    assert!(matches!(lexer.parse_num("42".to_string()), Token::Int(42)));
    assert!(matches!(lexer.parse_num("4.25".to_string()), Token::Float(f) if f == "4.25"));
}

#[test]
fn error_token_carries_the_appended_error() {
    let mut lexer = Lexer::new("a @ 1 ? 2".to_string());
    let mut seen = 0;
    loop {
        let before = lexer.errors.len();
        let t = lexer.tokenize();
        match &t {
            Token::Error(text) => {
                assert_eq!(lexer.errors.len(), before + 1);
                let last = lexer.errors.last().unwrap();
                assert!(matches!(last.kind, covalent::err::ErrKind::UnknownCharE));
                assert_eq!(text, &last.get_error());
                seen += 1;
            },
            _ => assert_eq!(lexer.errors.len(), before),
        }
        if matches!(t, Token::EOF) {
            break;
        }
    }
    assert_eq!(seen, 2);
    assert_eq!(lexer.errors[0].msg, "unknown char '@'");
    assert_eq!(lexer.errors[1].msg, "unknown char '?'");
}
