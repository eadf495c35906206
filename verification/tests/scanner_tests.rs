use ssa_builder::input::Input;
use ssa_builder::tokenizer::Tokenizer;
use ssa_builder::tokenizer_data::{
    RelOp, Token, PREDEFINED_INPUTNUM_ID, PREDEFINED_OUTPUTNEWLINE_ID, PREDEFINED_OUTPUTNUM_ID,
};

fn tokens(input: &[u8]) -> Vec<Token> {
    let mut tokenizer = Tokenizer::new(input);
    let mut out = Vec::new();
    while let Some(token) = tokenizer.next() {
        out.push(token);
    }
    out
}

#[test]
fn input_reads_byte_by_byte() {
    let mut input = Input::new(b"ab");
    assert_eq!(input.peek(), Some(b'a'));
    assert_eq!(input.peek(), Some(b'a'));
    assert_eq!(input.next(), Some(b'a'));
    assert_eq!(input.peek(), Some(b'b'));
    assert_eq!(input.next(), Some(b'b'));
    assert_eq!(input.peek(), None);
    assert_eq!(input.next(), None);
    assert_eq!(input.next(), None);
}

#[test]
fn input_of_empty_text() {
    let mut input = Input::new(b"");
    assert_eq!(input.peek(), None);
    assert_eq!(input.next(), None);
}

#[test]
fn operators_and_punctuation() {
    assert_eq!(
        tokens(b"+ - * / ( ) { } , ; ."),
        vec![
            Token::Plus,
            Token::Minus,
            Token::Times,
            Token::Divide,
            Token::OpenParen,
            Token::CloseParen,
            Token::OpenBrace,
            Token::CloseBrace,
            Token::Comma,
            Token::Semicolon,
            Token::Period,
        ]
    );
}

#[test]
fn relational_operators_and_arrow() {
    assert_eq!(
        tokens(b"== != < <= > >= <- ;"),
        vec![
            Token::RelOp(RelOp::Equal),
            Token::RelOp(RelOp::NotEqual),
            Token::RelOp(RelOp::LessThan),
            Token::RelOp(RelOp::LessThanOrEqual),
            Token::RelOp(RelOp::GreaterThan),
            Token::RelOp(RelOp::GreaterThanOrEqual),
            Token::Assignment,
            Token::Semicolon,
        ]
    );
}

#[test]
fn operators_need_no_space() {
    assert_eq!(
        tokens(b"a<-b<=c;"),
        vec![
            Token::Ident(3),
            Token::Assignment,
            Token::Ident(4),
            Token::RelOp(RelOp::LessThanOrEqual),
            Token::Ident(5),
            Token::Semicolon,
        ]
    );
}

#[test]
fn every_keyword() {
    assert_eq!(
        tokens(b"main var let call if fi then else while do od void function return ;"),
        vec![
            Token::Main,
            Token::Var,
            Token::Let,
            Token::Call,
            Token::If,
            Token::Fi,
            Token::Then,
            Token::Else,
            Token::While,
            Token::Do,
            Token::Od,
            Token::Void,
            Token::Function,
            Token::Return,
            Token::Semicolon,
        ]
    );
}

#[test]
fn keywords_are_whole_words() {
    assert_eq!(
        tokens(b"mainly iff do1 Main ;"),
        vec![Token::Ident(3), Token::Ident(4), Token::Ident(5), Token::Ident(6), Token::Semicolon]
    );
}

#[test]
fn builtins_have_reserved_ids() {
    assert_eq!(PREDEFINED_INPUTNUM_ID, 0);
    assert_eq!(PREDEFINED_OUTPUTNUM_ID, 1);
    assert_eq!(PREDEFINED_OUTPUTNEWLINE_ID, 2);
    assert_eq!(
        tokens(b"OutputNewLine OutputNum InputNum x ;"),
        vec![Token::Ident(2), Token::Ident(1), Token::Ident(0), Token::Ident(3), Token::Semicolon]
    );
}

#[test]
fn identifiers_are_interned_in_order_of_first_use() {
    assert_eq!(
        tokens(b"x y x z y ;"),
        vec![
            Token::Ident(3),
            Token::Ident(4),
            Token::Ident(3),
            Token::Ident(5),
            Token::Ident(4),
            Token::Semicolon,
        ]
    );
}

#[test]
fn names_of_identifiers() {
    let mut tokenizer = Tokenizer::new(b"count x9 ;");
    assert_eq!(tokenizer.ident_count(), 4);
    assert_eq!(tokenizer.next(), Some(Token::Ident(3)));
    assert_eq!(tokenizer.ident_count(), 5);
    assert_eq!(tokenizer.get_var(0), "InputNum");
    assert_eq!(tokenizer.get_var(1), "OutputNum");
    assert_eq!(tokenizer.get_var(2), "OutputNewLine");
    assert_eq!(tokenizer.get_var(3), "count");
    assert_eq!(tokenizer.get_var(4), "x9");
}

#[test]
fn numbers() {
    assert_eq!(
        tokens(b"0 7 42 007 1234567890 ;"),
        vec![
            Token::Number(0),
            Token::Number(7),
            Token::Number(42),
            Token::Number(7),
            Token::Number(1234567890),
            Token::Semicolon,
        ]
    );
}

#[test]
fn a_number_ends_where_a_letter_starts() {
    assert_eq!(tokens(b"12ab ;"), vec![Token::Number(12), Token::Ident(3), Token::Semicolon]);
}

#[test]
fn the_largest_number_that_fits() {
    let text = format!("{} ;", isize::MAX);
    assert_eq!(tokens(text.as_bytes()), vec![Token::Number(isize::MAX), Token::Semicolon]);
}

#[test]
fn a_number_that_does_not_fit_is_no_token() {
    let mut tokenizer = Tokenizer::new(b"x 99999999999999999999999999 y");
    assert_eq!(tokenizer.next(), Some(Token::Ident(3)));
    // The number is read whole and yields nothing; the scanner goes on
    // behind it when it is asked again.
    assert_eq!(tokenizer.peek(), None);
    assert_eq!(tokenizer.next(), None);
    assert_eq!(tokenizer.next(), Some(Token::Ident(4)));
    assert_eq!(tokenizer.next(), None);
}

#[test]
fn peek_does_not_read() {
    let mut tokenizer = Tokenizer::new(b"let x");
    assert_eq!(tokenizer.peek(), Some(Token::Let));
    assert_eq!(tokenizer.peek(), Some(Token::Let));
    assert_eq!(tokenizer.next(), Some(Token::Let));
    assert_eq!(tokenizer.peek(), Some(Token::Ident(3)));
}

#[test]
fn end_of_input() {
    let mut tokenizer = Tokenizer::new(b"  \n ");
    assert_eq!(tokenizer.peek(), None);
    assert_eq!(tokenizer.next(), None);
    assert_eq!(tokenizer.next(), None);
}

#[test]
fn a_byte_that_starts_no_token_is_not_read() {
    let mut tokenizer = Tokenizer::new(b"x # y");
    assert_eq!(tokenizer.next(), Some(Token::Ident(3)));
    assert_eq!(tokenizer.peek(), None);
    assert_eq!(tokenizer.next(), None);
    assert_eq!(tokenizer.next(), None);
    assert_eq!(tokenizer.ident_count(), 4);
}

#[test]
fn a_tab_is_no_space() {
    let mut tokenizer = Tokenizer::new(b"x\ty");
    assert_eq!(tokenizer.next(), Some(Token::Ident(3)));
    assert_eq!(tokenizer.next(), None);
}

#[test]
fn a_single_equal_sign_is_read_and_is_no_token() {
    let mut tokenizer = Tokenizer::new(b"x = y");
    assert_eq!(tokenizer.next(), Some(Token::Ident(3)));
    assert_eq!(tokenizer.next(), None);
    assert_eq!(tokenizer.next(), Some(Token::Ident(4)));
}

#[test]
fn a_single_bang_is_read_and_is_no_token() {
    let mut tokenizer = Tokenizer::new(b"!x");
    assert_eq!(tokenizer.peek(), None);
    assert_eq!(tokenizer.next(), None);
    assert_eq!(tokenizer.next(), Some(Token::Ident(3)));
}

#[test]
fn an_angle_bracket_is_an_operator_also_at_the_end_of_the_input() {
    assert_eq!(tokens(b"x <"), vec![Token::Ident(3), Token::RelOp(RelOp::LessThan)]);
    assert_eq!(tokens(b"x >"), vec![Token::Ident(3), Token::RelOp(RelOp::GreaterThan)]);
    assert_eq!(tokens(b"<"), vec![Token::RelOp(RelOp::LessThan)]);
    assert_eq!(
        tokens(b"x < "),
        vec![Token::Ident(3), Token::RelOp(RelOp::LessThan)]
    );
    assert_eq!(
        tokens(b"x > "),
        vec![Token::Ident(3), Token::RelOp(RelOp::GreaterThan)]
    );
    let mut tokenizer = Tokenizer::new(b"a <");
    assert_eq!(tokenizer.next(), Some(Token::Ident(3)));
    assert_eq!(tokenizer.peek(), Some(Token::RelOp(RelOp::LessThan)));
    assert_eq!(tokenizer.next(), Some(Token::RelOp(RelOp::LessThan)));
    assert_eq!(tokenizer.peek(), None);
}
