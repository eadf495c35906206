//! The scanner: it turns the bytes of the source text into tokens, one
//! token ahead of its reader, and interns identifiers.
use vstd::prelude::*;
use crate::input::Input;
use crate::tokenizer_data::{RelOp, Token};

verus! {

// Characters
pub const ASCII_ZERO: u8 = 48;
pub const ASCII_NINE: u8 = 57;
pub const ASCII_LOWER_A: u8 = 97;
pub const ASCII_LOWER_Z: u8 = 122;
pub const ASCII_UPPER_A: u8 = 65;
pub const ASCII_UPPER_Z: u8 = 90;

// Symbols
pub const ASCII_COMMA: u8 = 44;
pub const ASCII_SEMICOLON: u8 = 59;
pub const ASCII_PERIOD: u8 = 46;

// Operators
pub const ASCII_PLUS: u8 = 43;
pub const ASCII_MINUS: u8 = 45;
pub const ASCII_ASTERISK: u8 = 42;
pub const ASCII_FORWARD_SLASH: u8 = 47;
pub const ASCII_EQUAL: u8 = 61;
pub const ASCII_BANG: u8 = 33;
pub const ASCII_LEFT_ARROW: u8 = 60;
pub const ASCII_RIGHT_ARROW: u8 = 62;

// Delimiters
pub const ASCII_SPACE: u8 = 32;
pub const ASCII_NEWLINE: u8 = 10;
pub const ASCII_OPEN_PAREN: u8 = 40;
pub const ASCII_CLOSE_PAREN: u8 = 41;
pub const ASCII_OPEN_BRACE: u8 = 123;
pub const ASCII_CLOSE_BRACE: u8 = 125;

/// Space and newline separate tokens.
pub open spec fn is_space(b: u8) -> bool {
    b == ASCII_SPACE || b == ASCII_NEWLINE
}

pub open spec fn is_letter(b: u8) -> bool {
    (ASCII_UPPER_A <= b && b <= ASCII_UPPER_Z) || (ASCII_LOWER_A <= b && b <= ASCII_LOWER_Z)
}

pub open spec fn is_digit(b: u8) -> bool {
    ASCII_ZERO <= b && b <= ASCII_NINE
}

pub open spec fn is_alnum(b: u8) -> bool {
    is_letter(b) || is_digit(b)
}

/// `s` without its leading spaces and newlines.
pub open spec fn skip_spaces(s: Seq<u8>) -> Seq<u8>
    decreases s.len(),
{
    if s.len() > 0 && is_space(s[0]) {
        skip_spaces(s.drop_first())
    } else {
        s
    }
}

/// The length of the longest prefix of `s` made of letters and digits.
pub open spec fn word_len(s: Seq<u8>) -> nat
    decreases s.len(),
{
    if s.len() > 0 && is_alnum(s[0]) {
        1 + word_len(s.drop_first())
    } else {
        0
    }
}

/// The length of the longest prefix of `s` made of digits.
pub open spec fn digits_len(s: Seq<u8>) -> nat
    decreases s.len(),
{
    if s.len() > 0 && is_digit(s[0]) {
        1 + digits_len(s.drop_first())
    } else {
        0
    }
}

/// The number that a sequence of decimal digits writes.
pub open spec fn digits_value(s: Seq<u8>) -> nat
    decreases s.len(),
{
    if s.len() == 0 {
        0
    } else {
        (digits_value(s.drop_last()) * 10 + (s.last() - ASCII_ZERO)) as nat
    }
}

/// The characters of a word of ASCII bytes.
pub open spec fn word_chars(s: Seq<u8>) -> Seq<char> {
    s.map_values(|b: u8| b as char)
}

/// The token of a reserved word; `None` for any other word.
pub open spec fn keyword(w: Seq<char>) -> Option<Token> {
    if w == "main"@ {
        Some(Token::Main)
    } else if w == "var"@ {
        Some(Token::Var)
    } else if w == "let"@ {
        Some(Token::Let)
    } else if w == "call"@ {
        Some(Token::Call)
    } else if w == "if"@ {
        Some(Token::If)
    } else if w == "fi"@ {
        Some(Token::Fi)
    } else if w == "then"@ {
        Some(Token::Then)
    } else if w == "else"@ {
        Some(Token::Else)
    } else if w == "while"@ {
        Some(Token::While)
    } else if w == "do"@ {
        Some(Token::Do)
    } else if w == "od"@ {
        Some(Token::Od)
    } else if w == "void"@ {
        Some(Token::Void)
    } else if w == "function"@ {
        Some(Token::Function)
    } else if w == "return"@ {
        Some(Token::Return)
    } else {
        None
    }
}

/// The first position at or after `from` where `idents` holds `w`; the
/// length of `idents` when there is none.
pub open spec fn position(idents: Seq<Seq<char>>, w: Seq<char>, from: int) -> int
    decreases idents.len() - from,
{
    if from < 0 || from >= idents.len() {
        idents.len() as int
    } else if idents[from] == w {
        from
    } else {
        position(idents, w, from + 1)
    }
}

/// The intern table once `w` was looked up in it: a word that is not in
/// the table is appended.
pub open spec fn interned(idents: Seq<Seq<char>>, w: Seq<char>) -> Seq<Seq<char>> {
    if position(idents, w, 0) == idents.len() {
        idents.push(w)
    } else {
        idents
    }
}

/// The names that the intern table starts with, at their reserved ids.
pub open spec fn predefined_idents() -> Seq<Seq<char>> {
    seq!["InputNum"@, "OutputNum"@, "OutputNewLine"@]
}

/// What one step of the scanner yields: the token, the bytes left unread
/// and the intern table.
pub ghost struct LexOutcome {
    pub token: Option<Token>,
    pub rest: Seq<u8>,
    pub idents: Seq<Seq<char>>,
}

/// What follows `=` or `!`: only a second `=` makes a token.
pub open spec fn lex_pair(t: Seq<u8>, idents: Seq<Seq<char>>, op: RelOp) -> LexOutcome {
    if t.len() > 0 && t[0] == ASCII_EQUAL {
        LexOutcome { token: Some(Token::RelOp(op)), rest: t.drop_first(), idents }
    } else {
        LexOutcome { token: None, rest: t, idents }
    }
}

/// One step of the scanner on the unread bytes `input`.
///
/// Leading spaces and newlines are skipped. At the end of the input, and
/// on a byte that starts no token, there is no token and nothing is read.
/// A `<` or `>` is a relational operator whatever follows it, also at the
/// end of the input, unless `-` or `=` follows and makes a longer token. A
/// `=` or `!` that no `=` follows is read and gives no token. A word is the longest run of letters and
/// digits; a number the longest run of digits, and it gives no token when
/// its value does not fit the literal type.
pub open spec fn lex(input: Seq<u8>, idents: Seq<Seq<char>>) -> LexOutcome {
    let s = skip_spaces(input);
    if s.len() == 0 {
        LexOutcome { token: None, rest: s, idents }
    } else {
        let b = s[0];
        let t = s.drop_first();
        if b == ASCII_PLUS {
            LexOutcome { token: Some(Token::Plus), rest: t, idents }
        } else if b == ASCII_MINUS {
            LexOutcome { token: Some(Token::Minus), rest: t, idents }
        } else if b == ASCII_ASTERISK {
            LexOutcome { token: Some(Token::Times), rest: t, idents }
        } else if b == ASCII_FORWARD_SLASH {
            LexOutcome { token: Some(Token::Divide), rest: t, idents }
        } else if b == ASCII_EQUAL {
            lex_pair(t, idents, RelOp::Equal)
        } else if b == ASCII_BANG {
            lex_pair(t, idents, RelOp::NotEqual)
        } else if b == ASCII_LEFT_ARROW {
            if t.len() == 0 {
                LexOutcome { token: Some(Token::RelOp(RelOp::LessThan)), rest: t, idents }
            } else if t[0] == ASCII_MINUS {
                LexOutcome { token: Some(Token::Assignment), rest: t.drop_first(), idents }
            } else if t[0] == ASCII_EQUAL {
                LexOutcome {
                    token: Some(Token::RelOp(RelOp::LessThanOrEqual)),
                    rest: t.drop_first(),
                    idents,
                }
            } else {
                LexOutcome { token: Some(Token::RelOp(RelOp::LessThan)), rest: t, idents }
            }
        } else if b == ASCII_RIGHT_ARROW {
            if t.len() == 0 {
                LexOutcome { token: Some(Token::RelOp(RelOp::GreaterThan)), rest: t, idents }
            } else if t[0] == ASCII_EQUAL {
                LexOutcome {
                    token: Some(Token::RelOp(RelOp::GreaterThanOrEqual)),
                    rest: t.drop_first(),
                    idents,
                }
            } else {
                LexOutcome { token: Some(Token::RelOp(RelOp::GreaterThan)), rest: t, idents }
            }
        } else if b == ASCII_OPEN_PAREN {
            LexOutcome { token: Some(Token::OpenParen), rest: t, idents }
        } else if b == ASCII_CLOSE_PAREN {
            LexOutcome { token: Some(Token::CloseParen), rest: t, idents }
        } else if b == ASCII_OPEN_BRACE {
            LexOutcome { token: Some(Token::OpenBrace), rest: t, idents }
        } else if b == ASCII_CLOSE_BRACE {
            LexOutcome { token: Some(Token::CloseBrace), rest: t, idents }
        } else if is_letter(b) {
            let n = word_len(s) as int;
            let w = word_chars(s.take(n));
            match keyword(w) {
                Some(token) => LexOutcome { token: Some(token), rest: s.skip(n), idents },
                None => LexOutcome {
                    token: Some(Token::Ident(position(idents, w, 0) as usize)),
                    rest: s.skip(n),
                    idents: interned(idents, w),
                },
            }
        } else if is_digit(b) {
            let n = digits_len(s) as int;
            let v = digits_value(s.take(n));
            LexOutcome {
                token: if v <= isize::MAX {
                    Some(Token::Number(v as isize))
                } else {
                    None
                },
                rest: s.skip(n),
                idents,
            }
        } else if b == ASCII_COMMA {
            LexOutcome { token: Some(Token::Comma), rest: t, idents }
        } else if b == ASCII_PERIOD {
            LexOutcome { token: Some(Token::Period), rest: t, idents }
        } else if b == ASCII_SEMICOLON {
            LexOutcome { token: Some(Token::Semicolon), rest: t, idents }
        } else {
            LexOutcome { token: None, rest: s, idents }
        }
    }
}

/// The scanner's state as mathematical values: the token ahead, the bytes
/// left unread and the intern table.
pub ghost struct TokenizerView {
    pub curr: Option<Token>,
    pub rest: Seq<u8>,
    pub idents: Seq<Seq<char>>,
}

impl TokenizerView {
    /// The state after one step of the scanner.
    pub open spec fn step(self) -> TokenizerView {
        let out = lex(self.rest, self.idents);
        TokenizerView { curr: out.token, rest: out.rest, idents: out.idents }
    }

    /// What is left to read, counted in bytes, the token ahead counting as
    /// one more. No step of the scanner makes it larger.
    pub open spec fn measure(self) -> nat {
        self.rest.len() + if self.curr is Some {
            1nat
        } else {
            0nat
        }
    }

    /// An identifier token names an entry of the intern table.
    pub open spec fn wf(self) -> bool {
        self.curr matches Some(Token::Ident(id)) ==> id < self.idents.len()
    }
}

/// Skipping spaces drops a prefix, and what is left does not start with a
/// space.
pub proof fn lemma_skip_spaces(s: Seq<u8>)
    ensures
        skip_spaces(s).len() <= s.len(),
        skip_spaces(s) == s.skip(s.len() - skip_spaces(s).len()),
        skip_spaces(s).len() > 0 ==> !is_space(skip_spaces(s)[0]),
    decreases s.len(),
{
    if s.len() > 0 && is_space(s[0]) {
        lemma_skip_spaces(s.drop_first());
        let t = s.drop_first();
        assert(t.skip(t.len() - skip_spaces(t).len()) =~= s.skip(s.len() - skip_spaces(t).len()));
    } else {
        assert(s.skip(0) =~= s);
    }
}

/// The longest run of letters and digits has length `k` when the first `k`
/// bytes are letters or digits and the next one, if any, is not.
pub proof fn lemma_word_len(s: Seq<u8>, k: int)
    requires
        0 <= k <= s.len(),
        forall|i: int| 0 <= i < k ==> is_alnum(#[trigger] s[i]),
        k < s.len() ==> !is_alnum(s[k]),
    ensures
        word_len(s) == k,
    decreases k,
{
    if k > 0 {
        lemma_word_len(s.drop_first(), k - 1);
    }
}

/// The longest run of digits has length `k` when the first `k` bytes are
/// digits and the next one, if any, is not.
pub proof fn lemma_digits_len(s: Seq<u8>, k: int)
    requires
        0 <= k <= s.len(),
        forall|i: int| 0 <= i < k ==> is_digit(#[trigger] s[i]),
        k < s.len() ==> !is_digit(s[k]),
    ensures
        digits_len(s) == k,
    decreases k,
{
    if k > 0 {
        lemma_digits_len(s.drop_first(), k - 1);
    }
}

/// A run of letters and digits is no longer than the text.
pub proof fn lemma_word_len_bound(s: Seq<u8>)
    ensures
        word_len(s) <= s.len(),
        s.len() > 0 && is_alnum(s[0]) ==> word_len(s) >= 1,
        digits_len(s) <= s.len(),
        s.len() > 0 && is_digit(s[0]) ==> digits_len(s) >= 1,
    decreases s.len(),
{
    if s.len() > 0 {
        lemma_word_len_bound(s.drop_first());
    }
}

/// Looking a word up finds a position in the table, or its end.
pub proof fn lemma_position_bound(idents: Seq<Seq<char>>, w: Seq<char>, from: int)
    requires
        0 <= from,
    ensures
        from <= position(idents, w, from) <= idents.len() || idents.len() <= from,
        0 <= position(idents, w, from) <= idents.len(),
        position(idents, w, from) < idents.len() ==> idents[position(idents, w, from)] == w,
    decreases idents.len() - from,
{
    if from < idents.len() && idents[from] != w {
        lemma_position_bound(idents, w, from + 1);
    }
}

/// One step of the scanner reads forward only, reads at least one byte
/// when it yields a token, keeps every interned name at its id, and yields
/// only identifiers that the table holds.
pub proof fn lemma_lex_progress(input: Seq<u8>, idents: Seq<Seq<char>>)
    ensures
        lex(input, idents).rest.len() <= input.len(),
        lex(input, idents).token is Some ==> lex(input, idents).rest.len() < input.len(),
        idents.len() <= lex(input, idents).idents.len(),
        forall|i: int| 0 <= i < idents.len() ==> lex(input, idents).idents[i] == idents[i],
        lex(input, idents).token matches Some(Token::Ident(id)) ==> id < lex(
            input,
            idents,
        ).idents.len(),
{
    lemma_skip_spaces(input);
    let s = skip_spaces(input);
    lemma_word_len_bound(s);
    if s.len() > 0 && is_letter(s[0]) {
        let w = word_chars(s.take(word_len(s) as int));
        lemma_position_bound(idents, w, 0);
    }
}

/// No step of the scanner makes the measure larger, and a step on a state
/// with a token ahead makes it smaller.
pub proof fn lemma_step_measure(v: TokenizerView)
    ensures
        v.step().measure() <= v.measure(),
        v.curr is Some ==> v.step().measure() < v.measure(),
        v.step().wf(),
        v.idents.len() <= v.step().idents.len(),
        forall|i: int| 0 <= i < v.idents.len() ==> v.step().idents[i] == v.idents[i],
{
    lemma_lex_progress(v.rest, v.idents);
}

fn is_word(word: &String, keyword: &str) -> (r: bool)
    ensures
        r == (word@ == keyword@),
{
    let k: String = keyword.to_owned();
    *word == k
}

fn keyword_token(word: &String) -> (r: Option<Token>)
    ensures
        r == keyword(word@),
{
        if is_word(word, "main") {
            Some(Token::Main)
        } else if is_word(word, "var") {
            Some(Token::Var)
        } else if is_word(word, "let") {
            Some(Token::Let)
        } else if is_word(word, "call") {
            Some(Token::Call)
        } else if is_word(word, "if") {
            Some(Token::If)
        } else if is_word(word, "fi") {
            Some(Token::Fi)
        } else if is_word(word, "then") {
            Some(Token::Then)
        } else if is_word(word, "else") {
            Some(Token::Else)
        } else if is_word(word, "while") {
            Some(Token::While)
        } else if is_word(word, "do") {
            Some(Token::Do)
        } else if is_word(word, "od") {
            Some(Token::Od)
        } else if is_word(word, "void") {
            Some(Token::Void)
        } else if is_word(word, "function") {
            Some(Token::Function)
        } else if is_word(word, "return") {
            Some(Token::Return)
        } else {
            None
        }
}

fn is_alnum_byte(b: u8) -> (r: bool)
    ensures
        r == is_alnum(b),
{
    (ASCII_UPPER_A <= b && b <= ASCII_UPPER_Z) || (ASCII_LOWER_A <= b && b <= ASCII_LOWER_Z) || (
    ASCII_ZERO <= b && b <= ASCII_NINE)
}

/// The scanner.
#[derive(Debug, PartialEq)]
pub struct Tokenizer {
    input: Input,
    curr: Option<Token>,
    idents: Vec<String>,
}

impl View for Tokenizer {
    type V = TokenizerView;

    closed spec fn view(&self) -> TokenizerView {
        TokenizerView {
            curr: self.curr,
            rest: self.input.rest(),
            idents: self.idents@.map_values(|s: String| s@),
        }
    }
}

impl Tokenizer {
    /// A scanner on `input`, with the first token already read.
    pub fn new(input: &[u8]) -> (r: Tokenizer)
        ensures
            r@ == (TokenizerView { curr: None, rest: input@, idents: predefined_idents() }).step(),
            r@.wf(),
    {
        let mut idents: Vec<String> = Vec::new();
        idents.push("InputNum".to_owned());
        idents.push("OutputNum".to_owned());
        idents.push("OutputNewLine".to_owned());
        let mut res = Tokenizer { input: Input::new(input), curr: None, idents };
        assert(res@.idents =~= predefined_idents());
        res.next();
        res
    }

    /// The token ahead, which stays unread.
    pub fn peek(&mut self) -> (r: Option<Token>)
        ensures
            *final(self) == *old(self),
            r == old(self)@.curr,
    {
        self.curr
    }

    /// The name of an interned identifier.
    pub fn get_var(&self, var: usize) -> (r: String)
        requires
            var < self@.idents.len(),
        ensures
            r@ == self@.idents[var as int],
    {
        self.idents[var].clone()
    }

    /// The number of interned identifiers.
    pub fn ident_count(&self) -> (r: usize)
        ensures
            r == self@.idents.len(),
    {
        self.idents.len()
    }

    /// Returns the token ahead and reads the next one.
    pub fn next(&mut self) -> (r: Option<Token>)
        ensures
            r == old(self)@.curr,
            final(self)@ == old(self)@.step(),
            final(self)@.wf(),
            final(self)@.measure() <= old(self)@.measure(),
            old(self)@.curr is Some ==> final(self)@.measure() < old(self)@.measure(),
            old(self)@.idents.len() <= final(self)@.idents.len(),
            forall|i: int|
                0 <= i < old(self)@.idents.len() ==> final(self)@.idents[i] == old(self)@.idents[i],
    {
        let old_token = self.curr;
        proof {
            lemma_step_measure(old(self)@);
        }
        loop
            invariant
                self.idents == old(self).idents,
                skip_spaces(self.input.rest()) == skip_spaces(old(self).input.rest()),
            ensures
                self.idents == old(self).idents,
                self.input.rest() == skip_spaces(old(self).input.rest()),
            decreases self.input.rest().len(),
        {
            match self.input.peek() {
                Some(b) => {
                    if b == ASCII_SPACE || b == ASCII_NEWLINE {
                        self.input.next();
                    } else {
                        break ;
                    }
                },
                None => {
                    break ;
                },
            }
        }
        let first = self.input.peek();
        match first {
            None => {
                self.curr = None;
            },
            Some(b) => {
                if b == ASCII_PLUS {
                    self.curr = Some(Token::Plus);
                    self.input.next();
                } else if b == ASCII_MINUS {
                    self.curr = Some(Token::Minus);
                    self.input.next();
                } else if b == ASCII_ASTERISK {
                    self.curr = Some(Token::Times);
                    self.input.next();
                } else if b == ASCII_FORWARD_SLASH {
                    self.curr = Some(Token::Divide);
                    self.input.next();
                } else if b == ASCII_EQUAL {
                    self.input.next();
                    self.curr = self.second_equal(RelOp::Equal);
                } else if b == ASCII_BANG {
                    self.input.next();
                    self.curr = self.second_equal(RelOp::NotEqual);
                } else if b == ASCII_LEFT_ARROW {
                    self.input.next();
                    self.curr = match self.input.peek() {
                        Some(c) => {
                            if c == ASCII_MINUS {
                                self.input.next();
                                Some(Token::Assignment)
                            } else if c == ASCII_EQUAL {
                                self.input.next();
                                Some(Token::RelOp(RelOp::LessThanOrEqual))
                            } else {
                                Some(Token::RelOp(RelOp::LessThan))
                            }
                        },
                        None => Some(Token::RelOp(RelOp::LessThan)),
                    };
                } else if b == ASCII_RIGHT_ARROW {
                    self.input.next();
                    self.curr = match self.input.peek() {
                        Some(c) => {
                            if c == ASCII_EQUAL {
                                self.input.next();
                                Some(Token::RelOp(RelOp::GreaterThanOrEqual))
                            } else {
                                Some(Token::RelOp(RelOp::GreaterThan))
                            }
                        },
                        None => Some(Token::RelOp(RelOp::GreaterThan)),
                    };
                } else if b == ASCII_OPEN_PAREN {
                    self.curr = Some(Token::OpenParen);
                    self.input.next();
                } else if b == ASCII_CLOSE_PAREN {
                    self.curr = Some(Token::CloseParen);
                    self.input.next();
                } else if b == ASCII_OPEN_BRACE {
                    self.curr = Some(Token::OpenBrace);
                    self.input.next();
                } else if b == ASCII_CLOSE_BRACE {
                    self.curr = Some(Token::CloseBrace);
                    self.input.next();
                } else if (ASCII_UPPER_A <= b && b <= ASCII_UPPER_Z) || (ASCII_LOWER_A <= b && b
                    <= ASCII_LOWER_Z) {
                    let word = self.read_word();
                    self.curr = Some(
                        match keyword_token(&word) {
                            Some(token) => token,
                            None => Token::Ident(self.intern(word)),
                        },
                    );
                } else if ASCII_ZERO <= b && b <= ASCII_NINE {
                    self.curr = self.read_number();
                } else if b == ASCII_COMMA {
                    self.curr = Some(Token::Comma);
                    self.input.next();
                } else if b == ASCII_PERIOD {
                    self.curr = Some(Token::Period);
                    self.input.next();
                } else if b == ASCII_SEMICOLON {
                    self.curr = Some(Token::Semicolon);
                    self.input.next();
                } else {
                    self.curr = None;
                }
            },
        }
        proof {
            lemma_skip_spaces(old(self).input.rest());
            assert(self@.idents == lex(old(self)@.rest, old(self)@.idents).idents);
        }
        old_token
    }

    /// After `=` or `!` was read: the token, if a `=` follows.
    fn second_equal(&mut self, op: RelOp) -> (r: Option<Token>)
        ensures
            final(self).idents == old(self).idents,
            final(self).curr == old(self).curr,
            r == lex_pair(old(self).input.rest(), Seq::empty(), op).token,
            final(self).input.rest() == lex_pair(old(self).input.rest(), Seq::empty(), op).rest,
    {
        match self.input.peek() {
            Some(c) => {
                if c == ASCII_EQUAL {
                    self.input.next();
                    Some(Token::RelOp(op))
                } else {
                    None
                }
            },
            None => None,
        }
    }

    /// Reads the longest run of letters and digits.
    fn read_word(&mut self) -> (word: String)
        requires
            old(self).input.rest().len() > 0,
            is_letter(old(self).input.rest()[0]),
        ensures
            final(self).idents == old(self).idents,
            final(self).curr == old(self).curr,
            word@ == word_chars(
                old(self).input.rest().take(word_len(old(self).input.rest()) as int),
            ),
            final(self).input.rest() == old(self).input.rest().skip(
                word_len(old(self).input.rest()) as int,
            ),
    {
        let ghost s = self.input.rest();
        let mut word = String::new();
        let ghost mut k: int = 0;
        assert(s.skip(0) =~= s);
        assert(word_chars(s.take(0)) =~= Seq::<char>::empty());
        loop
            invariant
                self.idents == old(self).idents,
                self.curr == old(self).curr,
                s == old(self).input.rest(),
                0 <= k <= s.len(),
                self.input.rest() == s.skip(k),
                forall|i: int| 0 <= i < k ==> is_alnum(#[trigger] s[i]),
                word@ == word_chars(s.take(k)),
            ensures
                self.idents == old(self).idents,
                self.curr == old(self).curr,
                0 <= k <= s.len(),
                self.input.rest() == s.skip(k),
                word@ == word_chars(s.take(k)),
                k == word_len(s),
            decreases s.len() - k,
        {
            match self.input.peek() {
                Some(c) => {
                    if is_alnum_byte(c) {
                        self.input.next();
                        word.push(c as char);
                        proof {
                            assert(s.skip(k).drop_first() =~= s.skip(k + 1));
                            assert(word_chars(s.take(k + 1)) =~= word_chars(s.take(k)).push(
                                c as char,
                            ));
                            k = k + 1;
                        }
                    } else {
                        proof {
                            lemma_word_len(s, k);
                        }
                        break ;
                    }
                },
                None => {
                    proof {
                        lemma_word_len(s, k);
                    }
                    break ;
                },
            }
        }
        word
    }

    /// The id of a word in the intern table; a word that the table does not
    /// hold is appended to it.
    fn intern(&mut self, word: String) -> (id: usize)
        ensures
            final(self).input == old(self).input,
            final(self).curr == old(self).curr,
            id == position(old(self)@.idents, word@, 0),
            final(self)@.idents == interned(old(self)@.idents, word@),
    {
        let n: usize = self.idents.len();
        let mut i: usize = 0;
        while i < n
            invariant
                *self == *old(self),
                n == self.idents@.len(),
                i <= n,
                position(self@.idents, word@, 0) == position(self@.idents, word@, i as int),
            decreases n - i,
        {
            if self.idents[i] == word {
                return i;
            }
            i = i + 1;
        }
        self.idents.push(word);
        assert(self@.idents =~= old(self)@.idents.push(word@));
        n
    }

    /// Reads the longest run of digits; `None` when its value does not fit.
    fn read_number(&mut self) -> (r: Option<Token>)
        requires
            old(self).input.rest().len() > 0,
            is_digit(old(self).input.rest()[0]),
        ensures
            final(self).idents == old(self).idents,
            final(self).curr == old(self).curr,
            final(self).input.rest() == old(self).input.rest().skip(
                digits_len(old(self).input.rest()) as int,
            ),
            r == ({
                let v = digits_value(
                    old(self).input.rest().take(digits_len(old(self).input.rest()) as int),
                );
                if v <= isize::MAX {
                    Some(Token::Number(v as isize))
                } else {
                    None
                }
            }),
    {
        let ghost s = self.input.rest();
        let mut value: isize = 0;
        let mut fits: bool = true;
        let ghost mut k: int = 0;
        assert(s.skip(0) =~= s);
        loop
            invariant
                self.idents == old(self).idents,
                self.curr == old(self).curr,
                s == old(self).input.rest(),
                0 <= k <= s.len(),
                self.input.rest() == s.skip(k),
                forall|i: int| 0 <= i < k ==> is_digit(#[trigger] s[i]),
                fits ==> value == digits_value(s.take(k)),
                !fits ==> digits_value(s.take(k)) > isize::MAX,
                0 <= value,
            ensures
                self.idents == old(self).idents,
                self.curr == old(self).curr,
                0 <= k <= s.len(),
                self.input.rest() == s.skip(k),
                fits ==> value == digits_value(s.take(k)),
                !fits ==> digits_value(s.take(k)) > isize::MAX,
                k == digits_len(s),
            decreases s.len() - k,
        {
            match self.input.peek() {
                Some(c) => {
                    if ASCII_ZERO <= c && c <= ASCII_NINE {
                        self.input.next();
                        let digit: isize = (c - ASCII_ZERO) as isize;
                        proof {
                            assert(s.skip(k).drop_first() =~= s.skip(k + 1));
                            assert(s.take(k + 1).drop_last() =~= s.take(k));
                            assert(s.take(k + 1).last() == c);
                        }
                        if fits && value <= (isize::MAX - digit) / 10 {
                            value = value * 10 + digit;
                        } else {
                            fits = false;
                        }
                        proof {
                            k = k + 1;
                        }
                    } else {
                        proof {
                            lemma_digits_len(s, k);
                        }
                        break ;
                    }
                },
                None => {
                    proof {
                        lemma_digits_len(s, k);
                    }
                    break ;
                },
            }
        }
        if fits {
            Some(Token::Number(value))
        } else {
            None
        }
    }
}

} // verus!
