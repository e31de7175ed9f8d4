use vstd::prelude::*;
use vstd::string::{StrSliceExecFns, StringExecFns};
use crate::token::{Token, Type};

verus! {

/// The character at `i`, or `'\0'` past either end of the input.
pub open spec fn char_at(s: Seq<char>, i: int) -> char {
    if 0 <= i < s.len() {
        s[i]
    } else {
        '\0'
    }
}

pub open spec fn letter(c: char) -> bool {
    ('a' <= c && c <= 'z') || ('A' <= c && c <= 'Z') || c == '_'
}

pub open spec fn digit(c: char) -> bool {
    '0' <= c && c <= '9'
}

pub open spec fn space(c: char) -> bool {
    c == ' ' || c == '\t' || c == '\n' || c == '\r'
}

/// The first position at or after `i` that does not hold white space.
pub open spec fn skip_spaces(s: Seq<char>, i: int) -> int
    decreases s.len() - i,
{
    if 0 <= i < s.len() && space(s[i]) {
        skip_spaces(s, i + 1)
    } else {
        i
    }
}

/// The end of the run of letters that starts at `i`.
pub open spec fn letters_end(s: Seq<char>, i: int) -> int
    decreases s.len() - i,
{
    if 0 <= i < s.len() && letter(s[i]) {
        letters_end(s, i + 1)
    } else {
        i
    }
}

/// The end of the run of digits that starts at `i`.
pub open spec fn digits_end(s: Seq<char>, i: int) -> int
    decreases s.len() - i,
{
    if 0 <= i < s.len() && digit(s[i]) {
        digits_end(s, i + 1)
    } else {
        i
    }
}

/// The kind of a word: a keyword, or else an identifier.
pub open spec fn keyword(w: Seq<char>) -> Type {
    if w == "fn"@ {
        Type::Function
    } else if w == "let"@ {
        Type::Let
    } else if w == "true"@ {
        Type::True
    } else if w == "false"@ {
        Type::False
    } else if w == "if"@ {
        Type::If
    } else if w == "else"@ {
        Type::Else
    } else if w == "return"@ {
        Type::Return
    } else {
        Type::Ident
    }
}

/// The token that starts at the first character at or after `p` which is not
/// white space: its kind, its text, and the position just after it.
/// End of input (or a NUL character) gives `Eof` and does not move.
pub open spec fn lex_at(s: Seq<char>, p: int) -> (Type, Seq<char>, int) {
    let c = char_at(s, p);
    if c == '=' {
        if char_at(s, p + 1) == '=' {
            (Type::Equ, "=="@, p + 2)
        } else {
            (Type::Assign, "="@, p + 1)
        }
    } else if c == '!' {
        if char_at(s, p + 1) == '=' {
            (Type::Neq, "!="@, p + 2)
        } else {
            (Type::Bang, "!"@, p + 1)
        }
    } else if c == ';' {
        (Type::Semicolon, ";"@, p + 1)
    } else if c == '(' {
        (Type::Lparen, "("@, p + 1)
    } else if c == ')' {
        (Type::Rparen, ")"@, p + 1)
    } else if c == ',' {
        (Type::Comma, ","@, p + 1)
    } else if c == '+' {
        (Type::Plus, "+"@, p + 1)
    } else if c == '-' {
        (Type::Minus, "-"@, p + 1)
    } else if c == '/' {
        (Type::Slash, "/"@, p + 1)
    } else if c == '*' {
        (Type::Asterisk, "*"@, p + 1)
    } else if c == '<' {
        (Type::Lt, "<"@, p + 1)
    } else if c == '>' {
        (Type::Gt, ">"@, p + 1)
    } else if c == '{' {
        (Type::Lbrace, "{"@, p + 1)
    } else if c == '}' {
        (Type::Rbrace, "}"@, p + 1)
    } else if c == '\0' {
        (Type::Eof, Seq::empty(), p)
    } else if letter(c) {
        let q = letters_end(s, p);
        (keyword(s.subrange(p, q)), s.subrange(p, q), q)
    } else if digit(c) {
        let q = digits_end(s, p);
        (Type::Int, s.subrange(p, q), q)
    } else {
        (Type::Illegal, seq![c], p + 1)
    }
}

/// The next token of `s` read from position `p`.
pub open spec fn lex_next(s: Seq<char>, p: int) -> (Type, Seq<char>, int) {
    lex_at(s, skip_spaces(s, p))
}

proof fn lemma_scans(s: Seq<char>, i: int)
    requires
        0 <= i <= s.len(),
    ensures
        i <= skip_spaces(s, i) <= s.len(),
        i <= letters_end(s, i) <= s.len(),
        i <= digits_end(s, i) <= s.len(),
        forall|k: int| i <= k < letters_end(s, i) ==> letter(#[trigger] s[k]),
        forall|k: int| i <= k < digits_end(s, i) ==> digit(#[trigger] s[k]),
    decreases s.len() - i,
{
    if i < s.len() {
        lemma_scans(s, i + 1);
    }
}

/// Reading a token from a position inside the input stays inside it, and
/// every token but `Eof` moves past at least one character.
pub proof fn lemma_lex_progress(s: Seq<char>, p: int)
    requires
        0 <= p <= s.len(),
    ensures
        p <= lex_next(s, p).2 <= s.len(),
        lex_next(s, p).0 != Type::Eof ==> p < lex_next(s, p).2,
{
    lemma_scans(s, p);
    let q = skip_spaces(s, p);
    lemma_scans(s, q);
    if q < s.len() {
        lemma_scans(s, q + 1);
    }
}

/// A scanner over a line of source text.
#[derive(Debug)]
pub struct Lexer {
    input: Vec<char>,
    source: String,
    pos: usize,
}

impl Lexer {
    /// The text being scanned.
    pub closed spec fn text(&self) -> Seq<char> {
        self.input@
    }

    /// The position of the next character to read.
    pub closed spec fn position(&self) -> int {
        self.pos as int
    }

    pub closed spec fn wf(&self) -> bool {
        &&& self.source@ == self.input@
        &&& self.pos <= self.input@.len()
        &&& self.input@.len() <= usize::MAX
    }

    /// A scanner over the same text at the same position.
    pub fn duplicate(&self) -> (r: Lexer)
        requires
            self.wf(),
        ensures
            r.wf(),
            r.text() == self.text(),
            r.position() == self.position(),
    {
        let input = self.input.clone();
        proof {
            assert(input@ =~= self.input@);
        }
        Lexer { input, source: self.source.clone(), pos: self.pos }
    }

    pub proof fn lemma_bounds(&self)
        requires
            self.wf(),
        ensures
            0 <= self.position() <= self.text().len(),
    {
    }

    fn cur_char(&self) -> (c: char)
        requires
            self.wf(),
        ensures
            c == char_at(self.text(), self.position()),
    {
        if self.pos < self.input.len() {
            self.input[self.pos]
        } else {
            '\0'
        }
    }

    fn peek_char(&self) -> (c: char)
        requires
            self.wf(),
        ensures
            c == char_at(self.text(), self.position() + 1),
    {
        if self.pos < self.input.len() && self.pos + 1 < self.input.len() {
            self.input[self.pos + 1]
        } else {
            '\0'
        }
    }

    fn read_char(&mut self)
        requires
            old(self).wf(),
            old(self).position() < old(self).text().len(),
        ensures
            final(self).wf(),
            final(self).text() == old(self).text(),
            final(self).position() == old(self).position() + 1,
    {
        self.pos = self.pos + 1;
    }

    fn skip_space(&mut self)
        requires
            old(self).wf(),
        ensures
            final(self).wf(),
            final(self).text() == old(self).text(),
            final(self).position() == skip_spaces(old(self).text(), old(self).position()),
    {
        while self.pos < self.input.len() && is_space(self.input[self.pos])
            invariant
                self.wf(),
                self.text() == old(self).text(),
                skip_spaces(self.text(), self.position()) == skip_spaces(
                    old(self).text(),
                    old(self).position(),
                ),
            decreases self.input@.len() - self.pos,
        {
            self.pos = self.pos + 1;
        }
    }

    fn read_identifier(&mut self) -> (r: String)
        requires
            old(self).wf(),
        ensures
            final(self).wf(),
            final(self).text() == old(self).text(),
            final(self).position() == letters_end(old(self).text(), old(self).position()),
            r@ == old(self).text().subrange(old(self).position(), final(self).position()),
    {
        let from = self.pos;
        while self.pos < self.input.len() && is_letter(self.input[self.pos])
            invariant
                self.wf(),
                self.text() == old(self).text(),
                from == old(self).position(),
                from <= self.pos,
                letters_end(self.text(), self.position()) == letters_end(
                    old(self).text(),
                    old(self).position(),
                ),
            decreases self.input@.len() - self.pos,
        {
            self.pos = self.pos + 1;
        }
        self.extract_token(from, self.pos)
    }

    fn read_number(&mut self) -> (r: String)
        requires
            old(self).wf(),
        ensures
            final(self).wf(),
            final(self).text() == old(self).text(),
            final(self).position() == digits_end(old(self).text(), old(self).position()),
            r@ == old(self).text().subrange(old(self).position(), final(self).position()),
    {
        let from = self.pos;
        while self.pos < self.input.len() && is_digit(self.input[self.pos])
            invariant
                self.wf(),
                self.text() == old(self).text(),
                from == old(self).position(),
                from <= self.pos,
                digits_end(self.text(), self.position()) == digits_end(
                    old(self).text(),
                    old(self).position(),
                ),
            decreases self.input@.len() - self.pos,
        {
            self.pos = self.pos + 1;
        }
        self.extract_token(from, self.pos)
    }

    /// The text of the input between `i` (inclusive) and `j` (exclusive).
    fn extract_token(&self, i: usize, j: usize) -> (r: String)
        requires
            self.wf(),
            i <= j <= self.text().len(),
        ensures
            r@ == self.text().subrange(i as int, j as int),
    {
        self.source.as_str().substring_char(i, j).to_owned()
    }

    /// Reads the next token, skipping white space before it. At the end of
    /// the input it returns `Eof`, again on every later call.
    pub fn next_token(&mut self) -> (tok: Token)
        requires
            old(self).wf(),
        ensures
            final(self).wf(),
            final(self).text() == old(self).text(),
            (tok.t, tok.literal@, final(self).position()) == lex_next(
                old(self).text(),
                old(self).position(),
            ),
    {
        self.skip_space();
        proof {
            lemma_scans(self.text(), self.position());
        }
        let c = self.cur_char();
        match c {
            '=' => {
                if self.peek_char() == '=' {
                    self.read_char();
                    self.read_char();
                    new_token(Type::Equ, "==")
                } else {
                    self.read_char();
                    new_token(Type::Assign, "=")
                }
            },
            '!' => {
                if self.peek_char() == '=' {
                    self.read_char();
                    self.read_char();
                    new_token(Type::Neq, "!=")
                } else {
                    self.read_char();
                    new_token(Type::Bang, "!")
                }
            },
            ';' => {
                self.read_char();
                new_token(Type::Semicolon, ";")
            },
            '(' => {
                self.read_char();
                new_token(Type::Lparen, "(")
            },
            ')' => {
                self.read_char();
                new_token(Type::Rparen, ")")
            },
            ',' => {
                self.read_char();
                new_token(Type::Comma, ",")
            },
            '+' => {
                self.read_char();
                new_token(Type::Plus, "+")
            },
            '-' => {
                self.read_char();
                new_token(Type::Minus, "-")
            },
            '/' => {
                self.read_char();
                new_token(Type::Slash, "/")
            },
            '*' => {
                self.read_char();
                new_token(Type::Asterisk, "*")
            },
            '<' => {
                self.read_char();
                new_token(Type::Lt, "<")
            },
            '>' => {
                self.read_char();
                new_token(Type::Gt, ">")
            },
            '{' => {
                self.read_char();
                new_token(Type::Lbrace, "{")
            },
            '}' => {
                self.read_char();
                new_token(Type::Rbrace, "}")
            },
            '\0' => Token { t: Type::Eof, literal: String::new() },
            _ => {
                if is_letter(c) {
                    let lit = self.read_identifier();
                    let t = look_up_ident(&lit);
                    Token { t, literal: lit }
                } else if is_digit(c) {
                    let lit = self.read_number();
                    Token { t: Type::Int, literal: lit }
                } else {
                    let from = self.pos;
                    self.read_char();
                    let lit = self.extract_token(from, self.pos);
                    proof {
                        assert(lit@ =~= seq![c]);
                    }
                    Token { t: Type::Illegal, literal: lit }
                }
            },
        }
    }
}

/// A scanner positioned at the start of `input`.
pub fn new(input: &str) -> (l: Lexer)
    ensures
        l.wf(),
        l.text() == input@,
        l.position() == 0,
{
    let n = input.unicode_len();
    let mut chars: Vec<char> = Vec::new();
    let mut i: usize = 0;
    while i < n
        invariant
            n == input@.len(),
            i <= n,
            chars@ == input@.subrange(0, i as int),
        decreases n - i,
    {
        chars.push(input.get_char(i));
        i = i + 1;
        proof {
            assert(chars@ =~= input@.subrange(0, i as int));
        }
    }
    proof {
        assert(chars@ =~= input@);
    }
    Lexer { input: chars, source: String::from_str(input), pos: 0 }
}

/// A token of kind `t` with text `lit`.
pub fn new_token(t: Type, lit: &str) -> (r: Token)
    ensures
        r.t == t,
        r.literal@ == lit@,
{
    Token { t, literal: String::from_str(lit) }
}

/// The kind of a word read by the scanner.
fn look_up_ident(ident: &String) -> (t: Type)
    ensures
        t == keyword(ident@),
{
    if *ident == String::from_str("fn") {
        Type::Function
    } else if *ident == String::from_str("let") {
        Type::Let
    } else if *ident == String::from_str("true") {
        Type::True
    } else if *ident == String::from_str("false") {
        Type::False
    } else if *ident == String::from_str("if") {
        Type::If
    } else if *ident == String::from_str("else") {
        Type::Else
    } else if *ident == String::from_str("return") {
        Type::Return
    } else {
        Type::Ident
    }
}

fn is_letter(c: char) -> (r: bool)
    ensures
        r == letter(c),
{
    ('a' <= c && c <= 'z') || ('A' <= c && c <= 'Z') || c == '_'
}

fn is_digit(c: char) -> (r: bool)
    ensures
        r == digit(c),
{
    '0' <= c && c <= '9'
}

fn is_space(c: char) -> (r: bool)
    ensures
        r == space(c),
{
    c == ' ' || c == '\t' || c == '\n' || c == '\r'
}

} // verus!
