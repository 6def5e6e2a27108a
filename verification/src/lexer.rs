//! The lexer: turns source text into tokens, one call at a time.
use vstd::prelude::*;
use vstd::utf8::encode_utf8;
use crate::err::{error_text, errs_view, ATErr, ErrInfo, ErrKind};
use crate::text::{contains_char, decimal, decimal_value, digit_value, is_digit, push_char, push_decimal, push_str, str_eq, str_has_char};
use crate::token::{Token, TokenV};

verus! {

/// The characters that make up a number literal.
pub open spec fn num_chars() -> Seq<char> {
    "01234.56789"@
}

/// The characters that end an identifier.
pub open spec fn id_stops() -> Seq<char> {
    " \t\n+-*/<&|>=@#%:!?$,[{('`)}]"@
}

/// Whether `c` may appear in a number literal.
pub open spec fn is_num_char(c: char) -> bool {
    contains_char(num_chars(), c)
}

/// Whether `c` may appear in an identifier.
pub open spec fn is_id_char(c: char) -> bool {
    !contains_char(id_stops(), c)
}

/// Whether `c` is a digit or a dot.
pub fn is_num(c: char) -> (r: bool)
    ensures
        r == is_num_char(c),
{
    str_has_char("01234.56789", c)
}

/// Whether `c` is not one of the characters that end an identifier.
pub fn is_id(c: char) -> (r: bool)
    ensures
        r == is_id_char(c),
{
    !str_has_char(" \t\n+-*/<&|>=@#%:!?$,[{('`)}]", c)
}

/// The length of the UTF-8 encoding of `c`, in bytes.
pub open spec fn byte_len(c: Seq<char>) -> int {
    encode_utf8(c).len() as int
}

/// How many times `c` occurs in `s`.
pub open spec fn count_char(s: Seq<char>, c: char) -> nat
    decreases s.len(),
{
    if s.len() == 0 {
        0
    } else {
        count_char(s.drop_last(), c) + if s.last() == c { 1nat } else { 0nat }
    }
}

/// The token that a number literal's text denotes, or `None` where reading
/// it fails: an empty text, an integer beyond `i32`, or more than one dot.
pub open spec fn number_token(t: Seq<char>) -> Option<TokenV> {
    if t.len() == 0 {
        None
    } else if contains_char(t, '.') {
        if count_char(t, '.') == 1 && t.len() >= 2 {
            Some(TokenV::Float(t))
        } else {
            None
        }
    } else if decimal_value(t) <= i32::MAX {
        Some(TokenV::Int(decimal_value(t) as i32))
    } else {
        None
    }
}

/// The token of a word: a keyword, a tag, a boolean, or an identifier.
pub open spec fn word_token(w: Seq<char>) -> TokenV {
    if w == "set"@ {
        TokenV::SetKw
    } else if w == "if"@ {
        TokenV::IfKw
    } else if w == "else"@ {
        TokenV::ElseKw
    } else if w == "while"@ {
        TokenV::WhileKw
    } else if w == "break"@ {
        TokenV::BreakKw
    } else if w == "continue"@ {
        TokenV::Continuekw
    } else if w == "ret"@ {
        TokenV::RetKw
    } else if w == "__int__"@ {
        TokenV::Tag("int"@)
    } else if w == "__float__"@ {
        TokenV::Tag("float"@)
    } else if w == "true"@ {
        TokenV::Bool(true)
    } else if w == "false"@ {
        TokenV::Bool(false)
    } else {
        TokenV::Ident(w)
    }
}

#[verifier::ext_equal]
/// The state of a lexer as plain values: the code, the index of the next
/// character, the line and column counters, and the errors met so far.
pub struct LexV {
    pub code: Seq<char>,
    pub pos: int,
    pub line: int,
    pub column: int,
    pub errors: Seq<ErrInfo>,
}

/// Skips blanks and newlines from `pos`: the position, line and column after
/// them, or `None` where the lexer would fail (reading past the characters,
/// or a counter beyond `u32`).
pub open spec fn skip_blank(c: Seq<char>, pos: int, line: int, col: int) -> Option<(int, int, int)>
    decreases c.len() - pos,
{
    if !(pos < byte_len(c)) {
        Some((pos, line, col))
    } else if pos < 0 || pos >= c.len() {
        None
    } else if c[pos] == ' ' || c[pos] == '\t' {
        if col + 1 > u32::MAX {
            None
        } else {
            skip_blank(c, pos + 1, line, col + 1)
        }
    } else if c[pos] == '\n' {
        if col + 1 > u32::MAX || line + 1 > u32::MAX {
            None
        } else {
            skip_blank(c, pos + 1, line + 1, 0)
        }
    } else {
        Some((pos, line, col))
    }
}

/// The end of the run of number characters from `i` (stopping at the end of
/// the input), or `None` where the lexer reads past the characters.
pub open spec fn num_end(c: Seq<char>, i: int) -> Option<int>
    decreases c.len() - i,
{
    if !(i < byte_len(c)) {
        Some(i)
    } else if i < 0 || i >= c.len() {
        None
    } else if is_num_char(c[i]) {
        num_end(c, i + 1)
    } else {
        Some(i)
    }
}

/// The index of the first `stop` from `i` (or of the end of the input), or
/// `None` where the lexer reads past the characters.
pub open spec fn until_end(c: Seq<char>, i: int, stop: char) -> Option<int>
    decreases c.len() - i,
{
    if !(i < byte_len(c)) {
        Some(i)
    } else if i < 0 || i >= c.len() {
        None
    } else if c[i] != stop {
        until_end(c, i + 1, stop)
    } else {
        Some(i)
    }
}

/// The end of the run of identifier characters from `i`, or `None` where the
/// run reaches the end of the characters (the lexer then reads past them).
pub open spec fn id_end(c: Seq<char>, i: int) -> Option<int>
    decreases c.len() - i,
{
    if i < 0 || i >= c.len() {
        None
    } else if is_id_char(c[i]) {
        id_end(c, i + 1)
    } else {
        Some(i)
    }
}

/// The message of an unterminated string literal.
pub open spec fn unterminated_msg(line: int, col: int) -> Seq<char> {
    "reached end of file and didnt finish string started at line "@ + decimal(line as nat)
        + ", colmun "@ + decimal(col as nat)
}

/// The message of a character that starts no token.
pub open spec fn unknown_char_msg(ch: char) -> Seq<char> {
    "unknown char '"@ + seq![ch] + "'"@
}

/// The lexer state `v` moved to position `pos` and column `col`.
pub open spec fn moved(v: LexV, pos: int, line: int, col: int) -> LexV {
    LexV { pos: pos, line: line, column: col, ..v }
}

/// The token that starts at `p` (a character that is not blank), with the
/// state after it, or `None` where the lexer fails.
pub open spec fn token_at(v: LexV, p: int, l: int, k: int) -> Option<(TokenV, LexV)>
    recommends
        0 <= p < v.code.len(),
{
    let c = v.code;
    let ch = c[p];
    if ch == '"' || ch == '\'' {
        if k + 1 > u32::MAX {
            None
        } else {
            match until_end(c, p + 1, ch) {
                None => None,
                Some(e) => {
                    let k2 = k + 1 + (e - (p + 1));
                    if e < byte_len(c) {
                        if k2 + 1 > u32::MAX {
                            None
                        } else {
                            Some((TokenV::Str(c.subrange(p + 1, e)), moved(v, e + 1, l, k2 + 1)))
                        }
                    } else if k2 > u32::MAX {
                        None
                    } else {
                        let msg = unterminated_msg(l, k + 1);
                        let err = ErrInfo {
                            kind: ErrKind::UnknownCharE,
                            msg: msg,
                            line: l as nat,
                            column: k2 as nat,
                        };
                        Some(
                            (
                                TokenV::Error(error_text(ErrKind::UnknownCharE, msg, l as nat, k2 as nat)),
                                LexV { errors: v.errors.push(err), ..moved(v, e, l, k2) },
                            ),
                        )
                    }
                },
            }
        }
    } else if is_digit(ch) {
        match num_end(c, p) {
            None => None,
            Some(e) => {
                if k + (e - p) > u32::MAX {
                    None
                } else {
                    match number_token(c.subrange(p, e)) {
                        None => None,
                        Some(t) => Some((t, moved(v, e, l, k + (e - p)))),
                    }
                }
            },
        }
    } else if k + 1 > u32::MAX {
        None
    } else if ch == '=' || ch == '-' || ch == '<' || ch == '>' || ch == '&' || ch == '|' {
        let second = if ch == '=' {
            '='
        } else if ch == '-' {
            '>'
        } else if ch == '<' || ch == '>' {
            '='
        } else {
            ch
        };
        let doubled = if ch == '=' {
            TokenV::Operator("=="@)
        } else if ch == '-' {
            TokenV::Access
        } else {
            TokenV::Operator(seq![ch, second])
        };
        let single = TokenV::Operator(seq![ch]);
        if p + 1 < byte_len(c) {
            if p + 1 >= c.len() {
                None
            } else if c[p + 1] == second {
                if k + 2 > u32::MAX {
                    None
                } else {
                    Some((doubled, moved(v, p + 2, l, k + 2)))
                }
            } else {
                Some((single, moved(v, p + 1, l, k + 1)))
            }
        } else {
            Some((single, moved(v, p + 1, l, k + 1)))
        }
    } else if ch == '+' || ch == '*' || ch == '/' || ch == '%' || ch == '^' {
        Some((TokenV::Operator(seq![ch]), moved(v, p + 1, l, k + 1)))
    } else if ch == '(' {
        Some((TokenV::LeftParen, moved(v, p + 1, l, k + 1)))
    } else if ch == ')' {
        Some((TokenV::RightParen, moved(v, p + 1, l, k + 1)))
    } else if ch == '{' {
        Some((TokenV::LeftBracket, moved(v, p + 1, l, k + 1)))
    } else if ch == '}' {
        Some((TokenV::RightBracket, moved(v, p + 1, l, k + 1)))
    } else if ch == '[' {
        Some((TokenV::LeftBrace, moved(v, p + 1, l, k + 1)))
    } else if ch == ']' {
        Some((TokenV::RightBrace, moved(v, p + 1, l, k + 1)))
    } else if ch == ':' {
        Some((TokenV::Colon, moved(v, p + 1, l, k + 1)))
    } else if ch == ',' {
        Some((TokenV::Comma, moved(v, p + 1, l, k + 1)))
    } else if ch == '.' {
        Some((TokenV::Dot, moved(v, p + 1, l, k + 1)))
    } else if ch == '!' {
        Some((TokenV::Exec, moved(v, p + 1, l, k + 1)))
    } else if is_id_char(ch) {
        match id_end(c, p) {
            None => None,
            Some(e) => {
                if k + (e - p) > u32::MAX {
                    None
                } else {
                    Some((word_token(c.subrange(p, e)), moved(v, e, l, k + (e - p))))
                }
            },
        }
    } else {
        let msg = unknown_char_msg(ch);
        let err = ErrInfo {
            kind: ErrKind::UnknownCharE,
            msg: msg,
            line: l as nat,
            column: (k + 1) as nat,
        };
        Some(
            (
                TokenV::Error(error_text(ErrKind::UnknownCharE, msg, l as nat, (k + 1) as nat)),
                LexV { errors: v.errors.push(err), ..moved(v, p + 1, l, k + 1) },
            ),
        )
    }
}

/// One call of the lexer: the next token and the state after it, or `None`
/// where the lexer would fail (an empty code, reading past the characters, a
/// literal that does not fit, or a counter beyond `u32`). A comment runs to
/// the end of its line, counts one line, and is followed by the next token.
pub open spec fn lex_step(v: LexV) -> Option<(TokenV, LexV)>
    decreases v.code.len() - v.pos,
{
    let c = v.code;
    if byte_len(c) < 1 {
        None
    } else {
        match skip_blank(c, v.pos, v.line, v.column) {
            None => None,
            Some((p, l, k)) => {
                if !(p < byte_len(c)) {
                    Some((TokenV::EOF, moved(v, p, l, k)))
                } else if p < 0 || p >= c.len() {
                    None
                } else if c[p] == '#' {
                    match until_end(c, p, '\n') {
                        None => None,
                        Some(e) => {
                            if k + (e - p) > u32::MAX || l + 1 > u32::MAX {
                                None
                            } else {
                                proof {
                                    lemma_skip_blank_moves(c, v.pos, v.line, v.column);
                                    lemma_until_end_bounds(c, p, '\n');
                                }
                                lex_step(moved(v, e, l + 1, k + (e - p)))
                            }
                        },
                    }
                } else {
                    token_at(v, p, l, k)
                }
            },
        }
    }
}

/// Blanks are skipped forward, never past the characters.
pub proof fn lemma_skip_blank_moves(c: Seq<char>, pos: int, line: int, col: int)
    ensures
        skip_blank(c, pos, line, col) matches Some((p, l, k)) ==> {
            &&& p >= pos
            &&& (pos <= c.len() ==> p <= c.len())
            &&& l >= line
            &&& (0 <= line <= u32::MAX && 0 <= col <= u32::MAX ==> 0 <= l <= u32::MAX && 0 <= k <= u32::MAX)
            &&& (p < byte_len(c) ==> 0 <= p < c.len())
        },
    decreases c.len() - pos,
{
    if pos < byte_len(c) && 0 <= pos < c.len() {
        if c[pos] == ' ' || c[pos] == '\t' {
            lemma_skip_blank_moves(c, pos + 1, line, col + 1);
        } else if c[pos] == '\n' {
            lemma_skip_blank_moves(c, pos + 1, line + 1, 0);
        }
    }
}

/// The run up to `stop` ends at or after its start, never past the characters.
pub proof fn lemma_until_end_bounds(c: Seq<char>, i: int, stop: char)
    ensures
        until_end(c, i, stop) matches Some(e) ==> {
            &&& e >= i
            &&& (i <= c.len() ==> e <= c.len())
            &&& (e < byte_len(c) ==> 0 <= e < c.len() && c[e] == stop)
            &&& (0 <= i < c.len() && i < byte_len(c) && c[i] != stop ==> e > i)
        },
    decreases c.len() - i,
{
    if i < byte_len(c) && 0 <= i < c.len() && c[i] != stop {
        lemma_until_end_bounds(c, i + 1, stop);
    }
}

/// The run of number characters ends at or after its start, never past the characters.
pub proof fn lemma_num_end_bounds(c: Seq<char>, i: int)
    ensures
        num_end(c, i) matches Some(e) ==> {
            &&& e >= i
            &&& (i <= c.len() ==> e <= c.len())
            &&& (e < byte_len(c) ==> 0 <= e < c.len() && !is_num_char(c[e]))
            &&& forall|j: int| i <= j < e ==> #[trigger] is_num_char(c[j])
        },
    decreases c.len() - i,
{
    if i < byte_len(c) && 0 <= i < c.len() && is_num_char(c[i]) {
        lemma_num_end_bounds(c, i + 1);
    }
}

/// The run of identifier characters ends after its start, inside the characters.
pub proof fn lemma_id_end_bounds(c: Seq<char>, i: int)
    ensures
        id_end(c, i) matches Some(e) ==> {
            &&& i <= e < c.len()
            &&& !is_id_char(c[e])
            &&& forall|j: int| i <= j < e ==> #[trigger] is_id_char(c[j])
        },
    decreases c.len() - i,
{
    if 0 <= i < c.len() && is_id_char(c[i]) {
        lemma_id_end_bounds(c, i + 1);
    }
}

} // verus!

verus! {

/// A lexer over a piece of source code.
#[derive(Debug)]
pub struct Lexer {
    line: u32,
    column: u32,
    code: String,
    pos: usize,
    pub errors: Vec<ATErr>,
}

impl View for Lexer {
    type V = LexV;

    closed spec fn view(&self) -> LexV {
        LexV {
            code: self.code@,
            pos: self.pos as int,
            line: self.line as int,
            column: self.column as int,
            errors: errs_view(self.errors@),
        }
    }
}

/// Each character takes at least one byte.
pub proof fn lemma_byte_len_ge(c: Seq<char>)
    ensures
        byte_len(c) >= c.len(),
    decreases c.len(),
{
    if c.len() > 0 {
        lemma_byte_len_ge(c.drop_first());
    }
}

/// A lexer state whose position lies within its code.
pub open spec fn lex_wf(v: LexV) -> bool {
    &&& 0 <= v.pos <= v.code.len()
    &&& byte_len(v.code) <= usize::MAX
    &&& 0 <= v.line <= u32::MAX
    &&& 0 <= v.column <= u32::MAX
}

impl Lexer {
    /// A lexer at the start of `code`, on line 0, column 0, with no errors.
    pub fn new(code: String) -> (r: Self)
        ensures
            r@ == (LexV { code: code@, pos: 0, line: 0, column: 0, errors: Seq::empty() }),
            lex_wf(r@),
    {
        let bytes = code.as_str().as_bytes().len();
        assert(bytes == byte_len(code@));
        proof {
            lemma_byte_len_ge(code@);
        }
        let r = Self { line: 0, column: 0, pos: 0, code, errors: Vec::new() };
        assert(errs_view(r.errors@) =~= Seq::<ErrInfo>::empty());
        r
    }

    /// The character at the current position.
    fn at(&self) -> (r: char)
        requires
            0 <= self@.pos < self@.code.len(),
        ensures
            r == self@.code[self@.pos],
    {
        self.code.as_str().get_char(self.pos)
    }

    /// Consumes the current character and returns it.
    fn eat(&mut self) -> (r: char)
        requires
            lex_wf(old(self)@),
            0 <= old(self)@.pos < old(self)@.code.len(),
            old(self)@.column + 1 <= u32::MAX,
        ensures
            r == old(self)@.code[old(self)@.pos],
            final(self)@ == moved(old(self)@, old(self)@.pos + 1, old(self)@.line, old(self)@.column + 1),
    {
        proof {
            lemma_byte_len_ge(self@.code);
        }
        self.pos = self.pos + 1;
        self.column = self.column + 1;
        self.code.as_str().get_char(self.pos - 1)
    }

    /// Whether the position is before the end of the code, measured in bytes.
    fn not_eof(&self) -> (r: bool)
        requires
            lex_wf(self@),
            byte_len(self@.code) >= 1,
        ensures
            r == (self@.pos < byte_len(self@.code)),
    {
        self.code.as_str().as_bytes().len() - 1 >= self.pos
    }

    /// Records an error at the current position and returns its token.
    fn err(&mut self, msg: String, kind: ErrKind) -> (r: Token)
        ensures
            r@ == TokenV::Error(error_text(kind, msg@, old(self)@.line as nat, old(self)@.column as nat)),
            final(self)@ == (LexV {
                errors: old(self)@.errors.push(ErrInfo {
                    kind: kind,
                    msg: msg@,
                    line: old(self)@.line as nat,
                    column: old(self)@.column as nat,
                }),
                ..old(self)@
            }),
    {
        let err = ATErr { kind, msg, line: self.line, column: self.column };
        let text = err.get_error();
        let ghost before = self.errors@;
        self.errors.push(err);
        assert(errs_view(self.errors@) =~= errs_view(before).push(err@));
        Token::Error(text)
    }
}

} // verus!

verus! {

/// The number characters are the digits and the dot.
pub proof fn lemma_num_char(c: char)
    ensures
        is_num_char(c) <==> (is_digit(c) || c == '.'),
{
    reveal_strlit("01234.56789");
    let s = num_chars();
    if is_digit(c) || c == '.' {
        if c == '0' { assert(s[0] == c); }
        else if c == '1' { assert(s[1] == c); }
        else if c == '2' { assert(s[2] == c); }
        else if c == '3' { assert(s[3] == c); }
        else if c == '4' { assert(s[4] == c); }
        else if c == '.' { assert(s[5] == c); }
        else if c == '5' { assert(s[6] == c); }
        else if c == '6' { assert(s[7] == c); }
        else if c == '7' { assert(s[8] == c); }
        else if c == '8' { assert(s[9] == c); }
        else { assert(s[10] == c); }
    }
}

/// Whether every character of `s` is a digit.
pub open spec fn all_digits(s: Seq<char>) -> bool {
    forall|i: int| 0 <= i < s.len() ==> #[trigger] is_digit(s[i])
}

/// The value of a digit string is not negative and grows as digits are added.
pub proof fn lemma_decimal_prefix(s: Seq<char>, i: int)
    requires
        all_digits(s),
        0 <= i <= s.len(),
    ensures
        0 <= decimal_value(s.subrange(0, i)) <= decimal_value(s),
    decreases s.len(),
{
    if i < s.len() {
        let t = s.drop_last();
        assert(all_digits(t)) by {
            assert forall|j: int| 0 <= j < t.len() implies #[trigger] is_digit(t[j]) by {
                assert(t[j] == s[j]);
            }
        }
        lemma_decimal_prefix(t, i);
        assert(t.subrange(0, i) =~= s.subrange(0, i));
        lemma_decimal_prefix(t, t.len() as int);
        assert(t.subrange(0, t.len() as int) =~= t);
        assert(is_digit(s[s.len() - 1]));
    } else {
        assert(s.subrange(0, i) =~= s);
        if s.len() > 0 {
            let t = s.drop_last();
            assert(all_digits(t)) by {
                assert forall|j: int| 0 <= j < t.len() implies #[trigger] is_digit(t[j]) by {
                    assert(t[j] == s[j]);
                }
            }
            lemma_decimal_prefix(t, t.len() as int);
            assert(t.subrange(0, t.len() as int) =~= t);
            assert(is_digit(s[s.len() - 1]));
        }
    }
}

impl Lexer {
    /// Reads a number literal: a float where it holds a dot, an integer otherwise.
    pub fn parse_num(&mut self, x: String) -> (r: Token)
        requires
            number_token(x@) is Some,
            forall|i: int| 0 <= i < x@.len() ==> #[trigger] is_num_char(x@[i]),
        ensures
            r@ == number_token(x@)->0,
            final(self)@ == old(self)@,
    {
        if str_has_char(x.as_str(), '.') {
            return Token::Float(x);
        }
        let n = x.as_str().unicode_len();
        assert(all_digits(x@)) by {
            assert forall|j: int| 0 <= j < x@.len() implies #[trigger] is_digit(x@[j]) by {
                lemma_num_char(x@[j]);
                if x@[j] == '.' {
                    assert(contains_char(x@, '.'));
                }
            }
        }
        let mut v: i64 = 0;
        let mut i: usize = 0;
        proof {
            lemma_decimal_prefix(x@, x@.len() as int);
            assert(x@.subrange(0, x@.len() as int) =~= x@);
            assert(x@.subrange(0, 0) =~= Seq::<char>::empty());
        }
        while i < n
            invariant
                n == x@.len(),
                i <= n,
                all_digits(x@),
                decimal_value(x@) <= i32::MAX,
                v == decimal_value(x@.subrange(0, i as int)),
            decreases n - i,
        {
            let ch = x.as_str().get_char(i);
            assert(is_digit(ch));
            let d = (ch as u32) - ('0' as u32);
            proof {
                lemma_decimal_prefix(x@, i as int);
                assert(x@.subrange(0, i + 1).drop_last() =~= x@.subrange(0, i as int));
                lemma_decimal_prefix(x@, i + 1);
            }
            v = v * 10 + d as i64;
            i = i + 1;
        }
        assert(x@.subrange(0, n as int) =~= x@);
        Token::Int(v as i32)
    }
}

} // verus!

verus! {

/// A string of one character.
fn char_string(c: char) -> (r: String)
    ensures
        r@ == seq![c],
{
    let mut r = String::new();
    push_char(&mut r, c);
    assert(r@ =~= seq![c]);
    r
}

/// A string of two characters.
fn pair_string(a: char, b: char) -> (r: String)
    ensures
        r@ == seq![a, b],
{
    let mut r = String::new();
    push_char(&mut r, a);
    push_char(&mut r, b);
    assert(r@ =~= seq![a, b]);
    r
}

/// The token of a word.
fn word_to_token(w: String) -> (r: Token)
    ensures
        r@ == word_token(w@),
{
    if str_eq(w.as_str(), "set") {
        Token::SetKw
    } else if str_eq(w.as_str(), "if") {
        Token::IfKw
    } else if str_eq(w.as_str(), "else") {
        Token::ElseKw
    } else if str_eq(w.as_str(), "while") {
        Token::WhileKw
    } else if str_eq(w.as_str(), "break") {
        Token::BreakKw
    } else if str_eq(w.as_str(), "continue") {
        Token::Continuekw
    } else if str_eq(w.as_str(), "ret") {
        Token::RetKw
    } else if str_eq(w.as_str(), "__int__") {
        Token::Tag(crate::text::from_str("int"))
    } else if str_eq(w.as_str(), "__float__") {
        Token::Tag(crate::text::from_str("float"))
    } else if str_eq(w.as_str(), "true") {
        Token::Bool(true)
    } else if str_eq(w.as_str(), "false") {
        Token::Bool(false)
    } else {
        Token::Ident(w)
    }
}

impl Lexer {
    /// Reads a string literal opened by the current character.
    fn lex_string(&mut self) -> (r: Token)
        requires
            lex_wf(old(self)@),
            0 <= old(self)@.pos < old(self)@.code.len(),
            old(self)@.pos < byte_len(old(self)@.code),
            old(self)@.code[old(self)@.pos] == '"' || old(self)@.code[old(self)@.pos] == '\'',
            token_at(old(self)@, old(self)@.pos, old(self)@.line, old(self)@.column) is Some,
        ensures
            lex_wf(final(self)@),
            (r@, final(self)@) == token_at(old(self)@, old(self)@.pos, old(self)@.line, old(self)@.column)->0,
    {
        let ghost v = self@;
        let ghost c = v.code;
        let ghost p = v.pos;
        let ghost k = v.column;
        let op = self.eat();
        let start_line = self.line;
        let start_column = self.column;
        let mut res = String::new();
        let ghost e = until_end(c, p + 1, op)->0;
        proof {
            lemma_until_end_bounds(c, p + 1, op);
            assert(c.subrange(p + 1, p + 1) =~= Seq::<char>::empty());
        }
        while self.not_eof() && self.at() != op
            invariant
                lex_wf(self@),
                self@.code == c,
                self@.errors == v.errors,
                self@.line == v.line,
                0 <= p,
                p + 1 <= self@.pos <= e,
                until_end(c, self@.pos, op) == Some(e),
                self@.column == k + 1 + (self@.pos - (p + 1)),
                k + 1 + (e - (p + 1)) <= u32::MAX,
                res@ == c.subrange(p + 1, self@.pos),
                byte_len(c) >= 1,
            decreases c.len() - self@.pos,
        {
            proof {
                lemma_until_end_bounds(c, self@.pos, op);
            }
            let ghost before = self@.pos;
            let ghost old_res = res@;
            let ch = self.eat();
            assert(ch == c[before]);
            assert(self@.pos == before + 1);
            push_char(&mut res, ch);
            assert(res@ == old_res.push(ch));
            assert(res@ =~= c.subrange(p + 1, self@.pos));
        }
        proof {
            lemma_until_end_bounds(c, self@.pos, op);
        }
        if self.not_eof() && self.at() == op {
            self.eat();
            Token::Str(res)
        } else {
            let mut msg = String::new();
            push_str(&mut msg, "reached end of file and didnt finish string started at line ");
            push_decimal(&mut msg, start_line as u64);
            push_str(&mut msg, ", colmun ");
            push_decimal(&mut msg, start_column as u64);
            assert(msg@ =~= unterminated_msg(start_line as int, start_column as int));
            self.err(msg, ErrKind::UnknownCharE)
        }
    }

    /// Reads a number literal that starts at the current character.
    fn lex_number(&mut self) -> (r: Token)
        requires
            lex_wf(old(self)@),
            0 <= old(self)@.pos < old(self)@.code.len(),
            old(self)@.pos < byte_len(old(self)@.code),
            is_digit(old(self)@.code[old(self)@.pos]),
            old(self)@.code[old(self)@.pos] != '"',
            old(self)@.code[old(self)@.pos] != '\'',
            token_at(old(self)@, old(self)@.pos, old(self)@.line, old(self)@.column) is Some,
        ensures
            lex_wf(final(self)@),
            (r@, final(self)@) == token_at(old(self)@, old(self)@.pos, old(self)@.line, old(self)@.column)->0,
    {
        let ghost v = self@;
        let ghost c = v.code;
        let ghost p = v.pos;
        let ghost k = v.column;
        let ghost e = num_end(c, p)->0;
        let mut res = String::new();
        proof {
            lemma_num_end_bounds(c, p);
            assert(c.subrange(p, p) =~= Seq::<char>::empty());
        }
        while self.not_eof() && is_num(self.at())
            invariant
                lex_wf(self@),
                self@.code == c,
                self@.errors == v.errors,
                self@.line == v.line,
                0 <= p,
                p <= self@.pos <= e,
                num_end(c, self@.pos) == Some(e),
                self@.column == k + (self@.pos - p),
                k + (e - p) <= u32::MAX,
                res@ == c.subrange(p, self@.pos),
                byte_len(c) >= 1,
            decreases c.len() - self@.pos,
        {
            proof {
                lemma_num_end_bounds(c, self@.pos);
            }
            let ch = self.eat();
            push_char(&mut res, ch);
            assert(res@ =~= c.subrange(p, self@.pos));
        }
        proof {
            lemma_num_end_bounds(c, self@.pos);
            lemma_num_end_bounds(c, p);
        }
        assert(self@.pos == e);
        assert forall|i: int| 0 <= i < res@.len() implies #[trigger] is_num_char(res@[i]) by {
            assert(res@[i] == c[p + i]);
        }
        self.parse_num(res)
    }

    /// Reads an identifier, keyword, tag or boolean that starts at the current character.
    fn lex_word(&mut self) -> (r: Token)
        requires
            lex_wf(old(self)@),
            0 <= old(self)@.pos < old(self)@.code.len(),
            is_id_char(old(self)@.code[old(self)@.pos]),
            id_end(old(self)@.code, old(self)@.pos) is Some,
            old(self)@.column + (id_end(old(self)@.code, old(self)@.pos)->0 - old(self)@.pos) <= u32::MAX,
        ensures
            lex_wf(final(self)@),
            r@ == word_token(old(self)@.code.subrange(old(self)@.pos, id_end(old(self)@.code, old(self)@.pos)->0)),
            final(self)@ == moved(
                old(self)@,
                id_end(old(self)@.code, old(self)@.pos)->0,
                old(self)@.line,
                old(self)@.column + (id_end(old(self)@.code, old(self)@.pos)->0 - old(self)@.pos),
            ),
    {
        let ghost v = self@;
        let ghost c = v.code;
        let ghost p = v.pos;
        let ghost k = v.column;
        let ghost e = id_end(c, p)->0;
        let mut res = String::new();
        proof {
            lemma_id_end_bounds(c, p);
            assert(c.subrange(p, p) =~= Seq::<char>::empty());
        }
        while is_id(self.at())
            invariant
                lex_wf(self@),
                self@.code == c,
                self@.errors == v.errors,
                self@.line == v.line,
                0 <= p,
                p <= self@.pos <= e,
                e < c.len(),
                id_end(c, self@.pos) == Some(e),
                self@.column == k + (self@.pos - p),
                k + (e - p) <= u32::MAX,
                res@ == c.subrange(p, self@.pos),
            decreases c.len() - self@.pos,
        {
            proof {
                lemma_id_end_bounds(c, self@.pos);
            }
            let ch = self.eat();
            push_char(&mut res, ch);
            assert(res@ =~= c.subrange(p, self@.pos));
        }
        proof {
            lemma_id_end_bounds(c, self@.pos);
        }
        word_to_token(res)
    }

    /// Reads a token that starts at a character that is not blank and does
    /// not open a comment.
    fn lex_token(&mut self) -> (r: Token)
        requires
            lex_wf(old(self)@),
            0 <= old(self)@.pos < old(self)@.code.len(),
            old(self)@.pos < byte_len(old(self)@.code),
            byte_len(old(self)@.code) >= 1,
            token_at(old(self)@, old(self)@.pos, old(self)@.line, old(self)@.column) is Some,
        ensures
            lex_wf(final(self)@),
            (r@, final(self)@) == token_at(old(self)@, old(self)@.pos, old(self)@.line, old(self)@.column)->0,
    {
        let ghost v = self@;
        let ghost c = v.code;
        let ghost p = v.pos;
        let ghost l = v.line;
        let ghost k = v.column;
        let ch = self.at();
        if ch == '"' || ch == '\'' {
            return self.lex_string();
        }
        if ch == '0' || ch == '1' || ch == '2' || ch == '3' || ch == '4' || ch == '5' || ch == '6'
            || ch == '7' || ch == '8' || ch == '9' {
            return self.lex_number();
        }
        assert(!is_digit(ch));
        if ch == '=' {
            self.eat();
            if self.not_eof() && self.at() == '=' {
                self.eat();
                return Token::Operator(crate::text::from_str("=="));
            } else {
                return Token::Operator(char_string('='));
            }
        }
        if ch == '-' {
            self.eat();
            if self.not_eof() && self.at() == '>' {
                self.eat();
                return Token::Access;
            } else {
                return Token::Operator(char_string('-'));
            }
        }
        if ch == '&' || ch == '|' {
            let first = self.eat();
            if self.not_eof() && self.at() == first {
                let second = self.eat();
                return Token::Operator(pair_string(first, second));
            }
            return Token::Operator(char_string(first));
        }
        if ch == '+' || ch == '*' || ch == '/' || ch == '%' || ch == '^' {
            let op = self.eat();
            return Token::Operator(char_string(op));
        }
        if ch == '<' || ch == '>' {
            let op = self.eat();
            if self.not_eof() && self.at() == '=' {
                let second = self.eat();
                return Token::Operator(pair_string(op, second));
            } else {
                return Token::Operator(char_string(op));
            }
        }
        if ch == '(' {
            self.eat();
            return Token::LeftParen;
        }
        if ch == ')' {
            self.eat();
            return Token::RightParen;
        }
        if ch == '{' {
            self.eat();
            return Token::LeftBracket;
        }
        if ch == '}' {
            self.eat();
            return Token::RightBracket;
        }
        if ch == '[' {
            self.eat();
            return Token::LeftBrace;
        }
        if ch == ']' {
            self.eat();
            return Token::RightBrace;
        }
        if ch == ':' {
            self.eat();
            return Token::Colon;
        }
        if ch == ',' {
            self.eat();
            return Token::Comma;
        }
        if ch == '.' {
            self.eat();
            return Token::Dot;
        }
        if ch == '!' {
            self.eat();
            return Token::Exec;
        }
        if is_id(ch) {
            return self.lex_word();
        }
        let bad = self.eat();
        let mut msg = String::new();
        push_str(&mut msg, "unknown char '");
        push_char(&mut msg, bad);
        push_str(&mut msg, "'");
        assert(msg@ =~= unknown_char_msg(bad));
        self.err(msg, ErrKind::UnknownCharE)
    }

    /// The next token: blanks and newlines are skipped (a newline counts a line
    /// and resets the column), a comment runs to the end of its line, and the
    /// end of the code gives `EOF`.
    pub fn tokenize(&mut self) -> (r: Token)
        requires
            lex_wf(old(self)@),
            lex_step(old(self)@) is Some,
        ensures
            lex_wf(final(self)@),
            (r@, final(self)@) == lex_step(old(self)@)->0,
        decreases old(self)@.code.len() - old(self)@.pos,
    {
        let ghost v0 = self@;
        let ghost c = v0.code;
        let ghost target = skip_blank(c, v0.pos, v0.line, v0.column);
        loop
            invariant
                lex_wf(self@),
                old(self)@ == v0,
                c == v0.code,
                self@.code == c,
                self@.errors == v0.errors,
                byte_len(c) >= 1,
                target is Some,
                skip_blank(c, self@.pos, self@.line, self@.column) == target,
                target == skip_blank(c, v0.pos, v0.line, v0.column),
                lex_step(v0) is Some,
            ensures
                lex_wf(self@),
                self@.code == c,
                self@.errors == v0.errors,
                target == Some((self@.pos, self@.line, self@.column)),
                self@.pos < byte_len(c),
                0 <= self@.pos < c.len(),
            decreases c.len() - self@.pos,
        {
            if !self.not_eof() {
                assert(self@ =~= moved(v0, self@.pos, self@.line, self@.column));
                return Token::EOF;
            }
            let ch = self.at();
            if ch == ' ' || ch == '\t' {
                self.eat();
            } else if ch == '\n' {
                self.eat();
                self.column = 0;
                self.line = self.line + 1;
            } else {
                break;
            }
        }
        let ghost p = self@.pos;
        let ghost l = self@.line;
        let ghost k = self@.column;
        assert(self@ =~= moved(v0, p, l, k));
        let ch = self.at();
        if ch == '#' {
            let ghost e = until_end(c, p, '\n')->0;
            proof {
                lemma_until_end_bounds(c, p, '\n');
            }
            while self.not_eof() && self.at() != '\n'
                invariant
                    lex_wf(self@),
                    self@.code == c,
                    self@.errors == v0.errors,
                    self@.line == l,
                    0 <= p,
                p <= self@.pos <= e,
                    until_end(c, self@.pos, '\n') == Some(e),
                    self@.column == k + (self@.pos - p),
                    k + (e - p) <= u32::MAX,
                    byte_len(c) >= 1,
                decreases c.len() - self@.pos,
            {
                proof {
                    lemma_until_end_bounds(c, self@.pos, '\n');
                }
                self.eat();
            }
            proof {
                lemma_until_end_bounds(c, self@.pos, '\n');
                lemma_skip_blank_moves(c, v0.pos, v0.line, v0.column);
            }
            self.line = self.line + 1;
            assert(self@ =~= moved(v0, e, l + 1, k + (e - p)));
            return self.tokenize();
        }
        self.lex_token()
    }
}

} // verus!

verus! {

/// One lexer call keeps the code, only appends errors, never moves back, and
/// moves forward unless it reports the end of the code; every token but `EOF`
/// leaves the position at or before the end of the characters.
pub proof fn lemma_lex_step_progress(v: LexV)
    requires
        lex_wf(v),
        lex_step(v) is Some,
    ensures
        ({
            let (t, w) = lex_step(v)->0;
            &&& w.code == v.code
            &&& v.errors.len() <= w.errors.len()
            &&& w.errors.subrange(0, v.errors.len() as int) == v.errors
            &&& w.pos >= v.pos
            &&& w.pos <= v.code.len() || t == TokenV::EOF
            &&& (t != TokenV::EOF ==> w.pos > v.pos && lex_wf(w))
            &&& (t == TokenV::EOF ==> w.pos >= byte_len(v.code))
        }),
    decreases v.code.len() - v.pos,
{
    let c = v.code;
    lemma_skip_blank_moves(c, v.pos, v.line, v.column);
    let (p, l, k) = skip_blank(c, v.pos, v.line, v.column)->0;
    assert(v.errors.subrange(0, v.errors.len() as int) =~= v.errors);
    if p < byte_len(c) && 0 <= p < c.len() {
        let ch = c[p];
        if ch == '#' {
            lemma_until_end_bounds(c, p, '\n');
            let e = until_end(c, p, '\n')->0;
            let w = moved(v, e, l + 1, k + (e - p));
            lemma_lex_step_progress(w);
        } else {
            let t = lex_step(v)->0;
            if ch == '"' || ch == '\'' {
                lemma_until_end_bounds(c, p + 1, ch);
                let e = until_end(c, p + 1, ch)->0;
                if !(e < byte_len(c)) {
                    let w = t.1;
                    assert(w.errors.subrange(0, v.errors.len() as int) =~= v.errors);
                }
            } else if is_digit(ch) {
                lemma_num_end_bounds(c, p);
            } else if is_id_char(ch) && !(ch == '=' || ch == '-' || ch == '<' || ch == '>' || ch == '&'
                || ch == '|' || ch == '+' || ch == '*' || ch == '/' || ch == '%' || ch == '^' || ch
                == '(' || ch == ')' || ch == '{' || ch == '}' || ch == '[' || ch == ']' || ch == ':'
                || ch == ',' || ch == '.' || ch == '!') {
                lemma_id_end_bounds(c, p);
            } else {
                let w = t.1;
                assert(w.errors.subrange(0, v.errors.len() as int) =~= v.errors);
            }
        }
    }
}

/// An identifier token is a non-empty run of identifier characters, and a
/// number token holds only digits and dots, starting with a digit.
pub proof fn lemma_lex_step_words(v: LexV)
    requires
        lex_wf(v),
        lex_step(v) is Some,
    ensures
        ({
            let (t, w) = lex_step(v)->0;
            &&& (t matches TokenV::Ident(s) ==> s.len() > 0 && forall|i: int|
                0 <= i < s.len() ==> #[trigger] is_id_char(s[i]))
            &&& (t matches TokenV::Float(s) ==> s.len() >= 2 && is_digit(s[0]) && forall|i: int|
                0 <= i < s.len() ==> #[trigger] is_num_char(s[i]))
            &&& (t matches TokenV::Int(n) ==> n >= 0)
        }),
    decreases v.code.len() - v.pos,
{
    let c = v.code;
    lemma_skip_blank_moves(c, v.pos, v.line, v.column);
    let (p, l, k) = skip_blank(c, v.pos, v.line, v.column)->0;
    if p < byte_len(c) && 0 <= p < c.len() {
        let ch = c[p];
        if ch == '#' {
            lemma_until_end_bounds(c, p, '\n');
            let e = until_end(c, p, '\n')->0;
            lemma_lex_step_words(moved(v, e, l + 1, k + (e - p)));
        } else if ch == '"' || ch == '\'' {
        } else if is_digit(ch) {
            lemma_num_end_bounds(c, p);
            let e = num_end(c, p)->0;
            let s = c.subrange(p, e);
            assert forall|i: int| 0 <= i < s.len() implies #[trigger] is_num_char(s[i]) by {
                assert(s[i] == c[p + i]);
            }
            if !contains_char(s, '.') {
                assert(all_digits(s)) by {
                    assert forall|j: int| 0 <= j < s.len() implies #[trigger] is_digit(s[j]) by {
                        lemma_num_char(s[j]);
                        if s[j] == '.' {
                            assert(contains_char(s, '.'));
                        }
                    }
                }
                lemma_decimal_prefix(s, 0);
                assert(s.subrange(0, 0) =~= Seq::<char>::empty());
            }
        } else if (lex_step(v)->0).0 is Ident {
            lemma_id_end_bounds(c, p);
            let e = id_end(c, p)->0;
            let s = c.subrange(p, e);
            assert forall|i: int| 0 <= i < s.len() implies #[trigger] is_id_char(s[i]) by {
                assert(s[i] == c[p + i]);
            }
            reveal_strlit("set");
            reveal_strlit("if");
            reveal_strlit("else");
            reveal_strlit("while");
            reveal_strlit("break");
            reveal_strlit("continue");
            reveal_strlit("ret");
            reveal_strlit("__int__");
            reveal_strlit("__float__");
            reveal_strlit("true");
            reveal_strlit("false");
        }
    }
}

} // verus!
