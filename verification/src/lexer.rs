use vstd::prelude::*;

verus! {

/// One lexical token.
///
/// A number literal is kept as its source text; the text is guaranteed to
/// hold at least one digit and at most one dot.
#[derive(Debug, PartialEq, Clone)]
pub enum Token {
    EOF,
    Def,
    Extern,
    Identifier(String),
    Number(String),
    If,
    Then,
    Else,
    Misc(char),
}

/// The mathematical shape of a token.
pub enum TokenV {
    EOF,
    Def,
    Extern,
    Identifier(Seq<char>),
    Number(Seq<char>),
    If,
    Then,
    Else,
    Misc(char),
}

impl View for Token {
    type V = TokenV;

    open spec fn view(&self) -> TokenV {
        match self {
            Token::EOF => TokenV::EOF,
            Token::Def => TokenV::Def,
            Token::Extern => TokenV::Extern,
            Token::Identifier(s) => TokenV::Identifier(s@),
            Token::Number(s) => TokenV::Number(s@),
            Token::If => TokenV::If,
            Token::Then => TokenV::Then,
            Token::Else => TokenV::Else,
            Token::Misc(c) => TokenV::Misc(*c),
        }
    }
}

/// The view of an optional token.
pub open spec fn opt_tok_view(o: Option<Token>) -> Option<TokenV> {
    match o {
        Some(t) => Some(t@),
        None => None,
    }
}

// ---------------------------------------------------------------------------
// Byte classification (ASCII)
// ---------------------------------------------------------------------------

pub open spec fn is_ws_byte(b: u8) -> bool {
    b == 32 || b == 9 || b == 10 || b == 12 || b == 13
}

pub open spec fn is_alpha_byte(b: u8) -> bool {
    (65 <= b && b <= 90) || (97 <= b && b <= 122)
}

pub open spec fn is_digit_byte(b: u8) -> bool {
    48 <= b && b <= 57
}

pub open spec fn is_alnum_byte(b: u8) -> bool {
    is_alpha_byte(b) || is_digit_byte(b)
}

pub open spec fn is_dot_byte(b: u8) -> bool {
    b == 46
}

pub open spec fn is_nl_byte(b: u8) -> bool {
    b == 10 || b == 13
}

fn byte_is_ws(b: u8) -> (r: bool)
    ensures
        r == is_ws_byte(b),
{
    b == 32 || b == 9 || b == 10 || b == 12 || b == 13
}

fn byte_is_alpha(b: u8) -> (r: bool)
    ensures
        r == is_alpha_byte(b),
{
    (65 <= b && b <= 90) || (97 <= b && b <= 122)
}

fn byte_is_digit(b: u8) -> (r: bool)
    ensures
        r == is_digit_byte(b),
{
    48 <= b && b <= 57
}

fn byte_is_alnum(b: u8) -> (r: bool)
    ensures
        r == is_alnum_byte(b),
{
    byte_is_alpha(b) || byte_is_digit(b)
}

// ---------------------------------------------------------------------------
// The scanner, as mathematics: what the next token of a byte sequence is
// ---------------------------------------------------------------------------

/// The characters of an ASCII byte sequence.
pub open spec fn chars_of(s: Seq<u8>) -> Seq<char> {
    s.map_values(|b: u8| b as char)
}

/// Leading whitespace removed.
pub open spec fn skip_ws(s: Seq<u8>) -> Seq<u8>
    decreases s.len(),
{
    if s.len() > 0 && is_ws_byte(s[0]) {
        skip_ws(s.skip(1))
    } else {
        s
    }
}

/// End of the identifier word that starts before `i`: the first position
/// at or after `i` that does not continue the word.
pub open spec fn word_end(s: Seq<u8>, i: int) -> int
    decreases s.len() - i,
{
    if i < 0 || i >= s.len() || !is_alnum_byte(s[i]) {
        i
    } else {
        word_end(s, i + 1)
    }
}

/// End of the number literal that starts before `i`: scanning stops at the
/// first byte that is neither digit nor dot, or at the second of two
/// consecutive dots.
pub open spec fn num_end(s: Seq<u8>, i: int) -> int
    decreases s.len() - i,
{
    if i < 1 || i >= s.len() || !(is_digit_byte(s[i]) || is_dot_byte(s[i])) || (is_dot_byte(s[i])
        && is_dot_byte(s[i - 1])) {
        i
    } else {
        num_end(s, i + 1)
    }
}

/// Position of the first newline at or after `i`, or the length.
pub open spec fn cmt_end(s: Seq<u8>, i: int) -> int
    decreases s.len() - i,
{
    if i < 0 || i >= s.len() {
        s.len() as int
    } else if is_nl_byte(s[i]) {
        i
    } else {
        cmt_end(s, i + 1)
    }
}

/// How many dots a literal holds.
pub open spec fn dot_count(s: Seq<u8>) -> nat
    decreases s.len(),
{
    if s.len() == 0 {
        0
    } else {
        dot_count(s.drop_last()) + (if is_dot_byte(s.last()) {
            1nat
        } else {
            0nat
        })
    }
}

/// How many digits a literal holds.
pub open spec fn digit_count(s: Seq<u8>) -> nat
    decreases s.len(),
{
    if s.len() == 0 {
        0
    } else {
        digit_count(s.drop_last()) + (if is_digit_byte(s.last()) {
            1nat
        } else {
            0nat
        })
    }
}

/// A scanned literal is a valid number when it has at least one digit and
/// at most one dot.
pub open spec fn valid_number(s: Seq<u8>) -> bool {
    dot_count(s) <= 1 && digit_count(s) >= 1
}

/// The token a scanned word stands for.
pub open spec fn keyword_of(w: Seq<char>) -> TokenV {
    if w == seq!['d', 'e', 'f'] {
        TokenV::Def
    } else if w == seq!['e', 'x', 't', 'e', 'r', 'n'] {
        TokenV::Extern
    } else if w == seq!['i', 'f'] {
        TokenV::If
    } else if w == seq!['t', 'h', 'e', 'n'] {
        TokenV::Then
    } else if w == seq!['e', 'l', 's', 'e'] {
        TokenV::Else
    } else {
        TokenV::Identifier(w)
    }
}

/// What scanning one word yields: the token and the bytes left.
pub open spec fn lex_word(s: Seq<u8>) -> (Option<TokenV>, Seq<u8>) {
    let k = word_end(s, 1);
    (Some(keyword_of(chars_of(s.take(k)))), s.skip(k))
}

/// What scanning one number literal yields: the token (or nothing, for a
/// malformed literal) and the bytes left.
pub open spec fn lex_num(s: Seq<u8>) -> (Option<TokenV>, Seq<u8>) {
    let k = num_end(s, 1);
    (
        if valid_number(s.take(k)) {
            Some(TokenV::Number(chars_of(s.take(k))))
        } else {
            None
        },
        s.skip(k),
    )
}

/// The next token of a byte sequence, with the bytes left after it.
///
/// This is the scanner's whole contract: whitespace is skipped, a letter
/// starts a keyword or identifier, a digit or dot starts a number literal,
/// `#` starts a comment that runs to the end of the line, anything else is
/// a one-character token, and the end of input yields `EOF` forever.
pub open spec fn lex_next(s: Seq<u8>) -> (Option<TokenV>, Seq<u8>)
    decreases s.len(),
    via lex_next_decreases
{
    if s.len() == 0 {
        (Some(TokenV::EOF), s)
    } else if is_ws_byte(s[0]) {
        lex_next(s.skip(1))
    } else if is_alpha_byte(s[0]) {
        lex_word(s)
    } else if is_digit_byte(s[0]) || is_dot_byte(s[0]) {
        lex_num(s)
    } else if s[0] == 35 {
        let k = cmt_end(s, 0);
        if k == s.len() {
            (Some(TokenV::EOF), s.skip(k))
        } else {
            lex_next(s.skip(k))
        }
    } else {
        (Some(TokenV::Misc(s[0] as char)), s.skip(1))
    }
}

#[via_fn]
proof fn lex_next_decreases(s: Seq<u8>) {
    if s.len() > 0 && !is_ws_byte(s[0]) && !is_alpha_byte(s[0]) && !(is_digit_byte(s[0])
        || is_dot_byte(s[0])) && s[0] == 35 {
        lemma_cmt_end_bounds(s, 1);
        assert(cmt_end(s, 0) == cmt_end(s, 1));
    }
}

// ---------------------------------------------------------------------------
// Facts about the scanner
// ---------------------------------------------------------------------------

pub proof fn lemma_word_end_bounds(s: Seq<u8>, i: int)
    requires
        0 <= i <= s.len(),
    ensures
        i <= word_end(s, i) <= s.len(),
    decreases s.len() - i,
{
    if !(i >= s.len() || !is_alnum_byte(s[i])) {
        lemma_word_end_bounds(s, i + 1);
    }
}

pub proof fn lemma_num_end_bounds(s: Seq<u8>, i: int)
    requires
        1 <= i <= s.len(),
    ensures
        i <= num_end(s, i) <= s.len(),
    decreases s.len() - i,
{
    if !(i >= s.len() || !(is_digit_byte(s[i]) || is_dot_byte(s[i])) || (is_dot_byte(s[i])
        && is_dot_byte(s[i - 1]))) {
        lemma_num_end_bounds(s, i + 1);
    }
}

pub proof fn lemma_cmt_end_bounds(s: Seq<u8>, i: int)
    requires
        0 <= i <= s.len(),
    ensures
        i <= cmt_end(s, i) <= s.len(),
        cmt_end(s, i) < s.len() ==> is_nl_byte(s[cmt_end(s, i)]),
    decreases s.len() - i,
{
    if i < s.len() && !is_nl_byte(s[i]) {
        lemma_cmt_end_bounds(s, i + 1);
    }
}

/// Skipping leading whitespace does not change the next token.
pub proof fn lemma_lex_next_skip_ws(s: Seq<u8>)
    ensures
        lex_next(s) == lex_next(skip_ws(s)),
    decreases s.len(),
{
    if s.len() > 0 && is_ws_byte(s[0]) {
        lemma_lex_next_skip_ws(s.skip(1));
    }
}

/// `skip_ws` yields a suffix that does not start with whitespace.
pub proof fn lemma_skip_ws_props(s: Seq<u8>)
    ensures
        skip_ws(s).len() <= s.len(),
        skip_ws(s).len() > 0 ==> !is_ws_byte(skip_ws(s)[0]),
    decreases s.len(),
{
    if s.len() > 0 && is_ws_byte(s[0]) {
        lemma_skip_ws_props(s.skip(1));
    }
}

/// A non-EOF token consumes at least one byte; no token consumes more
/// bytes than there are.
pub proof fn lemma_lex_next_consumes(s: Seq<u8>)
    ensures
        lex_next(s).1.len() <= s.len(),
        !(lex_next(s).0 == Some(TokenV::EOF)) ==> lex_next(s).1.len() < s.len(),
    decreases s.len(),
{
    if s.len() == 0 {
    } else if is_ws_byte(s[0]) {
        lemma_lex_next_consumes(s.skip(1));
    } else if is_alpha_byte(s[0]) {
        lemma_word_end_bounds(s, 1);
    } else if is_digit_byte(s[0]) || is_dot_byte(s[0]) {
        lemma_num_end_bounds(s, 1);
    } else if s[0] == 35 {
        lemma_cmt_end_bounds(s, 0);
        let k = cmt_end(s, 0);
        if k != s.len() {
            lemma_lex_next_consumes(s.skip(k));
        }
    } else {
    }
}


// ---------------------------------------------------------------------------
// The token source
// ---------------------------------------------------------------------------

/// Relies on String::push: appends one character at the end of the string.
#[verifier::external_body]
fn push_char(s: &mut String, c: char)
    ensures
        final(s)@ == old(s)@.push(c),
{
    s.push(c);
}

/// Reads tokens on demand from a buffer of ASCII source bytes.
///
/// `buffer` holds the current token, `char_buffer` a character that was
/// read from the input but does not yet belong to any token.
pub struct Lexer {
    pub input: Vec<u8>,
    pub pos: usize,
    pub buffer: Option<Token>,
    pub char_buffer: Option<char>,
}

impl Lexer {
    /// The read position is in range, every input byte is ASCII, and any
    /// buffered character is ASCII.
    pub open spec fn wf(&self) -> bool {
        &&& self.pos <= self.input@.len()
        &&& forall|i: int| 0 <= i < self.input@.len() ==> self.input@[i] < 128
        &&& match self.char_buffer {
            Some(c) => (c as u8) < 128 && ((c as u8) as char) == c,
            None => true,
        }
    }

    /// The bytes the scanner has not yet turned into tokens: the buffered
    /// character, if any, followed by the unread input.
    pub open spec fn remaining(&self) -> Seq<u8> {
        match self.char_buffer {
            Some(c) => seq![c as u8] + self.input@.skip(self.pos as int),
            None => self.input@.skip(self.pos as int),
        }
    }

    pub fn new(input: Vec<u8>) -> (r: Lexer)
        requires
            forall|i: int| 0 <= i < input@.len() ==> input@[i] < 128,
        ensures
            r.wf(),
            r.buffer is None,
            r.remaining() == input@,
            r.input@ == input@,
    {
        let r = Lexer { input, pos: 0, buffer: None, char_buffer: None };
        proof {
            assert(r.remaining() =~= r.input@);
        }
        r
    }

    /// The token most recently produced, without consuming it.
    pub fn current_token(&self) -> (r: &Option<Token>)
        ensures
            r == &self.buffer,
    {
        &self.buffer
    }

    /// Reads the next character. With `does_eat_whitespace` set, whitespace
    /// is skipped first. Returns `None` at the end of the input. The
    /// character that was already buffered is discarded either way.
    fn try_get_char(&mut self, does_eat_whitespace: bool) -> (r: Option<char>)
        requires
            old(self).wf(),
        ensures
            final(self).wf(),
            final(self).input == old(self).input,
            final(self).buffer == old(self).buffer,
            final(self).remaining() == (if does_eat_whitespace {
                skip_ws(old(self).input@.skip(old(self).pos as int))
            } else {
                old(self).input@.skip(old(self).pos as int)
            }),
            r == final(self).char_buffer,
            r == (if final(self).remaining().len() == 0 {
                None::<char>
            } else {
                Some(final(self).remaining()[0] as char)
            }),
    {
        self.char_buffer = None;
        loop
            invariant
                self.wf(),
                self.char_buffer is None,
                self.input == old(self).input,
                self.buffer == old(self).buffer,
                if does_eat_whitespace {
                    skip_ws(self.input@.skip(self.pos as int)) == skip_ws(
                        old(self).input@.skip(old(self).pos as int),
                    )
                } else {
                    self.input@.skip(self.pos as int) == old(self).input@.skip(old(self).pos as int)
                },
            decreases self.input@.len() - self.pos,
        {
            if self.pos >= self.input.len() {
                proof {
                    assert(self.input@.skip(self.pos as int) =~= Seq::<u8>::empty());
                }
                return None;
            }
            let b = self.input[self.pos];
            let ghost rest = self.input@.skip(self.pos as int);
            self.pos = self.pos + 1;
            proof {
                assert(rest[0] == b);
                assert(rest.skip(1) =~= self.input@.skip(self.pos as int));
            }
            if does_eat_whitespace && byte_is_ws(b) {
                // keep scanning
            } else {
                let c = b as char;
                self.char_buffer = Some(c);
                proof {
                    assert(self.remaining() =~= rest);
                }
                return Some(c);
            }
        }
    }
}


/// Where the word scan stops, given what has been seen so far.
proof fn lemma_word_end_from(s: Seq<u8>, i: int, j: int)
    requires
        1 <= i <= j <= s.len(),
        forall|k: int| i <= k < j ==> is_alnum_byte(#[trigger] s[k]),
        j < s.len() ==> !is_alnum_byte(s[j]),
    ensures
        word_end(s, i) == j,
    decreases j - i,
{
    if i < j {
        lemma_word_end_from(s, i + 1, j);
    }
}

/// The number-scan continue condition at position `k`.
pub open spec fn num_scan_go(s: Seq<u8>, k: int) -> bool {
    (is_digit_byte(s[k]) || is_dot_byte(s[k])) && !(is_dot_byte(s[k]) && is_dot_byte(s[k - 1]))
}

/// Where the number scan stops, given what has been seen so far.
proof fn lemma_num_end_from(s: Seq<u8>, i: int, j: int)
    requires
        1 <= i <= j <= s.len(),
        forall|k: int| i <= k < j ==> num_scan_go(s, k),
        j < s.len() ==> !num_scan_go(s, j),
    ensures
        num_end(s, i) == j,
    decreases j - i,
{
    if i < j {
        assert(num_scan_go(s, i));
        lemma_num_end_from(s, i + 1, j);
    }
}

/// Where the comment scan stops, given what has been seen so far.
proof fn lemma_cmt_end_from(s: Seq<u8>, i: int, j: int)
    requires
        0 <= i <= j <= s.len(),
        forall|k: int| i <= k < j ==> !is_nl_byte(#[trigger] s[k]),
        j < s.len() ==> is_nl_byte(s[j]),
    ensures
        cmt_end(s, i) == j,
    decreases j - i,
{
    if i < j {
        lemma_cmt_end_from(s, i + 1, j);
    }
}

impl Lexer {
    /// Scans the keyword or identifier whose first character is buffered.
    pub fn tok_def_extern_or_ident(&mut self) -> (r: Option<Token>)
        requires
            old(self).wf(),
            old(self).char_buffer is Some,
            is_alnum_byte(old(self).remaining()[0]),
        ensures
            final(self).wf(),
            final(self).input == old(self).input,
            final(self).buffer == old(self).buffer,
            (opt_tok_view(r), final(self).remaining()) == lex_word(old(self).remaining()),
    {
        let ghost s = old(self).remaining();
        proof {
            assert forall|i: int| 0 <= i < s.len() implies s[i] < 128 by {
                if old(self).char_buffer is Some {
                    if i > 0 {
                        assert(s[i] == old(self).input@[old(self).pos + i - 1]);
                    }
                } else {
                    assert(s[i] == old(self).input@[old(self).pos + i]);
                }
            }
        }
        let mut ident = String::new();
        let mut ch = match self.char_buffer {
            Some(c) => c,
            None => unreached(),
        };
        loop
            invariant
                self.wf(),
                self.input == old(self).input,
                self.buffer == old(self).buffer,
                ident@.len() <= s.len(),
                forall|i: int| 0 <= i < s.len() ==> #[trigger] s[i] < 128,
                ident@ == chars_of(s.take(ident@.len() as int)),
                forall|k: int| 0 <= k < ident@.len() ==> is_alnum_byte(#[trigger] s[k]),
                ident@.len() < s.len() ==> {
                    &&& self.char_buffer == Some(ch)
                    &&& ch as u8 == s[ident@.len() as int]
                    &&& (ch as u8) < 128
                    &&& self.remaining() == s.skip(ident@.len() as int)
                },
                ident@.len() == s.len() ==> self.remaining().len() == 0,
                ident@.len() == 0 ==> is_alnum_byte(s[0]),
                ident@.len() == s.len() ==> ident@.len() > 0,
            ensures
                self.wf(),
                self.input == old(self).input,
                self.buffer == old(self).buffer,
                ident@ == chars_of(s.take(word_end(s, 1))),
                self.remaining() == s.skip(word_end(s, 1)),
            decreases s.len() - ident@.len(),
        {
            let ghost j = ident@.len() as int;
            if self.remaining_is_empty_exec() {
                proof {
                    lemma_word_end_from(s, 1, j);
                    assert(s.take(j) =~= s);
                }
                break;
            }
            if !byte_is_alnum(ch as u8) {
                proof {
                    lemma_word_end_from(s, 1, j);
                }
                break;
            }
            push_char(&mut ident, ch);
            let ghost pre_rest = self.input@.skip(self.pos as int);
            proof {
                assert(self.char_buffer == Some(ch));
                assert(self.remaining() == s.skip(j));
                assert(seq![ch as u8] + pre_rest == s.skip(j));
                assert((seq![ch as u8] + pre_rest).len() == 1 + pre_rest.len());
                assert(s.skip(j).len() == s.len() - j);
                assert(pre_rest.len() == s.len() - j - 1);
                assert(s.skip(j + 1).len() == s.len() - j - 1);
                assert(chars_of(s.take(j + 1)) =~= chars_of(s.take(j)).push(s[j] as char));
                assert((s[j] as char) == ch) by {
                    assert(ch as u8 == s[j]);
                }
                assert(seq![ch as u8] + pre_rest == s.skip(j));
                assert(pre_rest =~= s.skip(j + 1)) by {
                    assert forall|i: int| 0 <= i < pre_rest.len() implies pre_rest[i] == s.skip(
                        j + 1,
                    )[i] by {
                        assert((seq![ch as u8] + pre_rest)[i + 1] == pre_rest[i]);
                        assert(s.skip(j)[i + 1] == s[j + i + 1]);
                    }
                }
            }
            match self.try_get_char(false) {
                Some(c) => {
                    ch = c;
                }
                None => {
                    proof {
                        assert(s.skip(j + 1).len() == 0);
                    }
                }
            }
        }
        proof {
            reveal_strlit("def");
            reveal_strlit("extern");
            reveal_strlit("if");
            reveal_strlit("then");
            reveal_strlit("else");
            assert("def"@ =~= seq!['d', 'e', 'f']);
            assert("extern"@ =~= seq!['e', 'x', 't', 'e', 'r', 'n']);
            assert("if"@ =~= seq!['i', 'f']);
            assert("then"@ =~= seq!['t', 'h', 'e', 'n']);
            assert("else"@ =~= seq!['e', 'l', 's', 'e']);
        }
        let r = if ident == "def".to_owned() {
            Token::Def
        } else if ident == "extern".to_owned() {
            Token::Extern
        } else if ident == "if".to_owned() {
            Token::If
        } else if ident == "then".to_owned() {
            Token::Then
        } else if ident == "else".to_owned() {
            Token::Else
        } else {
            Token::Identifier(ident)
        };
        Some(r)
    }

    /// True when no unread byte and no buffered character is left.
    fn remaining_is_empty_exec(&self) -> (r: bool)
        requires
            self.wf(),
        ensures
            r == (self.remaining().len() == 0),
    {
        match self.char_buffer {
            Some(_) => false,
            None => self.pos >= self.input.len(),
        }
    }
}


/// Every byte a well-formed lexer has not yet consumed is ASCII.
proof fn lemma_remaining_ascii(l: Lexer)
    requires
        l.wf(),
    ensures
        forall|i: int| 0 <= i < l.remaining().len() ==> #[trigger] l.remaining()[i] < 128,
{
    let s = l.remaining();
    assert forall|i: int| 0 <= i < s.len() implies s[i] < 128 by {
        if l.char_buffer is Some {
            if i > 0 {
                assert(s[i] == l.input@[l.pos + i - 1]);
            }
        } else {
            assert(s[i] == l.input@[l.pos + i]);
        }
    }
}

fn byte_is_nl(b: u8) -> (r: bool)
    ensures
        r == is_nl_byte(b),
{
    b == 10 || b == 13
}

impl Lexer {
    /// Scans the number literal whose first character is buffered. Yields
    /// no token when the scanned text is not a valid literal.
    pub fn tok_number(&mut self) -> (r: Option<Token>)
        requires
            old(self).wf(),
            old(self).char_buffer is Some,
            is_digit_byte(old(self).remaining()[0]) || is_dot_byte(old(self).remaining()[0]),
        ensures
            final(self).wf(),
            final(self).input == old(self).input,
            final(self).buffer == old(self).buffer,
            (opt_tok_view(r), final(self).remaining()) == lex_num(old(self).remaining()),
    {
        let ghost s = old(self).remaining();
        proof {
            lemma_remaining_ascii(*old(self));
        }
        let mut num = String::new();
        let mut dot_seen = false;
        let mut dot_many = false;
        let mut digit_seen = false;
        let mut ch = match self.char_buffer {
            Some(c) => c,
            None => unreached(),
        };
        let mut saw_decimal = ch == '.';
        loop
            invariant_except_break
                num@.len() < s.len(),
                num@ == chars_of(s.take(num@.len() as int)),
                self.char_buffer == Some(ch),
                ch as u8 == s[num@.len() as int],
                self.remaining() == s.skip(num@.len() as int),
                dot_seen == (dot_count(s.take(num@.len() as int)) >= 1),
                dot_many == (dot_count(s.take(num@.len() as int)) >= 2),
                digit_seen == (digit_count(s.take(num@.len() as int)) >= 1),
                saw_decimal == is_dot_byte(s[num@.len() as int]),
                num@.len() == 0 ==> (is_digit_byte(s[0]) || is_dot_byte(s[0])),
                forall|k: int| 1 <= k <= num@.len() ==> num_scan_go(s, k),
            invariant
                self.wf(),
                self.input == old(self).input,
                self.buffer == old(self).buffer,
                forall|i: int| 0 <= i < s.len() ==> #[trigger] s[i] < 128,
            ensures
                self.wf(),
                self.input == old(self).input,
                self.buffer == old(self).buffer,
                ({
                    let k = num_end(s, 1);
                    &&& num@ == chars_of(s.take(k))
                    &&& self.remaining() == s.skip(k)
                    &&& dot_many == (dot_count(s.take(k)) >= 2)
                    &&& digit_seen == (digit_count(s.take(k)) >= 1)
                }),
            decreases s.len() - num@.len(),
        {
            let ghost j = num@.len() as int;
            push_char(&mut num, ch);
            if ch == '.' {
                dot_many = dot_many || dot_seen;
                dot_seen = true;
            } else {
                digit_seen = true;
            }
            proof {
                if j >= 1 {
                    assert(num_scan_go(s, j));
                }
                assert(is_digit_byte(s[j]) || is_dot_byte(s[j]));
                assert(is_dot_byte(s[j]) == (ch == '.')) by {
                    assert(ch as u8 == s[j]);
                }
            }
            let ghost pre_rest = self.input@.skip(self.pos as int);
            proof {
                assert(self.char_buffer == Some(ch));
                assert(self.remaining() == s.skip(j));
                assert(seq![ch as u8] + pre_rest == s.skip(j));
                assert((seq![ch as u8] + pre_rest).len() == 1 + pre_rest.len());
                assert(s.skip(j).len() == s.len() - j);
                assert(pre_rest.len() == s.len() - j - 1);
                assert(s.skip(j + 1).len() == s.len() - j - 1);
                assert(chars_of(s.take(j + 1)) =~= chars_of(s.take(j)).push(s[j] as char));
                assert((s[j] as char) == ch) by {
                    assert(ch as u8 == s[j]);
                }
                assert(s.take(j + 1).drop_last() =~= s.take(j));
                assert(s.take(j + 1).last() == s[j]);
                assert(seq![ch as u8] + pre_rest == s.skip(j));
                assert(pre_rest =~= s.skip(j + 1)) by {
                    assert forall|i: int| 0 <= i < pre_rest.len() implies pre_rest[i] == s.skip(
                        j + 1,
                    )[i] by {
                        assert((seq![ch as u8] + pre_rest)[i + 1] == pre_rest[i]);
                        assert(s.skip(j)[i + 1] == s[j + i + 1]);
                    }
                }
            }
            match self.try_get_char(false) {
                Some(c) => {
                    ch = c;
                    if saw_decimal && ch == '.' {
                        proof {
                            assert(is_dot_byte(s[j + 1]) && is_dot_byte(s[j]));
                            lemma_num_end_from(s, 1, j + 1);
                        }
                        break;
                    }
                    saw_decimal = ch == '.';
                    if !byte_is_digit(ch as u8) && !(ch == '.') {
                        proof {
                            lemma_num_end_from(s, 1, j + 1);
                        }
                        break;
                    }
                }
                None => {
                    proof {
                        assert(s.skip(j + 1).len() == 0);
                        lemma_num_end_from(s, 1, j + 1);
                    }
                    break;
                }
            }
        }
        if digit_seen && !dot_many {
            Some(Token::Number(num))
        } else {
            None
        }
    }

    /// Skips a comment: everything up to the end of the line, then scans
    /// the next token; end of input inside a comment yields `EOF`.
    pub fn tok_comment(&mut self) -> (r: Option<Token>)
        requires
            old(self).wf(),
            match old(self).char_buffer {
                Some(c) => !is_nl_byte(c as u8),
                None => old(self).remaining().len() == 0 || !is_nl_byte(old(self).remaining()[0]),
            },
        ensures
            final(self).wf(),
            final(self).input == old(self).input,
            final(self).buffer == old(self).buffer,
            ({
                let s = old(self).remaining();
                let k = cmt_end(s, 0);
                if k == s.len() {
                    r == Some(Token::EOF) && final(self).remaining() == s.skip(k)
                } else {
                    (opt_tok_view(r), final(self).remaining()) == lex_next(s.skip(k))
                }
            }),
        decreases old(self).remaining().len(), 0int,
    {
        let ghost s = old(self).remaining();
        let ghost mut j: int = if old(self).char_buffer is Some {
            1int
        } else {
            0int
        };
        proof {
            lemma_remaining_ascii(*old(self));
            if old(self).char_buffer is Some {
                let c = old(self).char_buffer->0;
                assert(self.input@.skip(self.pos as int) =~= s.skip(1)) by {
                    assert(seq![c as u8] + self.input@.skip(self.pos as int) == s);
                    assert forall|i: int|
                        0 <= i < self.input@.skip(self.pos as int).len() implies self.input@.skip(
                        self.pos as int,
                    )[i] == s.skip(1)[i] by {
                        assert((seq![c as u8] + self.input@.skip(self.pos as int))[i + 1]
                            == self.input@.skip(self.pos as int)[i]);
                    }
                }
            }
        }
        loop
            invariant
                self.wf(),
                self.input == old(self).input,
                self.buffer == old(self).buffer,
                s == old(self).remaining(),
                forall|i: int| 0 <= i < s.len() ==> #[trigger] s[i] < 128,
                0 <= j <= s.len(),
                self.input@.skip(self.pos as int) == s.skip(j),
                forall|k: int| 0 <= k < j ==> !is_nl_byte(#[trigger] s[k]),
                j == 0 ==> (s.len() == 0 || !is_nl_byte(s[0])),
            decreases s.len() - j,
        {
            match self.try_get_char(false) {
                None => {
                    proof {
                        assert(self.remaining() == s.skip(j));
                        assert(s.skip(j).len() == 0);
                        assert(j == s.len());
                        lemma_cmt_end_from(s, 0, s.len() as int);
                        assert(cmt_end(s, 0) == s.len());
                        assert(self.remaining() == s.skip(cmt_end(s, 0)));
                        assert(s == old(self).remaining());
                    }
                    return Some(Token::EOF);
                }
                Some(c) => {
                    proof {
                        assert(self.remaining() == s.skip(j));
                        assert(s.skip(j)[0] == s[j]);
                    }
                    if byte_is_nl(c as u8) {
                        proof {
                            assert(c as u8 == s[j]) by {
                                assert(s[j] < 128);
                            }
                            assert(is_nl_byte(s[j]));
                            if j == 0 {
                                assert(false);
                            }
                            lemma_cmt_end_from(s, 0, j);
                            assert(cmt_end(s, 0) == j);
                            assert(j < s.len());
                            assert(self.remaining() == s.skip(cmt_end(s, 0)));
                        }
                        return self.get_token();
                    }
                    proof {
                        let pre_rest = self.input@.skip(self.pos as int);
                        assert(seq![c as u8] + pre_rest == s.skip(j));
                        assert(pre_rest =~= s.skip(j + 1)) by {
                            assert forall|i: int| 0 <= i < pre_rest.len() implies pre_rest[i]
                                == s.skip(j + 1)[i] by {
                                assert((seq![c as u8] + pre_rest)[i + 1] == pre_rest[i]);
                                assert(s.skip(j)[i + 1] == s[j + i + 1]);
                            }
                        }
                        j = j + 1;
                    }
                }
            }
        }
    }

    /// Scans and returns the next token of the input.
    pub fn get_token(&mut self) -> (r: Option<Token>)
        requires
            old(self).wf(),
        ensures
            final(self).wf(),
            final(self).input == old(self).input,
            final(self).buffer == old(self).buffer,
            (opt_tok_view(r), final(self).remaining()) == lex_next(old(self).remaining()),
        decreases old(self).remaining().len(), 1int,
    {
        let ghost s = old(self).remaining();
        let need_read = match self.char_buffer {
            Some(c) => byte_is_ws(c as u8),
            None => true,
        };
        let ch: char;
        if need_read {
            proof {
                if old(self).char_buffer is Some {
                    let c = old(self).char_buffer->0;
                    assert(s[0] == c as u8);
                    assert(self.input@.skip(self.pos as int) =~= s.skip(1)) by {
                        assert(seq![c as u8] + self.input@.skip(self.pos as int) == s);
                        assert forall|i: int|
                            0 <= i < self.input@.skip(self.pos as int).len()
                            implies self.input@.skip(self.pos as int)[i] == s.skip(1)[i] by {
                            assert((seq![c as u8] + self.input@.skip(self.pos as int))[i + 1]
                                == self.input@.skip(self.pos as int)[i]);
                        }
                    }
                    lemma_lex_next_skip_ws(s.skip(1));
                    lemma_skip_ws_props(s.skip(1));
                    assert(skip_ws(s.skip(1)) == skip_ws(self.input@.skip(self.pos as int)));
                } else {
                    lemma_lex_next_skip_ws(s);
                    lemma_skip_ws_props(s);
                }
            }
            match self.try_get_char(true) {
                Some(c) => {
                    ch = c;
                }
                None => {
                    return Some(Token::EOF);
                }
            }
        } else {
            ch = match self.char_buffer {
                Some(c) => c,
                None => unreached(),
            };
        }
        let ghost t = self.remaining();
        proof {
            assert(lex_next(s) == lex_next(t));
            assert(t.len() > 0 && t[0] == ch as u8 && !is_ws_byte(t[0]));
            assert(t.len() <= s.len());
            lemma_remaining_ascii(*self);
        }
        if byte_is_alpha(ch as u8) {
            self.tok_def_extern_or_ident()
        } else if byte_is_digit(ch as u8) || ch == '.' {
            self.tok_number()
        } else if ch == '#' {
            proof {
                assert(t[0] == 35) by {
                    reveal_strlit("#");
                }
            }
            self.tok_comment()
        } else {
            let r = Token::Misc(ch);
            proof {
                assert((ch as u8) as char == ch);
            }
            let ghost pre_rest = self.input@.skip(self.pos as int);
            proof {
                assert(seq![ch as u8] + pre_rest == t);
                assert(pre_rest =~= t.skip(1)) by {
                    assert forall|i: int| 0 <= i < pre_rest.len() implies pre_rest[i] == t.skip(
                        1,
                    )[i] by {
                        assert((seq![ch as u8] + pre_rest)[i + 1] == pre_rest[i]);
                    }
                }
            }
            let _ = self.try_get_char(false);
            Some(r)
        }
    }

    /// Scans the next token into the buffer and returns a reference to it.
    pub fn get_next_token(&mut self) -> (r: &Option<Token>)
        requires
            old(self).wf(),
        ensures
            final(self).wf(),
            final(self).input == old(self).input,
            opt_tok_view(final(self).buffer) == lex_next(old(self).remaining()).0,
            final(self).remaining() == lex_next(old(self).remaining()).1,
            r == &final(self).buffer,
    {
        let t = self.get_token();
        self.buffer = t;
        &self.buffer
    }
}

} // verus!

