//! The tokenizer: turns source text into tokens, one at a time.
use super::chars::{
    byte_len, char_width, chars_of, chars_to_string, string_push, is_ascii_hex, is_hex_digit, is_numeric, is_whitespace, is_xid_continue,
    is_xid_start, lemma_byte_len_concat, lemma_byte_len_first, lemma_byte_len_split, numeric, white_space, xid_continue,
    xid_start,
};
use super::numeric::{from_str_radix, spec_from_str_radix};
use super::token::{SpecTokenKind, Token, TokenKind, EOF_CHAR};
use vstd::prelude::*;

verus! {

/// The character classes that the tokenizer reads runs of.
#[derive(Clone, Copy, Debug)]
pub enum CharClass {
    Whitespace,
    XidContinue,
    Numeric,
    HexDigit,
}

pub open spec fn class_holds(class: CharClass, c: char) -> bool {
    match class {
        CharClass::Whitespace => white_space(c),
        CharClass::XidContinue => xid_continue(c),
        CharClass::Numeric => numeric(c),
        CharClass::HexDigit => is_ascii_hex(c),
    }
}

/// Length of the longest prefix of `s` whose characters all belong to `class`.
pub open spec fn run_len(s: Seq<char>, class: CharClass) -> nat
    decreases s.len(),
{
    if s.len() > 0 && class_holds(class, s[0]) {
        1 + run_len(s.drop_first(), class)
    } else {
        0
    }
}

/// The character at `i`, or `EOF_CHAR` past the end.
pub open spec fn char_at(s: Seq<char>, i: int) -> char {
    if 0 <= i < s.len() {
        s[i]
    } else {
        EOF_CHAR
    }
}

/// The body of a string literal whose opening quote was already read: the text
/// up to the closing quote, which is consumed but not kept; an escaped quote
/// `\"` is kept as the two characters. An unterminated literal runs to the end.
/// Gives the text and the number of characters consumed.
pub open spec fn string_body(s: Seq<char>) -> (Seq<char>, nat)
    decreases s.len(),
{
    if s.len() == 0 {
        (Seq::empty(), 0)
    } else if s[0] == '\\' && s.len() >= 2 && s[1] == '"' {
        let (t, n) = string_body(s.skip(2));
        (seq!['\\', '"'] + t, 2 + n)
    } else if s[0] == '"' {
        (Seq::empty(), 1)
    } else {
        let (t, n) = string_body(s.drop_first());
        (seq![s[0]] + t, 1 + n)
    }
}

/// An identifier that starts with `first` (already read) and goes on with the
/// XID_Continue characters at the front of `s`; gives the text and how many
/// characters of `s` it takes.
pub open spec fn spec_ident(first: char, s: Seq<char>) -> (Seq<char>, nat) {
    let n = run_len(s, CharClass::XidContinue);
    (seq![first] + s.take(n as int), n)
}

/// The token for number text: its value if `from_str_radix` reads it, else `Unknown`.
pub open spec fn number_kind(text: Seq<char>, radix: nat) -> SpecTokenKind {
    match spec_from_str_radix(text, radix) {
        Some(v) => SpecTokenKind::Numeric(v),
        None => SpecTokenKind::Unknown(text),
    }
}

/// A number that starts with `first` (already read). After `0x` or `0X` the text
/// is the `x` and the hexadecimal digits that follow, read in base 16 (so it is
/// never a valid number); otherwise it is `first` and the numeric characters
/// that follow, read in base 10. Gives the token and the characters of `s` taken.
pub open spec fn spec_number(first: char, s: Seq<char>) -> (SpecTokenKind, nat) {
    if first == '0' && s.len() > 0 && (s[0] == 'x' || s[0] == 'X') {
        let u = s.drop_first();
        let n = run_len(u, CharClass::HexDigit);
        (number_kind(seq![s[0]] + u.take(n as int), 16), 1 + n)
    } else {
        let n = run_len(s, CharClass::Numeric);
        (number_kind(seq![first] + s.take(n as int), 10), n)
    }
}

/// The token of a character that starts no longer token.
pub open spec fn single_char_kind(c: char) -> SpecTokenKind {
    if c == ':' {
        SpecTokenKind::Colon
    } else if c == '=' {
        SpecTokenKind::Equals
    } else if c == ';' {
        SpecTokenKind::Semicolon
    } else if c == '+' {
        SpecTokenKind::Identifier(seq!['+'])
    } else if c == '-' {
        SpecTokenKind::Identifier(seq!['-'])
    } else if c == '.' {
        SpecTokenKind::Identifier(seq!['.'])
    } else if c == '(' {
        SpecTokenKind::OpenParen
    } else if c == ')' {
        SpecTokenKind::CloseParen
    } else if c == '[' {
        SpecTokenKind::OpenBracket
    } else if c == ']' {
        SpecTokenKind::CloseBracket
    } else if c == ',' {
        SpecTokenKind::Comma
    } else {
        SpecTokenKind::Unknown(seq![c])
    }
}

/// The next token at the front of `s` and the number of characters it spans;
/// `None` when `s` is empty.
pub open spec fn spec_next_token(s: Seq<char>) -> Option<(SpecTokenKind, nat)> {
    if s.len() == 0 {
        None
    } else {
        let c = s[0];
        let t = s.drop_first();
        Some(
            if white_space(c) {
                (SpecTokenKind::Whitespace, 1 + run_len(t, CharClass::Whitespace))
            } else if c == '@' {
                if t.len() > 0 && xid_start(t[0]) {
                    let (text, n) = spec_ident(t[0], t.drop_first());
                    (SpecTokenKind::Symbol(text), 2 + n)
                } else if t.len() > 0 && t[0] == '"' {
                    let (text, n) = string_body(t.drop_first());
                    (SpecTokenKind::Symbol(text), 2 + n)
                } else {
                    (SpecTokenKind::Identifier(seq!['@']), 1)
                }
            } else if numeric(c) {
                let (k, n) = spec_number(c, t);
                (k, 1 + n)
            } else if xid_start(c) {
                let (text, n) = spec_ident(c, t);
                (SpecTokenKind::Identifier(text), 1 + n)
            } else if c == '"' {
                let (text, n) = string_body(t);
                (SpecTokenKind::String(text), 1 + n)
            } else {
                (single_char_kind(c), 1)
            },
        )
    }
}

/// A token kind in which `.` stands alone: an identifier is either `.` itself or
/// holds no `.` at all.
pub open spec fn dot_stands_alone(k: SpecTokenKind) -> bool {
    k matches SpecTokenKind::Identifier(text) ==> text == seq!['.'] || !text.contains('.')
}

/// The characters that are whole function names by themselves.
pub open spec fn operator_char(c: char) -> bool {
    c == '.' || c == '+' || c == '-'
}

/// The tokens of `s` from the front to the end, each with the text it spans.
pub open spec fn spec_tokens(s: Seq<char>) -> Seq<(SpecTokenKind, Seq<char>)>
    decreases s.len(),
{
    match spec_next_token(s) {
        None => Seq::empty(),
        Some((k, n)) => if 0 < n <= s.len() {
            seq![(k, s.take(n as int))] + spec_tokens(s.skip(n as int))
        } else {
            Seq::empty()
        },
    }
}

/// The texts of `ts`, one after another.
pub open spec fn joined_texts(ts: Seq<(SpecTokenKind, Seq<char>)>) -> Seq<char>
    decreases ts.len(),
{
    if ts.len() == 0 {
        Seq::empty()
    } else {
        ts[0].1 + joined_texts(ts.drop_first())
    }
}

proof fn lemma_run_len_bound(s: Seq<char>, class: CharClass)
    ensures
        run_len(s, class) <= s.len(),
    decreases s.len(),
{
    if s.len() > 0 && class_holds(class, s[0]) {
        lemma_run_len_bound(s.drop_first(), class);
    }
}

proof fn lemma_string_body_bound(s: Seq<char>)
    ensures
        string_body(s).1 <= s.len(),
    decreases s.len(),
{
    if s.len() == 0 {
    } else if s[0] == '\\' && s.len() >= 2 && s[1] == '"' {
        lemma_string_body_bound(s.skip(2));
    } else if s[0] == '"' {
    } else {
        lemma_string_body_bound(s.drop_first());
    }
}

/// Law (whitespace): among the ASCII codes exactly 9 to 13 (tab, line feed,
/// vertical tab, form feed, carriage return) and 32 (space) are whitespace; of
/// the others, next line, no-break space, the line and paragraph separators and
/// the ideographic space are, and the zero-width space is not.
pub proof fn lemma_white_space_chars()
    ensures
        forall|c: char|
            (c as u32) < 0x80 ==> (#[trigger] white_space(c) <==> (9 <= (c as u32) <= 13 || (c as u32)
                == 32)),
        white_space('\t'),
        white_space('\n'),
        white_space('\u{0B}'),
        white_space('\u{0C}'),
        white_space('\r'),
        white_space(' '),
        !white_space('a'),
        !white_space('.'),
        !white_space('_'),
        !white_space('0'),
        white_space('\u{85}'),
        white_space('\u{A0}'),
        white_space('\u{2028}'),
        white_space('\u{2029}'),
        white_space('\u{3000}'),
        !white_space('\u{200B}'),
{
}

/// Law (line breaks): a text that starts with whitespace, a line break among
/// it, starts with a whitespace token that takes every whitespace character at
/// its front.
pub proof fn lemma_line_break_token(s: Seq<char>)
    requires
        s.len() > 0,
        s[0] == '\n' || s[0] == '\r' || s[0] == '\t' || s[0] == ' ',
    ensures
        spec_next_token(s) == Some(
            (SpecTokenKind::Whitespace, 1 + run_len(s.drop_first(), CharClass::Whitespace)),
        ),
{
    lemma_white_space_chars();
    assert(white_space(s[0]));
}

/// Every token spans at least one character and no more than are left.
pub proof fn lemma_next_token_progress(s: Seq<char>)
    ensures
        spec_next_token(s) matches Some((k, n)) ==> 1 <= n <= s.len(),
        spec_next_token(s) is None <==> s.len() == 0,
{
    if s.len() > 0 {
        let t = s.drop_first();
        lemma_run_len_bound(t, CharClass::Whitespace);
        lemma_run_len_bound(t, CharClass::Numeric);
        lemma_run_len_bound(t, CharClass::XidContinue);
        lemma_string_body_bound(t);
        if t.len() > 0 {
            lemma_run_len_bound(t.drop_first(), CharClass::XidContinue);
            lemma_run_len_bound(t.drop_first(), CharClass::HexDigit);
            lemma_string_body_bound(t.drop_first());
        }
    }
}

/// Law: the tokens cover their input exactly. Read one after another, the texts
/// of the tokens of `s` give back `s`, with no character skipped or read twice.
pub proof fn lemma_tokens_cover_input(s: Seq<char>)
    ensures
        joined_texts(spec_tokens(s)) == s,
    decreases s.len(),
{
    lemma_next_token_progress(s);
    match spec_next_token(s) {
        None => {
            assert(s =~= Seq::<char>::empty());
        },
        Some((k, n)) => {
            let ts = spec_tokens(s);
            lemma_tokens_cover_input(s.skip(n as int));
            assert(ts.drop_first() =~= spec_tokens(s.skip(n as int)));
            assert(s =~= s.take(n as int) + s.skip(n as int));
        },
    }
}

/// Law: the byte lengths of the tokens of `s` add up to the byte length of `s`.
pub proof fn lemma_token_lengths_sum(s: Seq<char>)
    ensures
        total_bytes(spec_tokens(s)) == byte_len(s),
    decreases s.len(),
{
    lemma_next_token_progress(s);
    match spec_next_token(s) {
        None => {
            assert(s =~= Seq::<char>::empty());
        },
        Some((k, n)) => {
            let ts = spec_tokens(s);
            lemma_token_lengths_sum(s.skip(n as int));
            assert(ts.drop_first() =~= spec_tokens(s.skip(n as int)));
            lemma_byte_len_split(s, n as int);
        },
    }
}

/// The sum of the byte lengths of the texts of `ts`.
pub open spec fn total_bytes(ts: Seq<(SpecTokenKind, Seq<char>)>) -> nat
    decreases ts.len(),
{
    if ts.len() == 0 {
        0
    } else {
        byte_len(ts[0].1) + total_bytes(ts.drop_first())
    }
}

/// A string of one character.
fn char_string(c: char) -> (s: String)
    ensures
        s@ == seq![c],
{
    let mut s = String::new();
    string_push(&mut s, c);
    assert(s@ =~= seq![c]);
    s
}

/// Reads source text into tokens.
///
/// It keeps the characters still to be read, the last character read, and the
/// byte count of the text read since the current token began.
#[derive(Clone, Debug)]
pub struct Tokenizer {
    chars: Vec<char>,
    pos: usize,
    initial_len: usize,
    remaining_len: usize,
    prev: char,
}

impl Tokenizer {
    /// The tokenizer's fields agree with one another.
    pub closed spec fn wf(&self) -> bool {
        &&& self.pos <= self.chars.len()
        &&& self.remaining_len == byte_len(self.chars@.skip(self.pos as int))
        &&& self.remaining_len <= self.initial_len
    }

    /// The characters not yet read.
    pub closed spec fn rest(&self) -> Seq<char> {
        self.chars@.skip(self.pos as int)
    }

    /// The last character read (`EOF_CHAR` before any).
    pub closed spec fn prev_char(&self) -> char {
        self.prev
    }

    /// Bytes of text read since the count was last reset.
    pub closed spec fn consumed(&self) -> int {
        self.initial_len - self.remaining_len
    }

    /// `self` is `old` after reading `n` characters from the front of its input.
    pub open spec fn advanced(self, old: Self, n: nat) -> bool {
        &&& n <= old.rest().len()
        &&& self.rest() == old.rest().skip(n as int)
        &&& self.prev_char() == (if n == 0 {
            old.prev_char()
        } else {
            old.rest()[n - 1]
        })
        &&& self.consumed() == old.consumed() + byte_len(old.rest().take(n as int))
    }

    proof fn lemma_advanced_zero(&self)
        ensures
            self.advanced(*self, 0),
    {
        assert(self.rest().skip(0) =~= self.rest());
        assert(self.rest().take(0) =~= Seq::<char>::empty());
    }

    proof fn lemma_advanced_trans(a: Self, b: Self, c: Self, n: nat, m: nat)
        requires
            b.advanced(a, n),
            c.advanced(b, m),
        ensures
            c.advanced(a, n + m),
    {
        let r = a.rest();
        assert(r.skip(n as int).skip(m as int) =~= r.skip((n + m) as int));
        assert(r.take((n + m) as int) =~= r.take(n as int) + r.skip(n as int).take(m as int));
        lemma_byte_len_concat(r.take(n as int), r.skip(n as int).take(m as int));
        if m > 0 {
            assert(r.skip(n as int)[m - 1] == r[n + m - 1]);
        }
    }

    /// A tokenizer over the text `s`.
    pub fn new(s: &str) -> (t: Self)
        ensures
            t.wf(),
            t.rest() == s@,
            t.prev_char() == EOF_CHAR,
            t.consumed() == 0,
    {
        let chars = chars_of(s);
        let bytes = s.as_bytes();
        let n = bytes.len();
        assert(chars@.skip(0) =~= chars@);
        Tokenizer { chars, pos: 0, initial_len: n, remaining_len: n, prev: EOF_CHAR }
    }

    /// The character `i` places ahead of the next one to read, or `EOF_CHAR`.
    pub fn nth(&self, i: usize) -> (c: char)
        requires
            self.wf(),
        ensures
            c == char_at(self.rest(), i as int),
    {
        if i < self.chars.len() - self.pos {
            self.chars[self.pos + i]
        } else {
            EOF_CHAR
        }
    }

    /// The next character to read, or `EOF_CHAR`.
    pub fn first(&self) -> (c: char)
        requires
            self.wf(),
        ensures
            c == char_at(self.rest(), 0),
    {
        self.nth(0)
    }

    /// The character after the next one, or `EOF_CHAR`.
    pub fn second(&self) -> (c: char)
        requires
            self.wf(),
        ensures
            c == char_at(self.rest(), 1),
    {
        self.nth(1)
    }

    /// Reads the next character, which becomes the previous one; `None` at the end.
    pub fn bump(&mut self) -> (r: Option<char>)
        requires
            old(self).wf(),
        ensures
            final(self).wf(),
            old(self).rest().len() == 0 ==> r is None && *final(self) == *old(self),
            old(self).rest().len() > 0 ==> r == Some(old(self).rest()[0])
                && final(self).advanced(*old(self), 1),
    {
        if self.pos < self.chars.len() {
            let c = self.chars[self.pos];
            let w = char_width(c);
            proof {
                let r = self.chars@.skip(self.pos as int);
                lemma_byte_len_first(r);
                assert(r.drop_first() =~= self.chars@.skip(self.pos + 1));
                assert(r.take(1) =~= seq![c]);
                lemma_byte_len_first(seq![c]);
                assert(seq![c].drop_first() =~= Seq::<char>::empty());
                assert(r.skip(1) =~= r.drop_first());
            }
            self.prev = c;
            self.pos = self.pos + 1;
            self.remaining_len = self.remaining_len - w;
            Some(c)
        } else {
            None
        }
    }

    /// Whether every character has been read.
    pub fn is_eof(&self) -> (r: bool)
        requires
            self.wf(),
        ensures
            r == (self.rest().len() == 0),
    {
        self.pos >= self.chars.len()
    }

    /// Bytes read since the count was last reset.
    pub fn len_consumed(&self) -> (n: usize)
        requires
            self.wf(),
        ensures
            n == self.consumed(),
    {
        self.initial_len - self.remaining_len
    }

    /// Restarts the byte count at the current position.
    pub fn reset_len_consumed(&mut self)
        requires
            old(self).wf(),
        ensures
            final(self).wf(),
            final(self).rest() == old(self).rest(),
            final(self).prev_char() == old(self).prev_char(),
            final(self).consumed() == 0,
    {
        self.initial_len = self.remaining_len;
    }

    /// Reads the longest run of characters of `class` and appends them to `out`.
    fn eat_while(&mut self, class: CharClass, out: &mut Vec<char>)
        requires
            old(self).wf(),
        ensures
            final(self).wf(),
            final(self).advanced(*old(self), run_len(old(self).rest(), class)),
            final(out)@ == old(out)@ + old(self).rest().take(
                run_len(old(self).rest(), class) as int,
            ),
            class is XidContinue ==> forall|j: int|
                0 <= j < run_len(old(self).rest(), class) ==> old(self).rest()[j] != '.',
    {
        let ghost start = *self;
        let ghost out0 = out@;
        proof {
            self.lemma_advanced_zero();
            assert(start.rest().take(0) =~= Seq::<char>::empty());
        }
        loop
            invariant
                self.wf(),
                start.wf(),
                self.advanced(start, (start.rest().len() - self.rest().len()) as nat),
                run_len(start.rest(), class) == (start.rest().len() - self.rest().len())
                    + run_len(self.rest(), class),
                out@ == out0 + start.rest().take(start.rest().len() - self.rest().len()),
                class is XidContinue ==> forall|j: int|
                    0 <= j < start.rest().len() - self.rest().len() ==> start.rest()[j] != '.',
            ensures
                run_len(self.rest(), class) == 0,
            decreases self.rest().len(),
        {
            let c = self.first();
            let holds = match class {
                CharClass::Whitespace => is_whitespace(c),
                CharClass::XidContinue => is_xid_continue(c),
                CharClass::Numeric => is_numeric(c),
                CharClass::HexDigit => is_hex_digit(c),
            };
            assert(holds == class_holds(class, c));
            if !holds || self.is_eof() {
                break ;
            }
            assert(class is XidContinue ==> c != '.');
            let ghost before = *self;
            let ghost k = start.rest().len() - self.rest().len();
            self.bump();
            out.push(c);
            proof {
                Self::lemma_advanced_trans(start, before, *self, k as nat, 1);
                assert(before.rest().drop_first() =~= self.rest());
                assert(start.rest().take(k + 1) =~= start.rest().take(k).push(c)) by {
                    assert(start.rest()[k] == before.rest()[0]);
                }
            }
        }
    }

    /// Reads a run of whitespace after a whitespace character.
    pub fn whitespace(&mut self) -> (k: TokenKind)
        requires
            old(self).wf(),
            white_space(old(self).prev_char()),
        ensures
            final(self).wf(),
            k@ == SpecTokenKind::Whitespace,
            final(self).advanced(*old(self), run_len(old(self).rest(), CharClass::Whitespace)),
    {
        let mut scratch: Vec<char> = Vec::new();
        self.eat_while(CharClass::Whitespace, &mut scratch);
        TokenKind::Whitespace
    }

    /// Reads the rest of an identifier whose first character was just read.
    pub fn ident(&mut self) -> (s: String)
        requires
            old(self).wf(),
            xid_start(old(self).prev_char()),
        ensures
            final(self).wf(),
            s@ == spec_ident(old(self).prev_char(), old(self).rest()).0,
            final(self).advanced(*old(self), spec_ident(old(self).prev_char(), old(self).rest()).1),
            old(self).prev_char() != '.' ==> !s@.contains('.'),
    {
        let ghost start = *self;
        let mut buf: Vec<char> = Vec::new();
        buf.push(self.prev);
        self.eat_while(CharClass::XidContinue, &mut buf);
        proof {
            if start.prev_char() != '.' {
                assert forall|i: int| 0 <= i < buf@.len() implies buf@[i] != '.' by {
                    if i > 0 {
                        assert(buf@[i] == start.rest()[i - 1]);
                    }
                }
            }
        }
        chars_to_string(&buf)
    }

    /// Reads the rest of a number whose first character was just read.
    pub fn number(&mut self) -> (k: TokenKind)
        requires
            old(self).wf(),
            numeric(old(self).prev_char()),
        ensures
            final(self).wf(),
            k@ == spec_number(old(self).prev_char(), old(self).rest()).0,
            final(self).advanced(*old(self), spec_number(old(self).prev_char(), old(self).rest()).1),
    {
        let ghost start = *self;
        let c = self.first();
        let mut buf: Vec<char> = Vec::new();
        let radix: u32;
        if self.prev == '0' && (c == 'x' || c == 'X') {
            self.bump();
            let ghost mid = *self;
            buf.push(self.prev);
            self.eat_while(CharClass::HexDigit, &mut buf);
            proof {
                Self::lemma_advanced_trans(start, mid, *self, 1, run_len(mid.rest(), CharClass::HexDigit));
                assert(mid.rest() =~= start.rest().drop_first());
            }
            radix = 16;
        } else {
            buf.push(self.prev);
            self.eat_while(CharClass::Numeric, &mut buf);
            radix = 10;
        }
        match from_str_radix(&buf, radix) {
            Some(n) => TokenKind::Numeric(n),
            None => TokenKind::Unknown(chars_to_string(&buf)),
        }
    }

    /// Reads the body of a string literal whose opening quote was just read.
    pub fn string(&mut self) -> (s: String)
        requires
            old(self).wf(),
            old(self).prev_char() == '"',
        ensures
            final(self).wf(),
            s@ == string_body(old(self).rest()).0,
            final(self).advanced(*old(self), string_body(old(self).rest()).1),
    {
        let ghost start = *self;
        let mut buf: Vec<char> = Vec::new();
        proof {
            self.lemma_advanced_zero();
        }
        loop
            invariant_except_break
                self.advanced(start, (start.rest().len() - self.rest().len()) as nat),
                string_body(start.rest()).0 == buf@ + string_body(self.rest()).0,
                string_body(start.rest()).1 == (start.rest().len() - self.rest().len())
                    + string_body(self.rest()).1,
            invariant
                self.wf(),
                start.wf(),
            ensures
                self.advanced(start, string_body(start.rest()).1),
                buf@ == string_body(start.rest()).0,
            decreases self.rest().len(),
        {
            let ghost before = *self;
            let ghost old_buf = buf@;
            let ghost k = start.rest().len() - self.rest().len();
            match self.bump() {
                None => {
                    assert(buf@ =~= buf@ + Seq::<char>::empty());
                    break ;
                },
                Some(c) => {
                    let ghost r = before.rest();
                    proof {
                        Self::lemma_advanced_trans(start, before, *self, k as nat, 1);
                        assert(r.drop_first() =~= self.rest());
                        assert(r[0] == c);
                    }
                    if c == '\\' && self.first() == '"' {
                        let ghost mid = *self;
                        buf.push(c);
                        let esc = self.bump();
                        proof {
                            assert(r[1] == '"');
                            assert(esc == Some('"'));
                            Self::lemma_advanced_trans(start, mid, *self, (k + 1) as nat, 1);
                            assert(mid.rest().drop_first() =~= self.rest());
                            assert(r.skip(2) =~= self.rest());
                        }
                        buf.push('"');
                        proof {
                            assert(buf@ =~= old_buf + seq!['\\', '"']);
                            assert(string_body(start.rest()).0 =~= buf@ + string_body(self.rest()).0);
                        }
                    } else if c == '"' {
                        proof {
                            assert(string_body(r).0 =~= Seq::<char>::empty());
                            assert(buf@ + Seq::<char>::empty() =~= buf@);
                        }
                        break ;
                    } else {
                        buf.push(c);
                        proof {
                            assert(!(r[0] == '\\' && r.len() >= 2 && r[1] == '"'));
                            assert(buf@ =~= old_buf + seq![c]);
                            assert(string_body(start.rest()).0 =~= buf@ + string_body(self.rest()).0);
                        }
                    }
                },
            }
        }
        chars_to_string(&buf)
    }

    /// Reads the next token; `None` once every character has been read.
    pub fn next(&mut self) -> (r: Option<Token>)
        requires
            old(self).wf(),
        ensures
            final(self).wf(),
            match spec_next_token(old(self).rest()) {
                None => {
                    &&& r is None
                    &&& final(self).rest() == old(self).rest()
                    &&& final(self).prev_char() == old(self).prev_char()
                    &&& final(self).consumed() == 0
                },
                Some((kind, n)) => {
                    &&& r matches Some(tok) && tok.kind@ == kind && tok.length == byte_len(
                        old(self).rest().take(n as int),
                    )
                    &&& final(self).rest() == old(self).rest().skip(n as int)
                    &&& final(self).prev_char() == old(self).rest()[n - 1]
                    &&& final(self).consumed() == byte_len(old(self).rest().take(n as int))
                },
            },
            r matches Some(tok) ==> dot_stands_alone(tok.kind@),
            old(self).rest().len() > 0 && operator_char(old(self).rest()[0]) ==> {
                &&& r matches Some(tok) && tok.kind@ == SpecTokenKind::Identifier(
                    seq![old(self).rest()[0]],
                )
                &&& final(self).rest() == old(self).rest().drop_first()
            },
    {
        self.reset_len_consumed();
        let ghost start = *self;
        let c = match self.bump() {
            Some(c) => c,
            None => {
                return None;
            },
        };
        let ghost after_c = *self;
        let kind = if is_whitespace(c) {
            let k = self.whitespace();
            proof {
                Self::lemma_advanced_trans(start, after_c, *self, 1, run_len(after_c.rest(), CharClass::Whitespace));
            }
            k
        } else if c == '@' {
            let f = self.first();
            if is_xid_start(f) {
                self.bump();
                let ghost mid = *self;
                let s = self.ident();
                proof {
                    Self::lemma_advanced_trans(after_c, mid, *self, 1, spec_ident(mid.prev_char(), mid.rest()).1);
                    Self::lemma_advanced_trans(start, after_c, *self, 1, 1 + spec_ident(mid.prev_char(), mid.rest()).1);
                    assert(mid.rest() =~= after_c.rest().drop_first());
                }
                TokenKind::Symbol(s)
            } else if f == '"' {
                self.bump();
                let ghost mid = *self;
                let s = self.string();
                proof {
                    Self::lemma_advanced_trans(after_c, mid, *self, 1, string_body(mid.rest()).1);
                    Self::lemma_advanced_trans(start, after_c, *self, 1, 1 + string_body(mid.rest()).1);
                    assert(mid.rest() =~= after_c.rest().drop_first());
                }
                TokenKind::Symbol(s)
            } else {
                assert(!seq!['@'].contains('.')) by {
                    assert(seq!['@'][0] != '.');
                }
                TokenKind::Identifier(char_string('@'))
            }
        } else if is_numeric(c) {
            let k = self.number();
            proof {
                Self::lemma_advanced_trans(start, after_c, *self, 1, spec_number(c, after_c.rest()).1);
            }
            k
        } else if is_xid_start(c) {
            let s = self.ident();
            proof {
                Self::lemma_advanced_trans(start, after_c, *self, 1, spec_ident(c, after_c.rest()).1);
            }
            TokenKind::Identifier(s)
        } else if c == '"' {
            let s = self.string();
            proof {
                Self::lemma_advanced_trans(start, after_c, *self, 1, string_body(after_c.rest()).1);
            }
            TokenKind::String(s)
        } else if c == ':' {
            TokenKind::Colon
        } else if c == '=' {
            TokenKind::Equals
        } else if c == ';' {
            TokenKind::Semicolon
        } else if c == '+' {
            assert(!seq!['+'].contains('.')) by {
                assert(seq!['+'][0] != '.');
            }
            TokenKind::Identifier(char_string('+'))
        } else if c == '-' {
            assert(!seq!['-'].contains('.')) by {
                assert(seq!['-'][0] != '.');
            }
            TokenKind::Identifier(char_string('-'))
        } else if c == '.' {
            TokenKind::Identifier(char_string('.'))
        } else if c == '(' {
            TokenKind::OpenParen
        } else if c == ')' {
            TokenKind::CloseParen
        } else if c == '[' {
            TokenKind::OpenBracket
        } else if c == ']' {
            TokenKind::CloseBracket
        } else if c == ',' {
            TokenKind::Comma
        } else {
            TokenKind::Unknown(char_string(c))
        };
        proof {
            assert(start.rest().drop_first() =~= after_c.rest());
        }
        let length = self.len_consumed();
        Some(Token { kind, length })
    }

    /// Reads every remaining token, in order.
    pub fn collect_tokens(&mut self) -> (r: Vec<Token>)
        requires
            old(self).wf(),
        ensures
            final(self).wf(),
            final(self).rest().len() == 0,
            r@.len() == spec_tokens(old(self).rest()).len(),
            forall|i: int|
                0 <= i < r@.len() ==> {
                    &&& (#[trigger] r@[i]).kind@ == spec_tokens(old(self).rest())[i].0
                    &&& r@[i].length == byte_len(spec_tokens(old(self).rest())[i].1)
                    &&& dot_stands_alone(r@[i].kind@)
                },
    {
        let ghost all = spec_tokens(self.rest());
        let mut out: Vec<Token> = Vec::new();
        loop
            invariant
                self.wf(),
                out@.len() <= all.len(),
                all.skip(out@.len() as int) == spec_tokens(self.rest()),
                forall|i: int|
                    0 <= i < out@.len() ==> {
                        &&& (#[trigger] out@[i]).kind@ == all[i].0
                        &&& out@[i].length == byte_len(all[i].1)
                        &&& dot_stands_alone(out@[i].kind@)
                    },
            ensures
                self.rest().len() == 0,
                out@.len() == all.len(),
            decreases self.rest().len(),
        {
            let ghost before = self.rest();
            proof {
                lemma_next_token_progress(before);
            }
            match self.next() {
                None => {
                    assert(spec_tokens(before) =~= Seq::<(SpecTokenKind, Seq<char>)>::empty());
                    break ;
                },
                Some(tok) => {
                    proof {
                        let n = spec_next_token(before).unwrap().1;
                        assert(spec_tokens(before)[0] == (tok.kind@, before.take(n as int)));
                        assert(spec_tokens(before).drop_first() =~= spec_tokens(self.rest()));
                        assert(all.skip(out@.len() as int + 1) =~= all.skip(out@.len() as int).drop_first());
                    }
                    out.push(tok);
                },
            }
        }
        proof {
            assert(all.skip(0) =~= all);
        }
        out
    }
}

} // verus!
