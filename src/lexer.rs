//! The tokenizer: the token that starts at a position of a line, as a spec
//! function, and a lexer that hands tokens out one at a time.
use vstd::prelude::*;

use crate::token::Token;

verus! {

/// Unicode `White_Space`, the set that `char::is_whitespace` tests.
pub open spec fn is_space(c: char) -> bool {
    let u = c as u32;
    (0x9 <= u && u <= 0xd) || u == 0x20 || u == 0x85 || u == 0xa0 || u == 0x1680 || (0x2000 <= u
        && u <= 0x200a) || u == 0x2028 || u == 0x2029 || u == 0x202f || u == 0x205f || u == 0x3000
}

pub open spec fn is_digit(c: char) -> bool {
    '0' as u32 <= c as u32 && c as u32 <= '9' as u32
}

pub open spec fn digit_value(c: char) -> int {
    c as u32 - '0' as u32
}

/// The number of whitespace characters in the run that starts at `i`.
pub open spec fn spaces(s: Seq<char>, i: int) -> nat
    decreases s.len() - i,
{
    if 0 <= i < s.len() && is_space(s[i]) {
        1 + spaces(s, i + 1)
    } else {
        0
    }
}

/// The number of decimal digits in the run that starts at `i`.
pub open spec fn digits(s: Seq<char>, i: int) -> nat
    decreases s.len() - i,
{
    if 0 <= i < s.len() && is_digit(s[i]) {
        1 + digits(s, i + 1)
    } else {
        0
    }
}

/// The base-10 value of a sequence of digits.
pub open spec fn decimal_value(d: Seq<char>) -> int
    decreases d.len(),
{
    if d.len() == 0 {
        0
    } else {
        decimal_value(d.drop_last()) * 10 + digit_value(d.last())
    }
}

/// The token that starts at or after position `i` of `s` (past any whitespace),
/// and the position just after it.
pub open spec fn scan(s: Seq<char>, i: int) -> (Token, int) {
    let j = i + spaces(s, i);
    if j < 0 || j >= s.len() {
        (Token::EndOfFile, j)
    } else {
        let c = s[j];
        if c == '+' {
            (Token::Add, j + 1)
        } else if c == '-' {
            (Token::Sub, j + 1)
        } else if c == '*' {
            (Token::Mul, j + 1)
        } else if c == '/' {
            (Token::Div, j + 1)
        } else if c == '(' {
            (Token::LParen, j + 1)
        } else if c == ')' {
            (Token::RParen, j + 1)
        } else if is_digit(c) {
            let k = j + 1 + digits(s, j + 1);
            let v = decimal_value(s.subrange(j, k));
            if v <= i64::MAX {
                (Token::Integer(v as i64), k)
            } else {
                (Token::Overflow, k)
            }
        } else {
            (Token::Illegal, j + 1)
        }
    }
}

pub proof fn lemma_spaces_bound(s: Seq<char>, i: int)
    requires
        0 <= i <= s.len(),
    ensures
        i + spaces(s, i) <= s.len(),
    decreases s.len() - i,
{
    if i < s.len() {
        lemma_spaces_bound(s, i + 1);
    }
}

pub proof fn lemma_digits_bound(s: Seq<char>, i: int)
    requires
        0 <= i <= s.len(),
    ensures
        i + digits(s, i) <= s.len(),
    decreases s.len() - i,
{
    if i < s.len() {
        lemma_digits_bound(s, i + 1);
    }
}

/// A token never ends before it starts nor past the input, and only the end of
/// the input leaves the position where it is.
pub proof fn lemma_scan_bounds(s: Seq<char>, i: int)
    requires
        0 <= i <= s.len(),
    ensures
        i <= scan(s, i).1 <= s.len(),
        scan(s, i).0 != Token::EndOfFile ==> i < scan(s, i).1,
        scan(s, i).0 == Token::EndOfFile ==> scan(s, i).1 == s.len(),
{
    lemma_spaces_bound(s, i);
    let j = i + spaces(s, i);
    if j < s.len() {
        lemma_digits_bound(s, j + 1);
    }
}

/// A run of whitespace or of digits from `a` to `b` that stops at `b` has the
/// length that `spaces` or `digits` gives.
pub proof fn lemma_run_length(s: Seq<char>, a: int, b: int, digit_run: bool)
    requires
        0 <= a <= b <= s.len(),
        forall|k: int|
            a <= k < b ==> (if digit_run {
                is_digit(#[trigger] s[k])
            } else {
                is_space(s[k])
            }),
        b == s.len() || !(if digit_run {
            is_digit(s[b])
        } else {
            is_space(s[b])
        }),
    ensures
        digit_run ==> a + digits(s, a) == b,
        !digit_run ==> a + spaces(s, a) == b,
    decreases b - a,
{
    if a < b {
        lemma_run_length(s, a + 1, b, digit_run);
    }
}

pub proof fn lemma_decimal_value_nonneg(d: Seq<char>)
    requires
        forall|k: int| 0 <= k < d.len() ==> is_digit(#[trigger] d[k]),
    ensures
        decimal_value(d) >= 0,
    decreases d.len(),
{
    if d.len() > 0 {
        lemma_decimal_value_nonneg(d.drop_last());
    }
}

/// Splits a line of text into tokens, one at a time.
pub struct Lexer {
    input: Vec<char>,
    pos: usize,
}

impl View for Lexer {
    type V = (Seq<char>, int);

    /// The characters of the line, and the position of the next character to read.
    closed spec fn view(&self) -> (Seq<char>, int) {
        (self.input@, self.pos as int)
    }
}

impl Lexer {
    pub open spec fn wf(&self) -> bool {
        0 <= self@.1 <= self@.0.len()
    }

    pub fn new(line: &str) -> (l: Lexer)
        ensures
            l.wf(),
            l@.0 == line@,
            l@.1 == 0,
    {
        let n = line.unicode_len();
        let mut input: Vec<char> = Vec::new();
        let mut i: usize = 0;
        while i < n
            invariant
                n == line@.len(),
                i <= n,
                input@ == line@.subrange(0, i as int),
            decreases n - i,
        {
            input.push(line.get_char(i));
            i = i + 1;
            assert(input@ =~= line@.subrange(0, i as int));
        }
        assert(input@ =~= line@);
        Lexer { input, pos: 0 }
    }

    fn read_char(&mut self) -> (c: Option<char>)
        requires
            old(self).wf(),
        ensures
            final(self).wf(),
            final(self)@.0 == old(self)@.0,
            old(self)@.1 < old(self)@.0.len() ==> c == Some(old(self)@.0[old(self)@.1])
                && final(self)@.1 == old(self)@.1 + 1,
            old(self)@.1 >= old(self)@.0.len() ==> c is None && final(self)@ == old(self)@,
    {
        if self.pos < self.input.len() {
            let c = self.input[self.pos];
            self.pos = self.pos + 1;
            Some(c)
        } else {
            None
        }
    }

    fn peek_char(&self) -> (c: Option<char>)
        requires
            self.wf(),
        ensures
            self@.1 < self@.0.len() ==> c == Some(self@.0[self@.1]),
            self@.1 >= self@.0.len() ==> c is None,
    {
        if self.pos < self.input.len() {
            Some(self.input[self.pos])
        } else {
            None
        }
    }

    fn skip_whitespace(&mut self)
        requires
            old(self).wf(),
        ensures
            final(self).wf(),
            final(self)@.0 == old(self)@.0,
            final(self)@.1 == old(self)@.1 + spaces(old(self)@.0, old(self)@.1),
    {
        let ghost start = self@.1;
        while self.pos < self.input.len() && is_whitespace(self.input[self.pos])
            invariant
                self.wf(),
                self@.0 == old(self)@.0,
                start == old(self)@.1,
                start <= self@.1,
                forall|k: int| start <= k < self@.1 ==> is_space(#[trigger] self@.0[k]),
            decreases self.input.len() - self.pos,
        {
            self.pos = self.pos + 1;
        }
        proof {
            lemma_run_length(self@.0, start, self@.1, false);
        }
    }

    /// Reads the rest of a run of digits whose first digit, `first`, was just
    /// read; `None` when its value exceeds `i64::MAX`.
    fn read_number(&mut self, first: char) -> (r: Option<i64>)
        requires
            old(self).wf(),
            0 < old(self)@.1,
            first == old(self)@.0[old(self)@.1 - 1],
            is_digit(first),
        ensures
            final(self).wf(),
            final(self)@.0 == old(self)@.0,
            final(self)@.1 == old(self)@.1 + digits(old(self)@.0, old(self)@.1),
            ({
                let v = decimal_value(old(self)@.0.subrange(old(self)@.1 - 1, final(self)@.1));
                if v <= i64::MAX {
                    r == Some(v as i64)
                } else {
                    r is None
                }
            }),
    {
        let ghost s = self@.0;
        let ghost j = self@.1 - 1;
        let mut value: Option<i64> = Some(digit_of(first));
        proof {
            let d = s.subrange(j, j + 1);
            assert(d.drop_last() =~= Seq::<char>::empty());
            assert(decimal_value(d) == decimal_value(d.drop_last()) * 10 + digit_value(d.last()));
        }
        while self.pos < self.input.len() && is_decimal_digit(self.input[self.pos])
            invariant
                self.wf(),
                self@.0 == s,
                0 <= j < self@.1,
                forall|k: int| j <= k < self@.1 ==> is_digit(#[trigger] s[k]),
                value matches Some(v) ==> v == decimal_value(s.subrange(j, self@.1)),
                value is None ==> decimal_value(s.subrange(j, self@.1)) > i64::MAX,
            decreases self.input.len() - self.pos,
        {
            let c = self.input[self.pos];
            let ghost before = s.subrange(j, self@.1);
            self.pos = self.pos + 1;
            let ghost after = s.subrange(j, self@.1);
            assert(after.drop_last() =~= before);
            proof {
                lemma_decimal_value_nonneg(before);
            }
            value = match value {
                Some(v) => match v.checked_mul(10) {
                    Some(w) => w.checked_add(digit_of(c)),
                    None => None,
                },
                None => None,
            };
        }
        proof {
            lemma_run_length(s, j + 1, self@.1, true);
        }
        value
    }

    /// The next token and whether one was left: `None` at the end of the input.
    fn next(&mut self) -> (r: Option<Token>)
        requires
            old(self).wf(),
        ensures
            final(self).wf(),
            final(self)@.0 == old(self)@.0,
            final(self)@.1 == scan(old(self)@.0, old(self)@.1).1,
            r matches Some(t) ==> t == scan(old(self)@.0, old(self)@.1).0 && t != Token::EndOfFile,
            r is None ==> scan(old(self)@.0, old(self)@.1).0 == Token::EndOfFile,
    {
        self.skip_whitespace();
        match self.read_char() {
            Some(c) => {
                if c == '+' {
                    Some(Token::Add)
                } else if c == '-' {
                    Some(Token::Sub)
                } else if c == '*' {
                    Some(Token::Mul)
                } else if c == '/' {
                    Some(Token::Div)
                } else if c == '(' {
                    Some(Token::LParen)
                } else if c == ')' {
                    Some(Token::RParen)
                } else if is_decimal_digit(c) {
                    match self.read_number(c) {
                        Some(v) => Some(Token::Integer(v)),
                        None => Some(Token::Overflow),
                    }
                } else {
                    Some(Token::Illegal)
                }
            },
            None => None,
        }
    }

    /// The next token; `EndOfFile` at the end of the input, and on every call after it.
    pub fn next_token(&mut self) -> (t: Token)
        requires
            old(self).wf(),
        ensures
            final(self).wf(),
            final(self)@.0 == old(self)@.0,
            (t, final(self)@.1) == scan(old(self)@.0, old(self)@.1),
    {
        match self.next() {
            Some(token) => token,
            None => Token::EndOfFile,
        }
    }
}

fn is_whitespace(c: char) -> (r: bool)
    ensures
        r == is_space(c),
{
    let u = c as u32;
    (0x9 <= u && u <= 0xd) || u == 0x20 || u == 0x85 || u == 0xa0 || u == 0x1680 || (0x2000 <= u
        && u <= 0x200a) || u == 0x2028 || u == 0x2029 || u == 0x202f || u == 0x205f || u == 0x3000
}

fn is_decimal_digit(c: char) -> (r: bool)
    ensures
        r == is_digit(c),
{
    '0' as u32 <= c as u32 && c as u32 <= '9' as u32
}

fn digit_of(c: char) -> (d: i64)
    requires
        is_digit(c),
    ensures
        d == digit_value(c),
{
    (c as u32 - '0' as u32) as i64
}

} // verus!
