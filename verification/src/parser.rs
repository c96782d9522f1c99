//! The reader: a recursive-descent s-expression parser over a byte buffer.
//!
//! Like the evaluator, the grammar is written down twice: spec functions
//! (`spec_read` and the token scanners) define exactly which value each input
//! denotes and where each token ends, and the executable parser's contracts
//! say it computes that function, interning and allocating in the heap as the
//! specification prescribes. Binary64 literals are converted by the host;
//! everything else is decided here.

use vstd::prelude::*;

use crate::float::FloatHost;
use crate::heap::{all_valid, alloc_list_spec, intern_spec, valid_value, Heap, ObjModel};
use crate::interp::Interp;
use crate::numbers::kind_res;
use crate::types::{ErrKind, Number, SchemeError, Value};

verus! {

/// ASCII whitespace.
pub open spec fn is_ws(b: u8) -> bool {
    b == 32 || b == 9 || b == 10 || b == 12 || b == 13
}

/// ASCII decimal digit.
pub open spec fn is_digit(b: u8) -> bool {
    48 <= b <= 57
}

/// ASCII letter.
pub open spec fn is_alpha(b: u8) -> bool {
    (65 <= b <= 90) || (97 <= b <= 122)
}

/// A byte that may start a symbol.
pub open spec fn is_symbol_lead(b: u8) -> bool {
    is_alpha(b) || b == 43 || b == 45 || b == 42 || b == 47 || b == 62 || b == 60 || b == 61
        || b == 37 || b == 33 || b == 63
}

/// A byte that may continue a symbol.
pub open spec fn is_symbol_rest(b: u8) -> bool {
    is_alpha(b) || is_digit(b) || b == 33 || b == 36 || b == 37 || b == 38 || b == 42 || b == 47
        || b == 58 || b == 60 || b == 61 || b == 62 || b == 63 || b == 94 || b == 95 || b == 126
        || b == 43 || b == 45
}

/// The value of an ASCII digit or letter in the given radix.
pub open spec fn digit_val(b: u8, radix: u8) -> Option<u8> {
    let v: u8 = if is_digit(b) {
        (b - 48) as u8
    } else if 97 <= b <= 122 {
        (b - 87) as u8
    } else if 65 <= b <= 90 {
        (b - 55) as u8
    } else {
        255u8
    };
    if v < radix {
        Some(v)
    } else {
        None
    }
}

/// The cursor after whitespace and `;`-to-end-of-line comments.
pub open spec fn skip_ws_spec(s: Seq<u8>, i: int, in_comment: bool) -> int
    decreases s.len() - i,
{
    if i < 0 || i >= s.len() {
        i
    } else if in_comment {
        skip_ws_spec(s, i + 1, s[i] != 10)
    } else if is_ws(s[i]) {
        skip_ws_spec(s, i + 1, false)
    } else if s[i] == 59 {
        skip_ws_spec(s, i + 1, true)
    } else {
        i
    }
}

/// The bytes of a number token from `i` and the cursor after it.
pub open spec fn scan_digits(s: Seq<u8>, i: int, t: Seq<u8>, has_dot: bool, has_exp: bool) -> (
    int,
    Seq<u8>,
)
    decreases s.len() - i,
{
    if i < 0 || i >= s.len() {
        (i, t)
    } else {
        let b = s[i];
        if is_digit(b) {
            scan_digits(s, i + 1, t.push(b), has_dot, has_exp)
        } else if b == 46 && !has_dot && !has_exp {
            scan_digits(s, i + 1, t.push(b), true, has_exp)
        } else if (b == 101 || b == 69) && !has_exp {
            if i + 1 < s.len() && (s[i + 1] == 43 || s[i + 1] == 45) {
                scan_digits(s, i + 2, t.push(b).push(s[i + 1]), has_dot, true)
            } else {
                scan_digits(s, i + 1, t.push(b), has_dot, true)
            }
        } else {
            (i, t)
        }
    }
}

/// Whether the token scanned from `i` contains a dot or an exponent (and so
/// denotes a float).
pub open spec fn scan_is_float(s: Seq<u8>, i: int, has_dot: bool, has_exp: bool) -> bool
    decreases s.len() - i,
{
    if i < 0 || i >= s.len() {
        has_dot || has_exp
    } else {
        let b = s[i];
        if is_digit(b) {
            scan_is_float(s, i + 1, has_dot, has_exp)
        } else if b == 46 && !has_dot && !has_exp {
            scan_is_float(s, i + 1, true, has_exp)
        } else if (b == 101 || b == 69) && !has_exp {
            if i + 1 < s.len() && (s[i + 1] == 43 || s[i + 1] == 45) {
                scan_is_float(s, i + 2, has_dot, true)
            } else {
                scan_is_float(s, i + 1, has_dot, true)
            }
        } else {
            has_dot || has_exp
        }
    }
}

/// The integer denoted by digit bytes under `radix`, accumulated from `acc`,
/// or `None` at the first non-digit.
pub open spec fn digits_int(t: Seq<u8>, i: int, acc: int, radix: u8) -> Option<int>
    decreases t.len() - i,
{
    if i < 0 || i >= t.len() {
        Some(acc)
    } else {
        match digit_val(t[i], radix) {
            Some(d) => digits_int(t, i + 1, acc * radix + d, radix),
            None => None,
        }
    }
}

/// The signed 64-bit integer a decimal token denotes, or `None` when the
/// token is empty, malformed, or out of range.
pub open spec fn parse_i64_spec(t: Seq<u8>) -> Option<i64> {
    let (neg, d) = if t.len() > 0 && t[0] == 45 {
        (true, t.skip(1))
    } else if t.len() > 0 && t[0] == 43 {
        (false, t.skip(1))
    } else {
        (false, t)
    };
    if d.len() == 0 {
        None
    } else {
        match digits_int(d, 0, 0, 10) {
            Some(m) => {
                let v = if neg {
                    -m
                } else {
                    m
                };
                if i64::MIN <= v <= i64::MAX {
                    Some(v as i64)
                } else {
                    None
                }
            },
            None => None,
        }
    }
}

/// The bytes of a token as the characters the reader stores.
pub open spec fn chars_of(t: Seq<u8>) -> Seq<char> {
    t.map_values(|b: u8| b as char)
}

/// The number a token starting at `i` (with an optional sign already seen)
/// denotes: end of token, and the value or a syntax error.
pub open spec fn spec_parse_number<F: FloatHost>(s: Seq<u8>, i: int, sign: Option<u8>) -> (
    int,
    Result<Value, ErrKind>,
) {
    let t0: Seq<u8> = match sign {
        Some(b) => seq![b],
        None => Seq::empty(),
    };
    let (i1, t1) = if 0 <= i < s.len() && (s[i] == 45 || s[i] == 43) {
        (i + 1, t0.push(s[i]))
    } else {
        (i, t0)
    };
    let (end, t) = scan_digits(s, i1, t1, false, false);
    let fl = scan_is_float(s, i1, false, false);
    if fl {
        match F::parse_spec(chars_of(t)) {
            Some(bits) => (end, Ok(Value::Number(Number::Float(bits)))),
            None => (end, Err(ErrKind::Syntax)),
        }
    } else {
        match parse_i64_spec(t) {
            Some(x) => (end, Ok(Value::Number(Number::Int(x)))),
            None => (end, Err(ErrKind::Syntax)),
        }
    }
}

/// The bytes of a radix token from `i` and the cursor after it.
pub open spec fn scan_radix(s: Seq<u8>, i: int, t: Seq<u8>, radix: u8) -> (int, Seq<u8>)
    decreases s.len() - i,
{
    if i < 0 || i >= s.len() {
        (i, t)
    } else {
        match digit_val(s[i], radix) {
            Some(_d) => scan_radix(s, i + 1, t.push(s[i]), radix),
            None => (i, t),
        }
    }
}

/// The integer a radix token denotes, or `None` when empty or out of range.
pub open spec fn parse_radix_spec(t: Seq<u8>, radix: u8) -> Option<i64> {
    if t.len() == 0 {
        None
    } else {
        match digits_int(t, 0, 0, radix) {
            Some(m) => if m <= i64::MAX {
                Some(m as i64)
            } else {
                None
            },
            None => None,
        }
    }
}

/// The bytes of an alphabetic token from `i` and the cursor after it.
pub open spec fn scan_alpha(s: Seq<u8>, i: int, t: Seq<u8>) -> (int, Seq<u8>)
    decreases s.len() - i,
{
    if i < 0 || i >= s.len() {
        (i, t)
    } else if is_alpha(s[i]) {
        scan_alpha(s, i + 1, t.push(s[i]))
    } else {
        (i, t)
    }
}

/// ASCII lowercasing of a token.
pub open spec fn lower_bytes(t: Seq<u8>) -> Seq<u8> {
    t.map_values(|b: u8| if 65 <= b <= 90 { (b + 32) as u8 } else { b })
}

/// The character a `#\` token denotes: a single character stands for itself,
/// and the named forms for their control characters.
pub open spec fn char_name_val(t: Seq<u8>) -> Option<u8> {
    if t.len() == 1 {
        Some(t[0])
    } else {
        let l = lower_bytes(t);
        if l =~= seq![115u8, 112u8, 97u8, 99u8, 101u8] {
            Some(32)
        } else if l =~= seq![98u8, 97u8, 99u8, 107u8, 115u8, 112u8, 97u8, 99u8, 101u8] {
            Some(8)
        } else if l =~= seq![116u8, 97u8, 98u8] {
            Some(9)
        } else if l =~= seq![110u8, 101u8, 119u8, 108u8, 105u8, 110u8, 101u8] {
            Some(10)
        } else if l =~= seq![114u8, 101u8, 116u8, 117u8, 114u8, 110u8] {
            Some(13)
        } else {
            None
        }
    }
}

/// What a `#` form starting after the `#` at `i` denotes.
pub open spec fn spec_parse_hash(s: Seq<u8>, i: int) -> (int, Result<Value, ErrKind>) {
    if i < 0 || i >= s.len() {
        (i, Err(ErrKind::Syntax))
    } else {
        let b = s[i];
        if b == 116 || b == 84 {
            (i + 1, Ok(Value::Boolean(true)))
        } else if b == 102 || b == 70 {
            (i + 1, Ok(Value::Boolean(false)))
        } else if b == 98 || b == 111 || b == 100 || b == 120 {
            let radix: u8 = if b == 98 {
                2
            } else if b == 111 {
                8
            } else if b == 100 {
                10
            } else {
                16
            };
            let (end, t) = scan_radix(s, i + 1, Seq::empty(), radix);
            match parse_radix_spec(t, radix) {
                Some(x) => (end, Ok(Value::Number(Number::Int(x)))),
                None => (end, Err(ErrKind::Syntax)),
            }
        } else if b == 92 {
            let (end, t) = scan_alpha(s, i + 1, Seq::empty());
            match char_name_val(t) {
                Some(c) => (end, Ok(Value::Char(c))),
                None => (end, Err(ErrKind::Syntax)),
            }
        } else {
            (i + 1, Err(ErrKind::Syntax))
        }
    }
}

/// The content of a string literal being scanned from `i` (after the opening
/// quote): the characters, and the cursor after the closing quote; `None`
/// when the input ends first. `\` escapes the next byte verbatim.
pub open spec fn string_scan(s: Seq<u8>, i: int, acc: Seq<char>) -> Option<(Seq<char>, int)>
    decreases s.len() - i,
{
    if i < 0 || i >= s.len() {
        None
    } else if s[i] == 34 {
        Some((acc, i + 1))
    } else if s[i] == 92 {
        if i + 1 < s.len() {
            string_scan(s, i + 2, acc.push(s[i + 1] as char))
        } else {
            None
        }
    } else {
        string_scan(s, i + 1, acc.push(s[i] as char))
    }
}

/// The bytes of a symbol token from `i` and the cursor after it.
pub open spec fn symbol_scan(s: Seq<u8>, i: int, t: Seq<u8>) -> (int, Seq<u8>)
    decreases s.len() - i,
{
    if i < 0 || i >= s.len() {
        (i, t)
    } else if is_symbol_rest(s[i]) {
        symbol_scan(s, i + 1, t.push(s[i]))
    } else {
        (i, t)
    }
}

/// Clamps the result of a scan so that the cursor never moves backwards.
pub open spec fn clamp(j: int, i: int) -> int {
    if j < i {
        i
    } else {
        j
    }
}

/// What reading one expression from `i` does: the heap after interning and
/// allocation, the cursor after the expression, and the value read (or a
/// syntax error). End of input at top level yields `Nil`.
pub open spec fn spec_read<F: FloatHost>(h: Seq<ObjModel>, s: Seq<u8>, i: int) -> (
    Seq<ObjModel>,
    int,
    Result<Value, ErrKind>,
)
    decreases s.len() - i, 0int,
{
    let j = clamp(skip_ws_spec(s, i, false), i);
    if j >= s.len() {
        (h, j, Ok(Value::Nil))
    } else {
        let b = s[j];
        if b == 40 {
            spec_parse_items::<F>(h, s, j + 1, Seq::empty())
        } else if b == 43 || b == 45 {
            if j + 1 < s.len() && is_digit(s[j + 1]) {
                let (end, r) = spec_parse_number::<F>(s, j + 1, Some(b));
                (h, end, r)
            } else {
                let (end, t) = symbol_scan(s, j + 1, seq![b]);
                let (h2, sid) = intern_spec(h, chars_of(t));
                (h2, end, Ok(Value::Object(sid)))
            }
        } else if is_digit(b) {
            let (end, r) = spec_parse_number::<F>(s, j, None);
            (h, end, r)
        } else if is_symbol_lead(b) {
            let (end, t) = symbol_scan(s, j, Seq::empty());
            let (h2, sid) = intern_spec(h, chars_of(t));
            (h2, end, Ok(Value::Object(sid)))
        } else if b == 35 {
            let (end, r) = spec_parse_hash(s, j + 1);
            (h, end, r)
        } else if b == 34 {
            match string_scan(s, j + 1, Seq::empty()) {
                Some((content, end)) => (
                    h.push(ObjModel::Str(content)),
                    end,
                    Ok(Value::Object(h.len() as usize)),
                ),
                None => (h, s.len() as int, Err(ErrKind::Syntax)),
            }
        } else if b == 39 {
            let (h1, j1, r) = spec_read::<F>(h, s, j + 1);
            match r {
                Ok(quoted) => {
                    let (h2, v) = alloc_list_spec(
                        h1,
                        seq![Value::Object(crate::heap::QUOTE_ID), quoted],
                    );
                    (h2, j1, Ok(v))
                },
                Err(k) => (h1, j1, Err(k)),
            }
        } else {
            (h, j + 1, Err(ErrKind::Syntax))
        }
    }
}

/// Reads expressions until the closing parenthesis, then allocates the list.
/// A missing closing parenthesis is a syntax error.
pub open spec fn spec_parse_items<F: FloatHost>(
    h: Seq<ObjModel>,
    s: Seq<u8>,
    i: int,
    items: Seq<Value>,
) -> (Seq<ObjModel>, int, Result<Value, ErrKind>)
    decreases s.len() - i, 1int,
{
    let j = clamp(skip_ws_spec(s, i, false), i);
    if j >= s.len() {
        (h, j, Err(ErrKind::Syntax))
    } else if s[j] == 41 {
        let (h2, v) = alloc_list_spec(h, items);
        (h2, j + 1, Ok(v))
    } else {
        let (h1, j1, r) = spec_read::<F>(h, s, j);
        match r {
            Ok(v) => if j1 > i && j1 <= s.len() {
                spec_parse_items::<F>(h1, s, j1, items.push(v))
            } else {
                (h1, j1, Err(ErrKind::Syntax))
            },
            Err(k) => (h1, j1, Err(k)),
        }
    }
}


/// Scanning digits never moves the cursor backwards, and stays in bounds.
pub proof fn lemma_scan_digits_ge(s: Seq<u8>, i: int, t: Seq<u8>, has_dot: bool, has_exp: bool)
    requires
        0 <= i <= s.len(),
    ensures
        ({
            let (end, _t2) = scan_digits(s, i, t, has_dot, has_exp);
            i <= end <= s.len()
        }),
    decreases s.len() - i,
{
    if i < s.len() {
        let b = s[i];
        if is_digit(b) {
            lemma_scan_digits_ge(s, i + 1, t.push(b), has_dot, has_exp);
        } else if b == 46 && !has_dot && !has_exp {
            lemma_scan_digits_ge(s, i + 1, t.push(b), true, has_exp);
        } else if (b == 101 || b == 69) && !has_exp {
            if i + 1 < s.len() && (s[i + 1] == 43 || s[i + 1] == 45) {
                lemma_scan_digits_ge(s, i + 2, t.push(b).push(s[i + 1]), has_dot, true);
            } else {
                lemma_scan_digits_ge(s, i + 1, t.push(b), has_dot, true);
            }
        }
    }
}

/// An accumulated digit value only grows.
pub proof fn lemma_digits_int_ge(t: Seq<u8>, i: int, acc: int, radix: u8)
    requires
        acc >= 0,
        radix >= 2,
    ensures
        match digits_int(t, i, acc, radix) {
            Some(m) => m >= acc,
            None => true,
        },
    decreases t.len() - i,
{
    if 0 <= i < t.len() {
        match digit_val(t[i], radix) {
            Some(d) => {
                assert(acc * radix >= acc) by (nonlinear_arith)
                    requires
                        acc >= 0,
                        radix >= 2,
                ;
                lemma_digits_int_ge(t, i + 1, acc * radix + d, radix);
            },
            None => {},
        }
    }
}

/// The whitespace skipper stops inside the input only on a byte that starts
/// a token.
pub proof fn lemma_skip_ws_props(s: Seq<u8>, i: int, in_comment: bool)
    requires
        0 <= i <= s.len(),
    ensures
        ({
            let r = skip_ws_spec(s, i, in_comment);
            &&& i <= r <= s.len()
            &&& (r < s.len() ==> !is_ws(s[r]) && s[r] != 59)
            &&& (r < s.len() ==> skip_ws_spec(s, r, false) == r)
        }),
    decreases s.len() - i,
{
    if i < s.len() {
        if in_comment {
            lemma_skip_ws_props(s, i + 1, s[i] != 10);
        } else if is_ws(s[i]) || s[i] == 59 {
            lemma_skip_ws_props(s, i + 1, s[i] == 59);
        }
    }
}

/// The reader over a byte buffer.
pub struct Parser {
    input: Vec<u8>,
    pos: usize,
}

impl Parser {
    /// The input bytes.
    pub closed spec fn s(&self) -> Seq<u8> {
        self.input@
    }

    /// The cursor, as a mathematical index.
    pub closed spec fn at(&self) -> int {
        self.pos as int
    }

    /// The cursor never passes the end of the input.
    pub open spec fn ok(&self) -> bool {
        self.at() <= self.s().len()
    }



    /// A parser at the start of the given bytes.
    pub fn new(input: &[u8]) -> (p: Parser)
        ensures
            p.s() == input@,
            p.at() == 0,
            p.ok(),
    {
        Parser { input: vstd::slice::slice_to_vec(input), pos: 0 }
    }

    /// The byte under the cursor, without consuming it.
    pub fn peek(&self) -> (r: Option<u8>)
        requires
            self.ok(),
        ensures
            match r {
                Some(b) => self.at() < self.s().len() && b == self.s()[self.at()],
                None => self.at() == self.s().len(),
            },
    {
        if self.pos < self.input.len() {
            Some(self.input[self.pos])
        } else {
            None
        }
    }

    /// Consumes and returns the byte under the cursor.
    pub fn next(&mut self) -> (r: Option<u8>)
        requires
            old(self).ok(),
        ensures
            final(self).s() == old(self).s(),
            final(self).ok(),
            match r {
                Some(b) => old(self).at() < old(self).s().len() && b == old(self).s()[old(
                    self,
                ).at()] && final(self).at() == old(self).at() + 1,
                None => old(self).at() == old(self).s().len() && final(self).at() == old(
                    self,
                ).at(),
            },
    {
        if self.pos < self.input.len() {
            let b = self.input[self.pos];
            self.pos = self.pos + 1;
            Some(b)
        } else {
            None
        }
    }

    /// Consumes the expected byte or reports a syntax error.
    pub fn check_for(&mut self, expected: u8) -> (r: Result<(), SchemeError>)
        requires
            old(self).ok(),
        ensures
            final(self).s() == old(self).s(),
            final(self).ok(),
            match r {
                Ok(()) => old(self).at() < old(self).s().len() && old(self).s()[old(self).at()]
                    == expected && final(self).at() == old(self).at() + 1,
                Err(e) => e.kind() == ErrKind::Syntax && final(self).at() == old(self).at() && !(
                old(self).at() < old(self).s().len() && old(self).s()[old(self).at()]
                    == expected),
            },
    {
        let n = self.input.len();
        if self.pos < n {
            if self.input[self.pos] == expected {
                self.pos = self.pos + 1;
                Ok(())
            } else {
                Err(SchemeError::SyntaxError(String::from_str("unexpected character")))
            }
        } else {
            Err(SchemeError::SyntaxError(String::from_str("unexpected end of input")))
        }
    }

    /// ASCII whitespace.
    pub fn is_whitespace(&self, ch: u8) -> (r: bool)
        ensures
            r == is_ws(ch),
    {
        ch == 32 || ch == 9 || ch == 10 || ch == 12 || ch == 13
    }

    /// A byte that may start a symbol.
    pub fn is_symbol(&self, ch: u8) -> (r: bool)
        ensures
            r == is_symbol_lead(ch),
    {
        (65 <= ch && ch <= 90) || (97 <= ch && ch <= 122) || ch == 43 || ch == 45 || ch == 42
            || ch == 47 || ch == 62 || ch == 60 || ch == 61 || ch == 37 || ch == 33 || ch == 63
    }

    /// Skips whitespace and `;` comments.
    #[verifier::loop_isolation(false)]
    pub fn skip_whitespace(&mut self)
        requires
            old(self).ok(),
        ensures
            final(self).s() == old(self).s(),
            final(self).ok(),
            final(self).at() == skip_ws_spec(old(self).s(), old(self).at(), false),
    {
        let mut in_comment = false;
        let n = self.input.len();
        while self.pos < n || in_comment
            invariant
                self.input@ == old(self).s(),
                self.pos <= n,
                n == self.input@.len(),
                skip_ws_spec(old(self).s(), old(self).at(), false) == skip_ws_spec(
                    self.s(),
                    self.at(),
                    in_comment,
                ),
            decreases 2 * (n - self.pos) + (if in_comment { 1int } else { 0int }),
        {
            if self.pos >= n {
                in_comment = false;
            } else {
                let b = self.input[self.pos];
                if in_comment {
                    self.pos = self.pos + 1;
                    in_comment = b != 10;
                } else if self.is_whitespace(b) {
                    self.pos = self.pos + 1;
                } else if b == 59 {
                    self.pos = self.pos + 1;
                    in_comment = true;
                } else {
                    return ;
                }
            }
        }
    }
}

/// The value of an ASCII digit or letter in the given radix.
fn digit_val_exec(b: u8, radix: u8) -> (r: Option<u8>)
    ensures
        r == digit_val(b, radix),
{
    let v: u8 = if 48 <= b && b <= 57 {
        b - 48
    } else if 97 <= b && b <= 122 {
        b - 87
    } else if 65 <= b && b <= 90 {
        b - 55
    } else {
        255
    };
    if v < radix {
        Some(v)
    } else {
        None
    }
}

/// The signed 64-bit integer a decimal token denotes.
#[verifier::loop_isolation(false)]
fn parse_i64_bytes(t: &Vec<u8>) -> (r: Option<i64>)
    ensures
        r == parse_i64_spec(t@),
{
    let n = t.len();
    let start: usize = if n > 0 && (t[0] == 45 || t[0] == 43) {
        1
    } else {
        0
    };
    let neg = n > 0 && t[0] == 45;
    let ghost d = t@.skip(start as int);
    proof {
        if start == 0 {
            assert(d =~= t@);
        }
    }
    if n == start {
        return None;
    }
    let mut mag: u64 = 0;
    let mut i: usize = start;
    while i < n
        invariant
            start <= i <= n,
            digits_int(d, 0, 0, 10) == digits_int(d, i - start, mag as int, 10),
        decreases n - i,
    {
        let b = t[i];
        proof {
            assert(d[i - start] == t@[i as int]);
        }
        if b < 48 || b > 57 {
            return None;
        }
        let dg = (b - 48) as u64;
        let m10 = match mag.checked_mul(10) {
            Some(m) => m,
            None => {
                proof {
                    lemma_digits_int_ge(d, i - start + 1, mag as int * 10 + dg, 10);
                }
                return None;
            },
        };
        mag = match m10.checked_add(dg) {
            Some(m) => m,
            None => {
                proof {
                    lemma_digits_int_ge(d, i - start + 1, mag as int * 10 + dg, 10);
                }
                return None;
            },
        };
        i += 1;
    }
    if neg {
        if mag <= 9223372036854775808u64 {
            if mag == 9223372036854775808u64 {
                Some(i64::MIN)
            } else {
                Some(-(mag as i64))
            }
        } else {
            None
        }
    } else {
        if mag <= 9223372036854775807u64 {
            Some(mag as i64)
        } else {
            None
        }
    }
}

/// The (unsigned) integer a radix token denotes.
#[verifier::loop_isolation(false)]
fn parse_radix_bytes(t: &Vec<u8>, radix: u8) -> (r: Option<i64>)
    requires
        2 <= radix <= 16,
    ensures
        r == parse_radix_spec(t@, radix),
{
    let n = t.len();
    if n == 0 {
        return None;
    }
    let mut mag: u64 = 0;
    let mut i: usize = 0;
    while i < n
        invariant
            0 <= i <= n,
            digits_int(t@, 0, 0, radix) == digits_int(t@, i as int, mag as int, radix),
        decreases n - i,
    {
        let b = t[i];
        let dg = match digit_val_exec(b, radix) {
            Some(dg) => dg as u64,
            None => {
                return None;
            },
        };
        let m10 = match mag.checked_mul(radix as u64) {
            Some(m) => m,
            None => {
                proof {
                    lemma_digits_int_ge(t@, i + 1, mag as int * radix + dg, radix);
                }
                return None;
            },
        };
        mag = match m10.checked_add(dg) {
            Some(m) => m,
            None => {
                proof {
                    lemma_digits_int_ge(t@, i + 1, mag as int * radix + dg, radix);
                }
                return None;
            },
        };
        i += 1;
    }
    if mag <= 9223372036854775807u64 {
        Some(mag as i64)
    } else {
        None
    }
}

impl Parser {
    /// Reads a number token (the sign, if any, already consumed and passed
    /// in) and converts it: no dot and no exponent means an integer, anything
    /// else goes to the host's binary64 parser.
    #[verifier::loop_isolation(false)]
    pub fn parse_number_with_sign<F: FloatHost>(&mut self, fops: &F, sign: Option<u8>) -> (r:
        Result<Value, SchemeError>)
        requires
            old(self).ok(),
        ensures
            final(self).s() == old(self).s(),
            final(self).ok(),
            old(self).at() <= final(self).at(),
            ({
                let (end, rr) = spec_parse_number::<F>(old(self).s(), old(self).at(), sign);
                final(self).at() == end && kind_res(r) == rr
            }),
    {
        let mut tb: Vec<u8> = Vec::new();
        match sign {
            Some(b) => {
                tb.push(b);
                proof {
                    assert(tb@ =~= seq![b]);
                }
            },
            None => {
                proof {
                    assert(tb@ =~= Seq::<u8>::empty());
                }
            },
        }
        match self.peek() {
            Some(ch) if ch == 45 || ch == 43 => {
                tb.push(ch);
                let _ = self.next();
            },
            _ => {},
        }
        let ghost i1 = self.at();
        let ghost t1 = tb@;
        let mut has_dot = false;
        let mut has_exp = false;
        let n = self.input.len();
        proof {
            lemma_scan_digits_ge(self.s(), i1, t1, false, false);
        }
        while self.pos < n
            invariant
                self.input@ == old(self).s(),
                self.pos <= n,
                n == self.input@.len(),
                i1 <= self.at(),
                scan_digits(self.s(), i1, t1, false, false) == scan_digits(
                    self.s(),
                    self.at(),
                    tb@,
                    has_dot,
                    has_exp,
                ),
                scan_is_float(self.s(), i1, false, false) == scan_is_float(
                    self.s(),
                    self.at(),
                    has_dot,
                    has_exp,
                ),
            decreases n - self.pos,
        {
            let b = self.input[self.pos];
            if 48 <= b && b <= 57 {
                tb.push(b);
                self.pos = self.pos + 1;
            } else if b == 46 && !has_dot && !has_exp {
                has_dot = true;
                tb.push(b);
                self.pos = self.pos + 1;
            } else if (b == 101 || b == 69) && !has_exp {
                has_exp = true;
                tb.push(b);
                self.pos = self.pos + 1;
                if self.pos < n {
                    let b2 = self.input[self.pos];
                    if b2 == 45 || b2 == 43 {
                        tb.push(b2);
                        self.pos = self.pos + 1;
                    }
                }
            } else {
                break ;
            }
        }
        if has_dot || has_exp {
            let mut token = String::new();
            let m = tb.len();
            let mut k: usize = 0;
            while k < m
                invariant
                    m == tb@.len(),
                    0 <= k <= m,
                    token@ == chars_of(tb@.take(k as int)),
                decreases m - k,
            {
                crate::text::push_char(&mut token, tb[k] as char);
                proof {
                    assert(chars_of(tb@.take(k + 1)) =~= chars_of(tb@.take(k as int)).push(
                        tb@[k as int] as char,
                    ));
                }
                k += 1;
            }
            proof {
                assert(tb@.take(m as int) =~= tb@);
            }
            match fops.parse(token.as_str()) {
                Some(bits) => Ok(Value::Number(Number::Float(bits))),
                None => Err(SchemeError::SyntaxError(String::from_str("invalid number"))),
            }
        } else {
            match parse_i64_bytes(&tb) {
                Some(x) => Ok(Value::Number(Number::Int(x))),
                None => Err(SchemeError::SyntaxError(String::from_str("invalid number"))),
            }
        }
    }

    /// Reads a number token with no sign passed in.
    pub fn parse_number<F: FloatHost>(&mut self, fops: &F) -> (r: Result<Value, SchemeError>)
        requires
            old(self).ok(),
        ensures
            final(self).s() == old(self).s(),
            final(self).ok(),
            old(self).at() <= final(self).at(),
            ({
                let (end, rr) = spec_parse_number::<F>(old(self).s(), old(self).at(), None);
                final(self).at() == end && kind_res(r) == rr
            }),
    {
        self.parse_number_with_sign(fops, None)
    }

    /// Reads the digits of a `#b`/`#o`/`#d`/`#x` literal.
    #[verifier::loop_isolation(false)]
    fn parse_hash_number(&mut self, radix: u8) -> (r: Result<Value, SchemeError>)
        requires
            old(self).ok(),
            2 <= radix <= 16,
        ensures
            final(self).s() == old(self).s(),
            final(self).ok(),
            old(self).at() <= final(self).at(),
            ({
                let (end, t) = scan_radix(old(self).s(), old(self).at(), Seq::empty(), radix);
                &&& final(self).at() == end
                &&& kind_res(r) == (match parse_radix_spec(t, radix) {
                    Some(x) => Ok::<Value, ErrKind>(Value::Number(Number::Int(x))),
                    None => Err::<Value, ErrKind>(ErrKind::Syntax),
                })
            }),
    {
        let mut tb: Vec<u8> = Vec::new();
        let n = self.input.len();
        proof {
            assert(tb@ =~= Seq::<u8>::empty());
        }
        while self.pos < n
            invariant
                self.input@ == old(self).s(),
                self.pos <= n,
                n == self.input@.len(),
                old(self).at() <= self.at(),
                scan_radix(self.s(), old(self).at(), Seq::empty(), radix) == scan_radix(
                    self.s(),
                    self.at(),
                    tb@,
                    radix,
                ),
            decreases n - self.pos,
        {
            let b = self.input[self.pos];
            match digit_val_exec(b, radix) {
                Some(_d) => {
                    tb.push(b);
                    self.pos = self.pos + 1;
                },
                None => {
                    break ;
                },
            }
        }
        match parse_radix_bytes(&tb, radix) {
            Some(x) => Ok(Value::Number(Number::Int(x))),
            None => Err(SchemeError::SyntaxError(String::from_str("invalid radix literal"))),
        }
    }

    /// Reads a `#\` character literal: one character, or a named form.
    #[verifier::loop_isolation(false)]
    fn parse_hash_character(&mut self) -> (r: Result<Value, SchemeError>)
        requires
            old(self).ok(),
        ensures
            final(self).s() == old(self).s(),
            final(self).ok(),
            old(self).at() <= final(self).at(),
            ({
                let (end, t) = scan_alpha(old(self).s(), old(self).at(), Seq::empty());
                &&& final(self).at() == end
                &&& kind_res(r) == (match char_name_val(t) {
                    Some(c) => Ok::<Value, ErrKind>(Value::Char(c)),
                    None => Err::<Value, ErrKind>(ErrKind::Syntax),
                })
            }),
    {
        let mut tb: Vec<u8> = Vec::new();
        let n = self.input.len();
        proof {
            assert(tb@ =~= Seq::<u8>::empty());
        }
        while self.pos < n
            invariant
                self.input@ == old(self).s(),
                self.pos <= n,
                n == self.input@.len(),
                old(self).at() <= self.at(),
                scan_alpha(self.s(), old(self).at(), Seq::empty()) == scan_alpha(
                    self.s(),
                    self.at(),
                    tb@,
                ),
            decreases n - self.pos,
        {
            let b = self.input[self.pos];
            if (65 <= b && b <= 90) || (97 <= b && b <= 122) {
                tb.push(b);
                self.pos = self.pos + 1;
            } else {
                break ;
            }
        }
        match char_name_exec(&tb) {
            Some(c) => Ok(Value::Char(c)),
            None => Err(SchemeError::SyntaxError(String::from_str("invalid character literal"))),
        }
    }

    /// Reads a `#` form: booleans, radix integers, or a character literal.
    pub fn parse_hash(&mut self) -> (r: Result<Value, SchemeError>)
        requires
            old(self).ok(),
            old(self).at() < old(self).s().len(),
            old(self).s()[old(self).at()] == 35,
        ensures
            final(self).s() == old(self).s(),
            final(self).ok(),
            old(self).at() < final(self).at(),
            ({
                let (end, rr) = spec_parse_hash(old(self).s(), old(self).at() + 1);
                final(self).at() == end && kind_res(r) == rr
            }),
    {
        let _hash = self.next();
        match self.next() {
            Some(ch) => {
                if ch == 116 || ch == 84 {
                    Ok(Value::Boolean(true))
                } else if ch == 102 || ch == 70 {
                    Ok(Value::Boolean(false))
                } else if ch == 98 {
                    self.parse_hash_number(2)
                } else if ch == 111 {
                    self.parse_hash_number(8)
                } else if ch == 100 {
                    self.parse_hash_number(10)
                } else if ch == 120 {
                    self.parse_hash_number(16)
                } else if ch == 92 {
                    self.parse_hash_character()
                } else {
                    Err(SchemeError::SyntaxError(String::from_str("invalid character after #")))
                }
            },
            None => Err(
                SchemeError::SyntaxError(String::from_str("unexpected end of input after #")),
            ),
        }
    }

    /// Reads a double-quoted string literal and allocates it in the heap;
    /// `\` escapes the next byte verbatim.
    #[verifier::loop_isolation(false)]
    pub fn parse_string(&mut self, heap: &mut Heap) -> (r: Result<Value, SchemeError>)
        requires
            old(self).ok(),
            old(heap).inv(),
        ensures
            final(self).s() == old(self).s(),
            final(self).ok(),
            final(heap).inv(),
            old(heap)@.is_prefix_of(final(heap)@),
            old(self).at() <= final(self).at(),
            old(self).at() < old(self).s().len() && old(self).s()[old(self).at()] == 34
                ==> old(self).at() < final(self).at(),
            old(self).at() < old(self).s().len() && old(self).s()[old(self).at()] == 34 ==> (
            match string_scan(old(self).s(), old(self).at() + 1, Seq::empty()) {
                Some((content, end)) => final(heap)@ == old(heap)@.push(ObjModel::Str(content))
                    && final(self).at() == end && (r matches Ok(v) && v == Value::Object(
                    old(heap)@.len() as usize,
                )),
                None => final(heap)@ == old(heap)@ && final(self).at()
                    == final(self).s().len() && (r matches Err(e) && e.kind() == ErrKind::Syntax),
            }),
            !(old(self).at() < old(self).s().len() && old(self).s()[old(self).at()] == 34) ==> (
            final(heap)@ == old(heap)@ && r is Err),
    {
        match self.check_for(34) {
            Ok(()) => {},
            Err(e) => {
                return Err(e);
            },
        }
        let mut token = String::new();
        let n = self.input.len();
        proof {
            assert(token@ =~= Seq::<char>::empty());
        }
        while self.pos < n
            invariant
                self.input@ == old(self).s(),
                self.pos <= n,
                n == self.input@.len(),
                old(self).at() < self.at(),
                heap.inv(),
                heap@ == old(heap)@,
                string_scan(self.s(), old(self).at() + 1, Seq::empty()) == string_scan(
                    self.s(),
                    self.at(),
                    token@,
                ),
            decreases n - self.pos,
        {
            let ch = self.input[self.pos];
            self.pos = self.pos + 1;
            if ch == 34 {
                let v = heap.alloc_string(token);
                return Ok(v);
            } else if ch == 92 {
                if self.pos < n {
                    let ch2 = self.input[self.pos];
                    self.pos = self.pos + 1;
                    crate::text::push_char(&mut token, ch2 as char);
                } else {
                    self.pos = n;
                    return Err(
                        SchemeError::SyntaxError(
                            String::from_str("unexpected end of input in a string"),
                        ),
                    );
                }
            } else {
                crate::text::push_char(&mut token, ch as char);
            }
        }
        Err(SchemeError::SyntaxError(String::from_str("unexpected end of input in a string")))
    }

    /// Reads a symbol token (the lead byte, if any, already consumed and
    /// passed in) and interns it.
    #[verifier::loop_isolation(false)]
    pub fn parse_symbol_with_lead(&mut self, heap: &mut Heap, lead: Option<u8>) -> (r: Result<
        Value,
        SchemeError,
    >)
        requires
            old(self).ok(),
            old(heap).inv(),
        ensures
            final(self).s() == old(self).s(),
            final(self).ok(),
            final(heap).inv(),
            old(heap)@.is_prefix_of(final(heap)@),
            old(self).at() <= final(self).at(),
            ({
                let t0: Seq<u8> = match lead {
                    Some(b) => seq![b],
                    None => Seq::empty(),
                };
                let (end, t) = symbol_scan(old(self).s(), old(self).at(), t0);
                let (h2, sid) = intern_spec(old(heap)@, chars_of(t));
                &&& final(self).at() == end
                &&& final(heap)@ == h2
                &&& r matches Ok(v) && v == Value::Object(sid)
                &&& sid < final(heap)@.len()
            }),
    {
        let mut tb: Vec<u8> = Vec::new();
        match lead {
            Some(b) => {
                tb.push(b);
                proof {
                    assert(tb@ =~= seq![b]);
                }
            },
            None => {
                proof {
                    assert(tb@ =~= Seq::<u8>::empty());
                }
            },
        }
        let ghost t0 = tb@;
        let n = self.input.len();
        while self.pos < n
            invariant
                self.input@ == old(self).s(),
                self.pos <= n,
                n == self.input@.len(),
                old(self).at() <= self.at(),
                symbol_scan(self.s(), old(self).at(), t0) == symbol_scan(
                    self.s(),
                    self.at(),
                    tb@,
                ),
            decreases n - self.pos,
        {
            let b = self.input[self.pos];
            let take = ((65 <= b && b <= 90) || (97 <= b && b <= 122) || (48 <= b && b <= 57)
                || b == 33 || b == 36 || b == 37 || b == 38 || b == 42 || b == 47 || b == 58
                || b == 60 || b == 61 || b == 62 || b == 63 || b == 94 || b == 95 || b == 126
                || b == 43 || b == 45);
            if take {
                tb.push(b);
                self.pos = self.pos + 1;
            } else {
                break ;
            }
        }
        let mut token = String::new();
        let m = tb.len();
        let mut k: usize = 0;
        proof {
            assert(token@ =~= chars_of(tb@.take(0)));
        }
        while k < m
            invariant
                m == tb@.len(),
                0 <= k <= m,
                token@ == chars_of(tb@.take(k as int)),
            decreases m - k,
        {
            crate::text::push_char(&mut token, tb[k] as char);
            proof {
                assert(chars_of(tb@.take(k + 1)) =~= chars_of(tb@.take(k as int)).push(
                    tb@[k as int] as char,
                ));
            }
            k += 1;
        }
        proof {
            assert(tb@.take(m as int) =~= tb@);
        }
        let v = heap.intern_symbol(token.as_str());
        Ok(v)
    }

    /// Reads a symbol token with no lead byte passed in.
    pub fn parse_symbol(&mut self, heap: &mut Heap) -> (r: Result<Value, SchemeError>)
        requires
            old(self).ok(),
            old(heap).inv(),
        ensures
            final(self).s() == old(self).s(),
            final(self).ok(),
            final(heap).inv(),
            old(heap)@.is_prefix_of(final(heap)@),
            old(self).at() <= final(self).at(),
            ({
                let (end, t) = symbol_scan(old(self).s(), old(self).at(), Seq::empty());
                let (h2, sid) = intern_spec(old(heap)@, chars_of(t));
                &&& final(self).at() == end
                &&& final(heap)@ == h2
                &&& r matches Ok(v) && v == Value::Object(sid)
                &&& sid < final(heap)@.len()
            }),
    {
        self.parse_symbol_with_lead(heap, None)
    }
}

/// The character a `#\` token denotes.
fn char_name_exec(t: &Vec<u8>) -> (r: Option<u8>)
    ensures
        r == char_name_val(t@),
{
    let n = t.len();
    if n == 1 {
        return Some(t[0]);
    }
    let mut low: Vec<u8> = Vec::new();
    let mut i: usize = 0;
    proof {
        assert(low@ =~= lower_bytes(t@.take(0)));
    }
    while i < n
        invariant
            n == t@.len(),
            0 <= i <= n,
            low@ == lower_bytes(t@.take(i as int)),
        decreases n - i,
    {
        let b = t[i];
        let lb: u8 = if 65 <= b && b <= 90 {
            b + 32
        } else {
            b
        };
        low.push(lb);
        proof {
            assert(lower_bytes(t@.take(i + 1)) =~= lower_bytes(t@.take(i as int)).push(
                if 65 <= t@[i as int] <= 90 {
                    (t@[i as int] + 32) as u8
                } else {
                    t@[i as int]
                },
            ));
        }
        i += 1;
    }
    proof {
        assert(t@.take(n as int) =~= t@);
    }
    let m = low.len();
    if m == 5 && low[0] == 115 && low[1] == 112 && low[2] == 97 && low[3] == 99 && low[4] == 101 {
        proof {
            assert(low@ =~= seq![115u8, 112u8, 97u8, 99u8, 101u8]);
        }
        Some(32)
    } else if m == 9 && low[0] == 98 && low[1] == 97 && low[2] == 99 && low[3] == 107 && low[4]
        == 115 && low[5] == 112 && low[6] == 97 && low[7] == 99 && low[8] == 101 {
        proof {
            assert(low@ =~= seq![98u8, 97u8, 99u8, 107u8, 115u8, 112u8, 97u8, 99u8, 101u8]);
        }
        Some(8)
    } else if m == 3 && low[0] == 116 && low[1] == 97 && low[2] == 98 {
        proof {
            assert(low@ =~= seq![116u8, 97u8, 98u8]);
        }
        Some(9)
    } else if m == 7 && low[0] == 110 && low[1] == 101 && low[2] == 119 && low[3] == 108 && low[4]
        == 105 && low[5] == 110 && low[6] == 101 {
        proof {
            assert(low@ =~= seq![110u8, 101u8, 119u8, 108u8, 105u8, 110u8, 101u8]);
        }
        Some(10)
    } else if m == 6 && low[0] == 114 && low[1] == 101 && low[2] == 116 && low[3] == 117 && low[4]
        == 114 && low[5] == 110 {
        proof {
            assert(low@ =~= seq![114u8, 101u8, 116u8, 117u8, 114u8, 110u8]);
        }
        Some(13)
    } else {
        proof {
            assert(!(low@ =~= seq![115u8, 112u8, 97u8, 99u8, 101u8]));
            assert(!(low@ =~= seq![98u8, 97u8, 99u8, 107u8, 115u8, 112u8, 97u8, 99u8, 101u8]));
            assert(!(low@ =~= seq![116u8, 97u8, 98u8]));
            assert(!(low@ =~= seq![110u8, 101u8, 119u8, 108u8, 105u8, 110u8, 101u8]));
            assert(!(low@ =~= seq![114u8, 101u8, 116u8, 117u8, 114u8, 110u8]));
        }
        None
    }
}



/// Scanning a symbol never moves the cursor backwards, and stays in bounds.
pub proof fn lemma_symbol_scan_ge(s: Seq<u8>, i: int, t: Seq<u8>)
    requires
        0 <= i <= s.len(),
    ensures
        ({
            let (end, _t2) = symbol_scan(s, i, t);
            i <= end <= s.len()
        }),
    decreases s.len() - i,
{
    if i < s.len() && is_symbol_rest(s[i]) {
        lemma_symbol_scan_ge(s, i + 1, t.push(s[i]));
    }
}

/// A byte that may start a symbol may also continue one.
pub proof fn lemma_lead_is_rest(b: u8)
    ensures
        is_symbol_lead(b) ==> is_symbol_rest(b),
{
}

impl Parser {
    /// Reads one expression. At end of input returns `Nil`; everything the
    /// expression allocates or interns lands in the interpreter's heap.
    pub fn read<F: FloatHost>(&mut self, interp: &mut Interp<F>) -> (r: Result<
        Value,
        SchemeError,
    >)
        requires
            old(self).ok(),
            old(interp).wf(),
        ensures
            final(self).s() == old(self).s(),
            final(self).ok(),
            final(interp).wf(),
            old(interp).heap@.is_prefix_of(final(interp).heap@),
            final(interp).env@ == old(interp).env@,
            final(interp).exit_status == old(interp).exit_status,
            old(self).at() <= final(self).at(),
            final(self).at() == old(self).at() ==> final(self).at() == final(self).s().len(),
            ({
                let (h2, end, rr) = spec_read::<F>(
                    old(interp).heap@,
                    old(self).s(),
                    old(self).at(),
                );
                final(interp).heap@ == h2 && final(self).at() == end && kind_res(r) == rr
            }),
            r matches Ok(v) ==> valid_value(v, final(interp).heap@.len() as int),
        decreases self.s().len() - self.at(), 0int,
    {
        self.skip_whitespace();
        proof {
            lemma_skip_ws_props(self.s(), old(self).at(), false);
        }
        match self.peek() {
            None => Ok(Value::Nil),
            Some(b) => {
                let ghost j = self.at();
                if b == 40 {
                    let _open = self.next();
                    let r = self.parse_list(interp);
                    r
                } else if b == 43 || b == 45 {
                    let _sign = self.next();
                    let digit_next = match self.peek() {
                        Some(nb) => 48 <= nb && nb <= 57,
                        None => false,
                    };
                    if digit_next {
                        let r = self.parse_number_with_sign(&interp.fops, Some(b));
                        proof {
                            lemma_scan_digits_ge(
                                self.s(),
                                j + 2,
                                seq![b].push(self.s()[j + 1]),
                                false,
                                false,
                            );
                        }
                        r
                    } else {
                        proof {
                            lemma_symbol_scan_ge(self.s(), j + 1, seq![b]);
                        }
                        let r = self.parse_symbol_with_lead(&mut interp.heap, Some(b));
                        proof {
                            crate::interp::lemma_closures_env_ok_extend(
                                old(interp).heap@,
                                interp.heap@,
                                interp.env@.len() as int,
                            );
                        }
                        r
                    }
                } else if 48 <= b && b <= 57 {
                    let r = self.parse_number(&interp.fops);
                    proof {
                        lemma_scan_digits_ge(self.s(), j + 1, seq![b], false, false);
                    }
                    r
                } else if self.is_symbol(b) {
                    proof {
                        lemma_lead_is_rest(b);
                        assert(symbol_scan(self.s(), j, Seq::empty()) == symbol_scan(
                            self.s(),
                            j + 1,
                            Seq::<u8>::empty().push(b),
                        ));
                        lemma_symbol_scan_ge(self.s(), j + 1, Seq::<u8>::empty().push(b));
                    }
                    let r = self.parse_symbol(&mut interp.heap);
                    proof {
                        crate::interp::lemma_closures_env_ok_extend(
                            old(interp).heap@,
                            interp.heap@,
                            interp.env@.len() as int,
                        );
                    }
                    r
                } else if b == 35 {
                    let r = self.parse_hash();
                    r
                } else if b == 34 {
                    let r = self.parse_string(&mut interp.heap);
                    proof {
                        crate::interp::lemma_closures_env_ok_extend(
                            old(interp).heap@,
                            interp.heap@,
                            interp.env@.len() as int,
                        );
                    }
                    r
                } else if b == 39 {
                    let _quote_mark = self.next();
                    let quoted = match self.read(interp) {
                        Ok(q) => q,
                        Err(e) => {
                            return Err(e);
                        },
                    };
                    let ghost h1 = interp.heap@;
                    let mut qv: Vec<Value> = Vec::new();
                    qv.push(Value::Object(crate::heap::QUOTE_ID));
                    qv.push(quoted);
                    proof {
                        assert(qv@ =~= seq![Value::Object(crate::heap::QUOTE_ID), quoted]);
                    }
                    let v = interp.heap.alloc_list(qv);
                    proof {
                        crate::heap::lemma_alloc_list_spec_shape(
                            h1,
                            seq![Value::Object(crate::heap::QUOTE_ID), quoted],
                        );
                        crate::interp::lemma_closures_env_ok_extend(
                            h1,
                            interp.heap@,
                            interp.env@.len() as int,
                        );
                    }
                    Ok(v)
                } else {
                    let _bad = self.next();
                    Err(SchemeError::SyntaxError(String::from_str("unexpected character")))
                }
            },
        }
    }

    /// Reads expressions up to the closing parenthesis of a list (the opening
    /// one already consumed) and allocates the cons chain.
    #[verifier::loop_isolation(false)]
    pub fn parse_list<F: FloatHost>(&mut self, interp: &mut Interp<F>) -> (r: Result<
        Value,
        SchemeError,
    >)
        requires
            old(self).ok(),
            old(interp).wf(),
        ensures
            final(self).s() == old(self).s(),
            final(self).ok(),
            final(interp).wf(),
            old(interp).heap@.is_prefix_of(final(interp).heap@),
            final(interp).env@ == old(interp).env@,
            final(interp).exit_status == old(interp).exit_status,
            old(self).at() <= final(self).at(),
            ({
                let (h2, end, rr) = spec_parse_items::<F>(
                    old(interp).heap@,
                    old(self).s(),
                    old(self).at(),
                    Seq::empty(),
                );
                final(interp).heap@ == h2 && final(self).at() == end && kind_res(r) == rr
            }),
            r matches Ok(v) ==> valid_value(v, final(interp).heap@.len() as int),
        decreases self.s().len() - self.at(), 1int,
    {
        let ghost h0 = interp.heap@;
        let ghost i0 = self.at();
        let mut items: Vec<Value> = Vec::new();
        proof {
            assert(items@ =~= Seq::<Value>::empty());
        }
        loop
            invariant
                self.ok(),
                self.s() == old(self).s(),
                interp.wf(),
                old(interp).heap@.is_prefix_of(interp.heap@),
                interp.env@ == old(interp).env@,
                interp.exit_status == old(interp).exit_status,
                i0 <= self.at(),
                all_valid(items@, interp.heap@.len() as int),
                spec_parse_items::<F>(h0, old(self).s(), i0, Seq::empty())
                    == spec_parse_items::<F>(interp.heap@, self.s(), self.at(), items@),
            decreases self.s().len() - self.at(),
        {
            let ghost pre = self.at();
            self.skip_whitespace();
            proof {
                lemma_skip_ws_props(self.s(), pre, false);
            }
            match self.peek() {
                None => {
                    return Err(
                        SchemeError::SyntaxError(
                            String::from_str("unexpected end of input in a list"),
                        ),
                    );
                },
                Some(c) => {
                    if c == 41 {
                        let _close = self.next();
                        let ghost hpre = interp.heap@;
                        let v = interp.heap.alloc_list(items);
                        proof {
                            crate::heap::lemma_alloc_list_spec_shape(hpre, items@);
                            crate::interp::lemma_closures_env_ok_extend(
                                hpre,
                                interp.heap@,
                                interp.env@.len() as int,
                            );
                        }
                        return Ok(v);
                    } else {
                        let v = match self.read(interp) {
                            Ok(v) => v,
                            Err(e) => {
                                return Err(e);
                            },
                        };
                        items.push(v);
                    }
                },
            }
        }
    }
}

} // verus!
