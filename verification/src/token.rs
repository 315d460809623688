//! Tokens, the line tokenizer, and the literal parsers.

use vstd::prelude::*;
use crate::block::Span;
use crate::error::WofError;

verus! {

/// What kind of lexical unit a token is.
#[derive(Clone, Copy, Debug, PartialEq, Eq, Structural)]
pub enum TokenKind {
    /// A whole-number literal.
    Integer,
    /// A decimal-point literal.
    Float,
    /// A quoted string literal, delimiters included.
    Str,
    /// A name: keyword, operation or variable.
    Symbol,
    /// A label definition, written `:name`.
    Label,
    /// A label reference, written `@name`.
    LabelRef,
    /// End of input.
    Eof,
}

/// Model of a token: its kind and its text.
#[verifier::ext_equal]
pub struct TokenModel {
    pub kind: TokenKind,
    pub text: Seq<char>,
}

/// An owned lexical unit, buffered independently of the source line.
#[derive(Debug)]
pub struct OwnedToken {
    /// The kind of token.
    pub kind: TokenKind,
    /// The token text (owned).
    pub text: String,
    /// Source location, as character offsets into the line.
    pub span: Span,
}

impl View for OwnedToken {
    type V = TokenModel;

    open spec fn view(&self) -> TokenModel {
        TokenModel { kind: self.kind, text: self.text@ }
    }
}

impl Clone for OwnedToken {
    /// A clone is the same token.
    fn clone(&self) -> (r: Self)
        ensures
            r@ == self@,
            r.span == self.span,
    {
        OwnedToken { kind: self.kind, text: self.text.clone(), span: self.span }
    }
}

/// Whitespace separates tokens.
pub open spec fn is_ws(c: char) -> bool {
    c == ' ' || c == '\t' || c == '\r' || c == '\n'
}

/// A decimal digit.
pub open spec fn is_digit(c: char) -> bool {
    48 <= c as u32 <= 57
}

/// The first whitespace position at or after `j`, or the end.
pub open spec fn spec_scan_ws(s: Seq<char>, j: int) -> int
    decreases s.len() - j,
{
    if j < 0 || j >= s.len() {
        s.len() as int
    } else if is_ws(s[j]) {
        j
    } else {
        spec_scan_ws(s, j + 1)
    }
}

/// The position just past the closing quote of a string literal whose
/// body starts at `j`; a backslash escapes the next character. An
/// unterminated literal runs to the end of the line.
pub open spec fn spec_str_end(s: Seq<char>, j: int) -> int
    decreases s.len() - j,
{
    if j < 0 || j >= s.len() {
        s.len() as int
    } else if s[j] == '"' {
        j + 1
    } else if s[j] == '\\' && j + 1 < s.len() {
        spec_str_end(s, j + 2)
    } else {
        spec_str_end(s, j + 1)
    }
}

/// Whether the characters from `start` on are all digits (and nonempty):
/// the shape of an integer literal body.
pub open spec fn all_digits_from(w: Seq<char>, start: int) -> bool {
    start < w.len() && forall|j: int| start <= j < w.len() ==> is_digit(w[j])
}

/// The shape of a float literal body: one dot at `d`, digits elsewhere,
/// and at least one digit.
pub open spec fn float_shape(w: Seq<char>, start: int, d: int) -> bool {
    &&& start <= d < w.len()
    &&& w[d] == '.'
    &&& forall|j: int| start <= j < d ==> is_digit(w[j])
    &&& forall|j: int| d < j < w.len() ==> is_digit(w[j])
    &&& (d > start || d + 1 < w.len())
}

/// Where the numeric body of a literal starts: after a leading minus.
pub open spec fn num_start(w: Seq<char>) -> int {
    if w.len() > 0 && w[0] == '-' {
        1int
    } else {
        0int
    }
}

/// Whether the text has the shape of an integer literal.
pub open spec fn is_int_text(w: Seq<char>) -> bool {
    w.len() > 0 && all_digits_from(w, num_start(w))
}

/// Whether the text has the shape of a float literal.
pub open spec fn is_float_text(w: Seq<char>) -> bool {
    w.len() > 0 && exists|d: int| float_shape(w, num_start(w), d)
}

/// The kind a nonempty word is read as.
pub open spec fn spec_classify(w: Seq<char>) -> TokenKind {
    if w[0] == '"' {
        TokenKind::Str
    } else if w[0] == ':' && w.len() > 1 {
        TokenKind::Label
    } else if w[0] == '@' {
        TokenKind::LabelRef
    } else if is_int_text(w) {
        TokenKind::Integer
    } else if is_float_text(w) {
        TokenKind::Float
    } else {
        TokenKind::Symbol
    }
}

/// The token a nonempty word becomes.
pub open spec fn spec_mk_token(w: Seq<char>) -> TokenModel {
    TokenModel { kind: spec_classify(w), text: w }
}

/// The tokens of the line from position `i` on: whitespace is skipped, a
/// quote opens a string literal that may span whitespace, and any other
/// character opens a word that runs to the next whitespace.
pub open spec fn spec_tokenize_from(s: Seq<char>, i: int) -> Seq<TokenModel>
    decreases s.len() - i,
{
    if i < 0 || i >= s.len() {
        Seq::empty()
    } else if is_ws(s[i]) {
        spec_tokenize_from(s, i + 1)
    } else {
        let raw = if s[i] == '"' {
            spec_str_end(s, i + 1)
        } else {
            spec_scan_ws(s, i + 1)
        };
        // the scans always land in (i, len]; the bound makes that plain
        // so the recursion is visibly decreasing
        let end = if i < raw <= s.len() {
            raw
        } else {
            i + 1
        };
        seq![spec_mk_token(s.subrange(i, end))] + spec_tokenize_from(s, end)
    }
}

/// The tokens of a whole line.
pub open spec fn spec_tokenize(s: Seq<char>) -> Seq<TokenModel> {
    spec_tokenize_from(s, 0)
}

/// A line of whitespace only has no tokens.
pub proof fn lemma_ws_line_no_tokens(s: Seq<char>, i: int)
    requires
        0 <= i <= s.len(),
        forall|j: int| i <= j < s.len() ==> is_ws(s[j]),
    ensures
        spec_tokenize_from(s, i) == Seq::<TokenModel>::empty(),
    decreases s.len() - i,
{
    if i < s.len() {
        lemma_ws_line_no_tokens(s, i + 1);
    }
}

/// Whether a character separates tokens.
fn ws_char(c: char) -> (r: bool)
    ensures
        r == is_ws(c),
{
    c == ' ' || c == '\t' || c == '\r' || c == '\n'
}

/// Whether a character is a decimal digit.
fn digit_char(c: char) -> (r: bool)
    ensures
        r == is_digit(c),
{
    let u = c as u32;
    48 <= u && u <= 57
}

/// The kind a nonempty word is read as.
fn classify(w: &str) -> (k: TokenKind)
    requires
        w@.len() > 0,
    ensures
        k == spec_classify(w@),
{
    let n = w.unicode_len();
    let c0 = w.get_char(0);
    if c0 == '"' {
        return TokenKind::Str;
    }
    if c0 == ':' && n > 1 {
        return TokenKind::Label;
    }
    if c0 == '@' {
        return TokenKind::LabelRef;
    }
    let start: usize = if c0 == '-' { 1 } else { 0 };
    if start >= n {
        return TokenKind::Symbol;
    }
    // integer shape: digits all the way
    let mut j = start;
    let mut all_digits = true;
    while j < n
        invariant
            start <= j <= n,
            n == w@.len(),
            start as int == num_start(w@),
            all_digits == forall|k: int| start <= k < j ==> is_digit(w@[k]),
        decreases n - j,
    {
        if !digit_char(w.get_char(j)) {
            all_digits = false;
        }
        j = j + 1;
    }
    if all_digits {
        return TokenKind::Integer;
    }
    // float shape: one dot, digits elsewhere, at least one digit
    let mut dot: usize = n;
    let mut j = start;
    while j < n
        invariant
            start <= j <= n,
            n == w@.len(),
            dot == n || (start <= dot < j && w@[dot as int] == '.'),
            dot == n ==> forall|k: int| start <= k < j ==> w@[k] != '.',
        decreases n - j,
    {
        if dot == n && w.get_char(j) == '.' {
            dot = j;
        }
        j = j + 1;
    }
    if dot == n {
        return TokenKind::Symbol;
    }
    let mut ok = true;
    let mut saw_digit = false;
    let mut j = start;
    while j < n
        invariant
            start <= j <= n,
            n == w@.len(),
            start <= dot < n,
            ok == forall|k: int| start <= k < j && k != dot ==> is_digit(w@[k]),
            saw_digit == exists|k: int| start <= k < j && k != dot && is_digit(w@[k]),
        decreases n - j,
    {
        if j != dot {
            if digit_char(w.get_char(j)) {
                saw_digit = true;
            } else {
                ok = false;
            }
        }
        j = j + 1;
    }
    if ok && saw_digit {
        proof {
            assert(float_shape(w@, start as int, dot as int));
            assert(!is_int_text(w@));
        }
        TokenKind::Float
    } else {
        proof {
            assert(!is_int_text(w@));
            if ok && !saw_digit {
                assert(forall|d: int| !float_shape(w@, start as int, d)) by {
                    assert forall|d: int| !float_shape(w@, start as int, d) by {
                        if float_shape(w@, start as int, d) {
                            if d > start as int {
                                assert(is_digit(w@[start as int]));
                            } else {
                                assert(is_digit(w@[d + 1]));
                            }
                        }
                    }
                }
            }
            if !ok {
                assert(forall|d: int| !float_shape(w@, start as int, d)) by {
                    assert forall|d: int| !float_shape(w@, start as int, d) by {
                        if float_shape(w@, start as int, d) {
                            let bad = choose|k: int|
                                start <= k < w@.len() && k != dot && !is_digit(w@[k]);
                            assert(w@[bad] == '.');
                            if d != bad {
                                assert(is_digit(w@[bad]));
                            } else {
                                assert(w@[dot as int] == '.');
                                if dot < d {
                                    assert(is_digit(w@[dot as int]));
                                }
                            }
                        }
                    }
                }
            }
        }
        TokenKind::Symbol
    }
}

/// The first whitespace position at or after `j`, or the end of the line.
fn scan_ws(s: &str, j: usize, n: usize) -> (r: usize)
    requires
        j <= n,
        n == s@.len(),
    ensures
        r as int == spec_scan_ws(s@, j as int),
        j <= r <= n,
    decreases n - j,
{
    if j >= n {
        n
    } else if ws_char(s.get_char(j)) {
        j
    } else {
        scan_ws(s, j + 1, n)
    }
}

/// The position just past the closing quote of a string body at `j`.
fn str_end(s: &str, j: usize, n: usize) -> (r: usize)
    requires
        j <= n,
        n == s@.len(),
    ensures
        r as int == spec_str_end(s@, j as int),
        j <= r <= n,
    decreases n - j,
{
    if j >= n {
        n
    } else {
        let c = s.get_char(j);
        if c == '"' {
            j + 1
        } else if c == '\\' && j + 1 < n {
            str_end(s, j + 2, n)
        } else {
            str_end(s, j + 1, n)
        }
    }
}

/// Split one line of source into its tokens, in order.
pub fn tokenize(line: &str) -> (r: Vec<OwnedToken>)
    ensures
        r@.map_values(|t: OwnedToken| t@) == spec_tokenize(line@),
{
    let n = line.unicode_len();
    let mut toks: Vec<OwnedToken> = Vec::new();
    let mut i: usize = 0;
    proof {
        assert(toks@.map_values(|t: OwnedToken| t@) =~~= Seq::<TokenModel>::empty());
    }
    while i < n
        invariant
            i <= n,
            n == line@.len(),
            spec_tokenize(line@) == toks@.map_values(|t: OwnedToken| t@)
                + spec_tokenize_from(line@, i as int),
        decreases n - i,
    {
        let c = line.get_char(i);
        if ws_char(c) {
            i = i + 1;
        } else {
            let end = if c == '"' {
                str_end(line, i + 1, n)
            } else {
                scan_ws(line, i + 1, n)
            };
            proof {
                assert(i < end <= n);
            }
            let text = line.substring_char(i, end);
            let kind = classify(text);
            let ghost prevmap = toks@.map_values(|t: OwnedToken| t@);
            toks.push(OwnedToken {
                kind,
                text: String::from_str(text),
                span: Span { start: i, end },
            });
            proof {
                assert(toks@.map_values(|t: OwnedToken| t@)
                    =~~= prevmap + seq![spec_mk_token(line@.subrange(i as int, end as int))]);
                assert(prevmap + (seq![spec_mk_token(line@.subrange(i as int, end as int))]
                    + spec_tokenize_from(line@, end as int))
                    =~~= (prevmap + seq![spec_mk_token(line@.subrange(i as int, end as int))])
                        + spec_tokenize_from(line@, end as int));
            }
            i = end;
        }
    }
    proof {
        assert(toks@.map_values(|t: OwnedToken| t@) =~~= spec_tokenize(line@));
    }
    toks
}

/// The value of the digit run `w[s..e)`, most significant digit first.
pub open spec fn dv(w: Seq<char>, s: int, e: int) -> int
    decreases e - s,
{
    if e <= s {
        0
    } else {
        dv(w, s, e - 1) * 10 + (w[e - 1] as u32 - 48)
    }
}

/// Ten to the `k`.
pub open spec fn pow10(k: int) -> int
    decreases k,
{
    if k <= 0 {
        1
    } else {
        10 * pow10(k - 1)
    }
}

/// A digit run's value is nonnegative and under ten to its length.
pub proof fn lemma_dv_bound(w: Seq<char>, s: int, e: int)
    requires
        s <= e,
        forall|j: int| s <= j < e ==> is_digit(w[j]),
    ensures
        0 <= dv(w, s, e) < pow10(e - s),
    decreases e - s,
{
    if e > s {
        lemma_dv_bound(w, s, e - 1);
        assert(dv(w, s, e) == dv(w, s, e - 1) * 10 + (w[e - 1] as u32 - 48));
        assert(dv(w, s, e - 1) * 10 + (w[e - 1] as u32 - 48) < pow10(e - s)) by (nonlinear_arith)
            requires
                0 <= dv(w, s, e - 1) < pow10(e - s - 1),
                0 <= w[e - 1] as u32 - 48 <= 9,
                pow10(e - s) == 10 * pow10(e - s - 1),
        {}
    }
}

/// Reading more digits never shrinks the value.
pub proof fn lemma_dv_mono(w: Seq<char>, s: int, j: int, e: int)
    requires
        s <= j <= e,
        forall|k: int| s <= k < e ==> is_digit(w[k]),
    ensures
        dv(w, s, e) >= dv(w, s, j),
    decreases e - j,
{
    if e > j {
        lemma_dv_mono(w, s, j, e - 1);
        lemma_dv_bound(w, s, e - 1);
        assert(dv(w, s, e) >= dv(w, s, e - 1)) by (nonlinear_arith)
            requires
                dv(w, s, e) == dv(w, s, e - 1) * 10 + (w[e - 1] as u32 - 48),
                0 <= dv(w, s, e - 1),
                0 <= w[e - 1] as u32 - 48,
        {}
    }
}

/// Powers of ten multiply by adding exponents.
pub proof fn lemma_pow10_add(a: int, b: int)
    requires
        0 <= a,
        0 <= b,
    ensures
        pow10(a) * pow10(b) == pow10(a + b),
    decreases a,
{
    if a == 0 {
        assert(pow10(0) * pow10(b) == pow10(b));
    } else {
        lemma_pow10_add(a - 1, b);
        assert(pow10(a) * pow10(b) == 10 * pow10(a - 1 + b)) by (nonlinear_arith)
            requires
                pow10(a) == 10 * pow10(a - 1),
                pow10(a - 1) * pow10(b) == pow10(a - 1 + b),
        {}
    }
}

/// The value an integer-shaped text denotes.
pub open spec fn spec_int_value(w: Seq<char>) -> int {
    if w.len() > 0 && w[0] == '-' {
        -dv(w, 1, w.len() as int)
    } else {
        dv(w, 0, w.len() as int)
    }
}

/// Parse an integer-shaped text. The exact denoted value comes back when
/// it fits a signed 64-bit integer; anything larger is a parse error.
pub fn parse_int_text(w: &str) -> (r: Result<i64, WofError>)
    requires
        is_int_text(w@),
    ensures
        match r {
            Ok(v) => i64::MIN <= spec_int_value(w@) <= i64::MAX
                && v as int == spec_int_value(w@),
            Err(e) => e == WofError::Parse
                && !(i64::MIN <= spec_int_value(w@) <= i64::MAX),
        },
{
    let n = w.unicode_len();
    let neg = w.get_char(0) == '-';
    let start: usize = if neg { 1 } else { 0 };
    let cap: u64 = if neg { 9223372036854775808 } else { 9223372036854775807 };
    let mut acc: u64 = 0;
    let mut j = start;
    while j < n
        invariant
            start <= j <= n,
            n == w@.len(),
            start as int == num_start(w@),
            neg == (w@[0] == '-'),
            cap == if neg { 9223372036854775808u64 } else { 9223372036854775807u64 },
            all_digits_from(w@, start as int),
            acc as int == dv(w@, start as int, j as int),
            acc <= cap,
        decreases n - j,
    {
        let d = (w.get_char(j) as u32 - 48) as u64;
        let overflowed: bool = match acc.checked_mul(10) {
            Some(x) => match x.checked_add(d) {
                Some(y) => {
                    if y > cap {
                        true
                    } else {
                        acc = y;
                        false
                    }
                },
                None => true,
            },
            None => true,
        };
        if overflowed {
            proof {
                assert(dv(w@, start as int, j as int + 1) > cap);
                lemma_dv_mono(w@, start as int, j as int + 1, n as int);
            }
            return Err(WofError::Parse);
        }
        j = j + 1;
    }
    if neg {
        if acc == 9223372036854775808 {
            Ok(i64::MIN)
        } else {
            Ok(-(acc as i64))
        }
    } else {
        Ok(acc as i64)
    }
}

/// The position of the dot in a float-shaped text.
pub open spec fn spec_float_dot(w: Seq<char>) -> int {
    choose|d: int| float_shape(w, num_start(w), d)
}

/// The whole-number part of a float-shaped text.
pub open spec fn spec_float_whole(w: Seq<char>) -> int {
    dv(w, num_start(w), spec_float_dot(w))
}

/// The value a float-shaped text denotes, as a count of billionths:
/// fraction digits past the ninth carry no weight.
pub open spec fn spec_float_nanos(w: Seq<char>) -> int {
    let d = spec_float_dot(w);
    let fs = d + 1;
    let fe = if w.len() > fs + 9 {
        fs + 9
    } else {
        w.len() as int
    };
    let mag = spec_float_whole(w) * 1000000000 + dv(w, fs, fe) * pow10(9 - (fe - fs));
    if w[0] == '-' {
        -mag
    } else {
        mag
    }
}

/// Parse a float-shaped text into a count of billionths. The count comes
/// back exactly when the whole part fits a signed 64-bit integer;
/// anything larger is a parse error.
pub fn parse_float_text(w: &str) -> (r: Result<i128, WofError>)
    requires
        is_float_text(w@),
    ensures
        match r {
            Ok(v) => spec_float_whole(w@) <= i64::MAX
                && v as int == spec_float_nanos(w@),
            Err(e) => e == WofError::Parse && spec_float_whole(w@) > i64::MAX,
        },
{
    let n = w.unicode_len();
    let neg = w.get_char(0) == '-';
    let start: usize = if neg { 1 } else { 0 };
    // find the dot
    let mut dot: usize = start;
    while dot < n && w.get_char(dot) != '.'
        invariant
            start <= dot <= n,
            n == w@.len(),
            start as int == num_start(w@),
            is_float_text(w@),
            forall|k: int| start <= k < dot ==> w@[k] != '.',
        decreases n - dot,
    {
        dot = dot + 1;
    }
    proof {
        let dd = choose|d: int| float_shape(w@, num_start(w@), d);
        assert(float_shape(w@, num_start(w@), dd));
        if dot == n || w@[dot as int] != '.' {
            assert(w@[dd] == '.');
            assert(false);
        }
        assert(float_shape(w@, num_start(w@), dd));
        if dd != dot as int {
            if dd < dot as int {
                assert(w@[dd] != '.');
            } else {
                assert(is_digit(w@[dot as int]));
            }
            assert(false);
        }
        assert(spec_float_dot(w@) == dot as int);
    }
    // whole part
    let mut acc: u64 = 0;
    let mut j = start;
    while j < n && j < dot
        invariant
            start <= j <= dot <= n,
            n == w@.len(),
            start as int == num_start(w@),
            spec_float_dot(w@) == dot as int,
            float_shape(w@, start as int, dot as int),
            acc as int == dv(w@, start as int, j as int),
            acc <= 9223372036854775807,
        decreases n - j,
    {
        let d = (w.get_char(j) as u32 - 48) as u64;
        let overflowed: bool = match acc.checked_mul(10) {
            Some(x) => match x.checked_add(d) {
                Some(y) => {
                    if y > 9223372036854775807 {
                        true
                    } else {
                        acc = y;
                        false
                    }
                },
                None => true,
            },
            None => true,
        };
        if overflowed {
            proof {
                assert(dv(w@, start as int, j as int + 1) > i64::MAX);
                lemma_dv_mono(w@, start as int, j as int + 1, dot as int);
            }
            return Err(WofError::Parse);
        }
        j = j + 1;
    }
    // fraction part: at most nine digits carry weight
    let fs = dot + 1;
    let fe = if n > fs && n - fs > 9 {
        fs + 9
    } else {
        n
    };
    let mut fr: u64 = 0;
    let mut k = fs;
    proof {
        if fs <= n {
            lemma_dv_bound(w@, fs as int, fs as int);
        }
    }
    while k < fe
        invariant
            fs <= k <= fe <= n,
            fe as int == if w@.len() > fs + 9 { fs as int + 9 } else { w@.len() as int },
            n == w@.len(),
            dot as int + 1 == fs,
            float_shape(w@, num_start(w@), dot as int),
            start as int == num_start(w@),
            fr as int == dv(w@, fs as int, k as int),
            (fr as int) < pow10(k as int - fs as int),
            k - fs <= 9,
        decreases fe - k,
    {
        let d = (w.get_char(k) as u32 - 48) as u64;
        proof {
            lemma_pow10_bound(k as int - fs as int);
            assert(fr * 10 + d < pow10(k as int - fs as int + 1)) by (nonlinear_arith)
                requires
                    fr < pow10(k as int - fs as int),
                    d <= 9,
                    pow10(k as int - fs as int + 1) == 10 * pow10(k as int - fs as int),
            {}
        }
        fr = fr * 10 + d;
        k = k + 1;
    }
    // scale the fraction up to billionths
    let missing = 9 - (fe - fs);
    let mut sc: u64 = 1;
    let mut t: usize = 0;
    while t < missing
        invariant
            t <= missing <= 9,
            sc as int == pow10(t as int),
            sc <= 1000000000,
        decreases missing - t,
    {
        proof {
            lemma_pow10_bound(t as int + 1);
        }
        sc = sc * 10;
        t = t + 1;
    }
    proof {
        lemma_pow10_bound(missing as int);
        lemma_pow10_bound(9 - missing as int);
        lemma_pow10_add(fe as int - fs as int, missing as int);
        assert(pow10(9) == 1000000000) by {
            reveal_with_fuel(pow10, 11);
        }
        assert(fr * sc < 1000000000) by (nonlinear_arith)
            requires
                fr < pow10(fe as int - fs as int),
                sc == pow10(missing as int),
                pow10(fe as int - fs as int) * pow10(missing as int) == pow10(9),
                pow10(9) == 1000000000,
                sc >= 1,
        {}
        assert(acc as i128 * 1000000000 <= 9223372036854775807i128 * 1000000000) by (nonlinear_arith)
            requires
                0 <= acc as i128 <= 9223372036854775807i128,
        {}
    }
    let frac = fr * sc;
    let mag: i128 = (acc as i128) * 1000000000 + (frac as i128);
    if neg {
        Ok(-mag)
    } else {
        Ok(mag)
    }
}

/// A smaller exponent gives a power of ten no larger.
proof fn lemma_pow10_le(a: int, b: int)
    requires
        a <= b,
    ensures
        1 <= pow10(a) <= pow10(b),
    decreases b - a,
{
    if a < b {
        lemma_pow10_le(a, b - 1);
    } else {
        lemma_pow10_le_one(a);
    }
}

/// Every power of ten is at least one.
proof fn lemma_pow10_le_one(k: int)
    ensures
        pow10(k) >= 1,
    decreases k,
{
    if k > 0 {
        lemma_pow10_le_one(k - 1);
    }
}

/// Ten to a small power stays small.
proof fn lemma_pow10_bound(k: int)
    requires
        k <= 9,
    ensures
        1 <= pow10(k) <= 1000000000,
{
    assert(pow10(9) == 1000000000) by {
        reveal_with_fuel(pow10, 11);
    }
    lemma_pow10_le(k, 9);
}

/// The character an escape pair `\c` denotes.
pub open spec fn esc_char(c: char) -> char {
    if c == 'n' {
        '\n'
    } else if c == 't' {
        '\t'
    } else if c == 'r' {
        '\r'
    } else {
        c
    }
}

/// The decoded characters of `w[i..end)`: a backslash and the character
/// after it become one character; a trailing lone backslash stays.
pub open spec fn spec_unescape_from(w: Seq<char>, i: int, end: int) -> Seq<char>
    decreases end - i,
{
    if i < 0 || i >= end {
        Seq::empty()
    } else if w[i] == '\\' && i + 1 < end {
        seq![esc_char(w[i + 1])] + spec_unescape_from(w, i + 2, end)
    } else {
        seq![w[i]] + spec_unescape_from(w, i + 1, end)
    }
}

/// The text a string literal denotes: delimiting quotes stripped, escape
/// pairs decoded.
pub open spec fn spec_decode_string(w: Seq<char>) -> Seq<char> {
    let qs: int = if w.len() > 0 && w[0] == '"' {
        1
    } else {
        0
    };
    let qe: int = if w.len() > qs && w[w.len() - 1] == '"' {
        w.len() - 1
    } else {
        w.len() as int
    };
    spec_unescape_from(w, qs, qe)
}

/// Decode a string literal: strip the delimiting quotes and decode the
/// backslash escapes for newline, tab and carriage return; a backslash
/// before any other character keeps that character.
pub fn parse_string_literal(text: &str) -> (r: String)
    ensures
        r@ == spec_decode_string(text@),
{
    let n = text.unicode_len();
    let qs: usize = if n > 0 && text.get_char(0) == '"' {
        1
    } else {
        0
    };
    let qe: usize = if n > qs && text.get_char(n - 1) == '"' {
        n - 1
    } else {
        n
    };
    let mut out = String::new();
    let mut i = qs;
    while i < qe
        invariant
            qs <= n,
            qe <= n,
            i >= qs,
            i <= qe || qe < qs,
            n == text@.len(),
            spec_decode_string(text@) == out@ + spec_unescape_from(text@, i as int, qe as int),
        decreases qe - i,
    {
        let c = text.get_char(i);
        if c == '\\' && i + 1 < qe {
            let e = text.get_char(i + 1);
            let ghost pre = out@;
            if e == 'n' {
                out.append("\n");
                proof {
                    reveal_strlit("\n");
                    assert(out@ =~~= pre + seq![esc_char(e)]);
                }
            } else if e == 't' {
                out.append("\t");
                proof {
                    reveal_strlit("\t");
                    assert(out@ =~~= pre + seq![esc_char(e)]);
                }
            } else if e == 'r' {
                out.append("\r");
                proof {
                    reveal_strlit("\r");
                    assert(out@ =~~= pre + seq![esc_char(e)]);
                }
            } else {
                let sub = text.substring_char(i + 1, i + 2);
                out.append(sub);
                proof {
                    assert(out@ =~~= pre + seq![esc_char(e)]);
                }
            }
            proof {
                assert(out@ + spec_unescape_from(text@, i as int + 2, qe as int)
                    =~~= pre + spec_unescape_from(text@, i as int, qe as int));
            }
            i = i + 2;
        } else {
            let sub = text.substring_char(i, i + 1);
            let ghost pre = out@;
            out.append(sub);
            proof {
                assert(out@ =~~= pre + seq![text@[i as int]]);
                assert(out@ + spec_unescape_from(text@, i as int + 1, qe as int)
                    =~~= pre + spec_unescape_from(text@, i as int, qe as int));
            }
            i = i + 1;
        }
    }
    out
}

/// A token whose kind promises a numeric shape really has that shape.
pub open spec fn token_wf(t: TokenModel) -> bool {
    &&& (t.kind == TokenKind::Integer ==> is_int_text(t.text))
    &&& (t.kind == TokenKind::Float ==> is_float_text(t.text))
}

/// Every token the tokenizer yields is well formed.
pub proof fn lemma_tokenize_wf(s: Seq<char>, i: int)
    ensures
        forall|k: int| 0 <= k < spec_tokenize_from(s, i).len()
            ==> #[trigger] token_wf(spec_tokenize_from(s, i)[k]),
    decreases s.len() - i,
{
    if i < 0 || i >= s.len() {
        assert(spec_tokenize_from(s, i).len() == 0);
    } else if is_ws(s[i]) {
        lemma_tokenize_wf(s, i + 1);
        assert(spec_tokenize_from(s, i) == spec_tokenize_from(s, i + 1));
    } else {
        let raw = if s[i] == '"' {
            spec_str_end(s, i + 1)
        } else {
            spec_scan_ws(s, i + 1)
        };
        let end = if i < raw <= s.len() {
            raw
        } else {
            i + 1
        };
        lemma_tokenize_wf(s, end);
        assert(token_wf(spec_mk_token(s.subrange(i, end))));
        assert forall|k: int| 0 <= k < spec_tokenize_from(s, i).len()
            implies #[trigger] token_wf(spec_tokenize_from(s, i)[k]) by {
            if k > 0 {
                assert(spec_tokenize_from(s, i)[k] == spec_tokenize_from(s, end)[k - 1]);
            }
        }
    }
}

/// The first position in `w` that is not an at sign, or the end.
pub open spec fn spec_scan_at(w: Seq<char>, j: int) -> int
    decreases w.len() - j,
{
    if j < 0 || j >= w.len() {
        w.len() as int
    } else if w[j] == '@' {
        spec_scan_at(w, j + 1)
    } else {
        j
    }
}

/// The symbol text a label reference pushes: one at sign, then the name
/// with every leading at sign stripped.
pub open spec fn spec_labelref_text(w: Seq<char>) -> Seq<char> {
    seq!['@'] + w.skip(spec_scan_at(w, 0))
}

/// Normalize a label reference: however many at signs the token started
/// with, the pushed symbol has exactly one.
pub fn labelref_symbol_text(text: &str) -> (r: String)
    ensures
        r@ == spec_labelref_text(text@),
{
    let n = text.unicode_len();
    let mut i: usize = 0;
    while i < n && text.get_char(i) == '@'
        invariant
            i <= n,
            n == text@.len(),
            spec_scan_at(text@, 0) == spec_scan_at(text@, i as int),
        decreases n - i,
    {
        i = i + 1;
    }
    let mut out = String::from_str("@");
    let rest = text.substring_char(i, n);
    out.append(rest);
    proof {
        reveal_strlit("@");
        if i < n {
            assert(text@[i as int] != '@');
        }
        assert(spec_scan_at(text@, i as int) == i as int);
        assert(out@ =~~= seq!['@'] + text@.skip(i as int));
    }
    out
}

} // verus!

