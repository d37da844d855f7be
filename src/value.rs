use vstd::prelude::*;
use crate::error::{ErrorKind, Failure, ParseError};
use crate::lexer::{is_ordinary, keyword_at, loop_keyword, matches_at, ordinary, save_keyword};
use vstd::slice::slice_subrange;
use crate::position::{
    chars_of, in_class, is_break, is_digit, lemma_run_end, run_end, scan, text_between, CharClass,
    Position,
};

verus! {

/// A decimal number exactly as written: sign, the digits before and after the point, and
/// the exponent's sign and digits (no digits: no exponent). Its value is
/// ±(integer + fraction / 10^|fraction|) × 10^(±exponent).
#[derive(Debug, PartialEq)]
pub struct Number {
    pub negative: bool,
    pub integer: Vec<u8>,
    pub fraction: Vec<u8>,
    pub exponent_negative: bool,
    pub exponent: Vec<u8>,
}

pub struct NumberView {
    pub negative: bool,
    pub integer: Seq<u8>,
    pub fraction: Seq<u8>,
    pub exponent_negative: bool,
    pub exponent: Seq<u8>,
}

impl View for Number {
    type V = NumberView;

    open spec fn view(&self) -> NumberView {
        NumberView {
            negative: self.negative,
            integer: self.integer@,
            fraction: self.fraction@,
            exponent_negative: self.exponent_negative,
            exponent: self.exponent@,
        }
    }
}

/// The value of a sequence of decimal digits, most significant first.
pub open spec fn seq_value(ds: Seq<u8>) -> nat
    decreases ds.len(),
{
    if ds.len() == 0 {
        0
    } else {
        seq_value(ds.drop_last()) * 10 + ds.last() as nat
    }
}

pub open spec fn pow10(n: nat) -> nat
    decreases n,
{
    if n == 0 {
        1
    } else {
        10 * pow10((n - 1) as nat)
    }
}

impl NumberView {
    pub open spec fn sign(self) -> int {
        if self.negative {
            -1
        } else {
            1
        }
    }

    /// All digits read as one integer, with the sign.
    pub open spec fn mantissa(self) -> int {
        self.sign() * seq_value(self.integer + self.fraction)
    }

    /// The power of ten that the mantissa is to be multiplied by.
    pub open spec fn scale(self) -> int {
        (if self.exponent_negative {
            -1
        } else {
            1
        }) * seq_value(self.exponent) - self.fraction.len()
    }
}

/// One value of a data item or a loop.
#[derive(Debug, PartialEq)]
pub enum Value {
    Inapplicable,
    Unknown,
    Numeric(Number),
    NumericWithUncertainty(Number, u32),
    Text(String),
}

pub enum ValueView {
    Inapplicable,
    Unknown,
    Numeric(NumberView),
    NumericWithUncertainty(NumberView, u32),
    Text(Seq<char>),
}

impl View for Value {
    type V = ValueView;

    open spec fn view(&self) -> ValueView {
        match self {
            Value::Inapplicable => ValueView::Inapplicable,
            Value::Unknown => ValueView::Unknown,
            Value::Numeric(n) => ValueView::Numeric(n@),
            Value::NumericWithUncertainty(n, u) => ValueView::NumericWithUncertainty(n@, *u),
            Value::Text(t) => ValueView::Text(t@),
        }
    }
}

// The numeric grammar, on a token `t`:
// sign? digits? ('.' digits?)? ([eE] sign? digits)? ('(' digits ')')?
// with digits before or after the point.
pub open spec fn digits_end(t: Seq<char>, i: int) -> int {
    run_end(t, i, CharClass::Digit)
}

pub open spec fn int_start(t: Seq<char>) -> int {
    if t.len() > 0 && (t[0] == '-' || t[0] == '+') {
        1
    } else {
        0
    }
}

pub open spec fn int_end(t: Seq<char>) -> int {
    digits_end(t, int_start(t))
}

pub open spec fn has_point(t: Seq<char>) -> bool {
    int_end(t) < t.len() && t[int_end(t)] == '.'
}

pub open spec fn frac_start(t: Seq<char>) -> int {
    if has_point(t) {
        int_end(t) + 1
    } else {
        int_end(t)
    }
}

pub open spec fn frac_end(t: Seq<char>) -> int {
    if has_point(t) {
        digits_end(t, frac_start(t))
    } else {
        frac_start(t)
    }
}

pub open spec fn has_exponent(t: Seq<char>) -> bool {
    frac_end(t) < t.len() && (t[frac_end(t)] == 'e' || t[frac_end(t)] == 'E')
}

pub open spec fn exp_signed(t: Seq<char>) -> bool {
    has_exponent(t) && frac_end(t) + 1 < t.len() && (t[frac_end(t) + 1] == '-' || t[frac_end(t)
        + 1] == '+')
}

pub open spec fn exp_start(t: Seq<char>) -> int {
    if exp_signed(t) {
        frac_end(t) + 2
    } else if has_exponent(t) {
        frac_end(t) + 1
    } else {
        frac_end(t)
    }
}

pub open spec fn exp_end(t: Seq<char>) -> int {
    if has_exponent(t) {
        digits_end(t, exp_start(t))
    } else {
        exp_start(t)
    }
}

pub open spec fn has_uncertainty(t: Seq<char>) -> bool {
    exp_end(t) < t.len() && t[exp_end(t)] == '('
}

pub open spec fn unc_start(t: Seq<char>) -> int {
    exp_end(t) + 1
}

pub open spec fn unc_end(t: Seq<char>) -> int {
    digits_end(t, unc_start(t))
}

/// The values of the digit characters of `s`.
pub open spec fn digit_values(s: Seq<char>) -> Seq<u8> {
    s.map_values(|c: char| ((c as u32) - ('0' as u32)) as u8)
}

pub open spec fn uncertainty_of(t: Seq<char>) -> nat {
    seq_value(digit_values(t.subrange(unc_start(t), unc_end(t))))
}

/// The token matches the numeric grammar in full, and its uncertainty, if any, fits in
/// a `u32`.
pub open spec fn is_numeric(t: Seq<char>) -> bool {
    &&& int_end(t) > int_start(t) || frac_end(t) > frac_start(t)
    &&& has_exponent(t) ==> exp_end(t) > exp_start(t)
    &&& if has_uncertainty(t) {
        &&& unc_end(t) > unc_start(t)
        &&& unc_end(t) + 1 == t.len()
        &&& t[unc_end(t)] == ')'
        &&& uncertainty_of(t) <= u32::MAX
    } else {
        exp_end(t) == t.len()
    }
}

pub open spec fn number_of(t: Seq<char>) -> NumberView {
    NumberView {
        negative: t.len() > 0 && t[0] == '-',
        integer: digit_values(t.subrange(int_start(t), int_end(t))),
        fraction: digit_values(t.subrange(frac_start(t), frac_end(t))),
        exponent_negative: exp_signed(t) && t[frac_end(t) + 1] == '-',
        exponent: digit_values(t.subrange(exp_start(t), exp_end(t))),
    }
}

/// The value of a bare token: a number where it matches the numeric grammar, else the
/// token as text.
pub open spec fn value_of_token(t: Seq<char>) -> ValueView {
    if is_numeric(t) {
        if has_uncertainty(t) {
            ValueView::NumericWithUncertainty(number_of(t), uncertainty_of(t) as u32)
        } else {
            ValueView::Numeric(number_of(t))
        }
    } else {
        ValueView::Text(t)
    }
}

pub proof fn lemma_seq_value_append(a: Seq<u8>, b: Seq<u8>)
    ensures
        seq_value(a + b) == seq_value(a) * pow10(b.len()) + seq_value(b),
    decreases b.len(),
{
    if b.len() == 0 {
        assert(a + b =~= a);
        assert(pow10(0) == 1);
        assert(seq_value(a) * 1 == seq_value(a));
    } else {
        assert((a + b).drop_last() =~= a + b.drop_last());
        assert((a + b).last() == b.last());
        lemma_seq_value_append(a, b.drop_last());
        let p = pow10((b.len() - 1) as nat);
        let va = seq_value(a);
        let vd = seq_value(b.drop_last());
        assert(seq_value(a + b) == (va * p + vd) * 10 + b.last() as nat);
        assert((va * p + vd) * 10 == va * (10 * p) + vd * 10) by (nonlinear_arith);
        assert(pow10(b.len()) == 10 * p);
        assert(seq_value(b) == vd * 10 + b.last() as nat);
        assert(va * (10 * p) == va * pow10(b.len()));
    }
}

/// The number that a numeric token yields is the token's value: its mantissa is
/// sign × (integer digits × 10^k + fraction digits), k the number of fraction digits, and
/// it scales by the token's exponent less k. A token that is not numeric yields itself as
/// text.
pub proof fn numeric_value_law(t: Seq<char>)
    ensures
        is_numeric(t) ==> ({
            let n = number_of(t);
            let k = n.fraction.len();
            &&& n.mantissa() == n.sign() * (seq_value(n.integer) * pow10(k) + seq_value(
                n.fraction,
            ))
            &&& n.scale() == (if n.exponent_negative {
                -1
            } else {
                1
            }) * seq_value(n.exponent) - k
            &&& n.integer == digit_values(t.subrange(int_start(t), int_end(t)))
            &&& n.fraction == digit_values(t.subrange(frac_start(t), frac_end(t)))
        }),
        !is_numeric(t) ==> value_of_token(t) == ValueView::Text(t),
{
    let n = number_of(t);
    lemma_seq_value_append(n.integer, n.fraction);
}

pub proof fn lemma_seq_value_prefix(ds: Seq<u8>, j: int)
    requires
        0 <= j <= ds.len(),
    ensures
        seq_value(ds.take(j)) <= seq_value(ds),
    decreases ds.len(),
{
    if j < ds.len() {
        assert(ds.drop_last().take(j) =~= ds.take(j));
        lemma_seq_value_prefix(ds.drop_last(), j);
    } else {
        assert(ds.take(j) =~= ds);
    }
}

fn digit_vec(t: &[char], a: usize, b: usize) -> (r: Vec<u8>)
    requires
        a <= b <= t@.len(),
        forall|j: int| a <= j < b ==> is_digit(#[trigger] t@[j]),
    ensures
        r@ == digit_values(t@.subrange(a as int, b as int)),
{
    let mut v: Vec<u8> = Vec::new();
    let mut j: usize = a;
    while j < b
        invariant
            a <= j <= b <= t@.len(),
            forall|m: int| a <= m < b ==> is_digit(#[trigger] t@[m]),
            v@ == digit_values(t@.subrange(a as int, j as int)),
        decreases b - j,
    {
        let c = t[j];
        assert(is_digit(t@[j as int]));
        v.push(((c as u32) - ('0' as u32)) as u8);
        j += 1;
        assert(digit_values(t@.subrange(a as int, j as int)) =~= v@);
    }
    v
}

/// The value of the digits of `t` from `a` to `b`, where it fits in a `u32`.
fn digits_to_u32(t: &[char], a: usize, b: usize) -> (r: Option<u32>)
    requires
        a <= b <= t@.len(),
        forall|j: int| a <= j < b ==> is_digit(#[trigger] t@[j]),
    ensures
        r is Some <==> seq_value(digit_values(t@.subrange(a as int, b as int))) <= u32::MAX,
        r is Some ==> r->0 == seq_value(digit_values(t@.subrange(a as int, b as int))),
{
    let ghost all = digit_values(t@.subrange(a as int, b as int));
    let mut acc: u64 = 0;
    let mut j: usize = a;
    while j < b
        invariant
            a <= j <= b <= t@.len(),
            forall|m: int| a <= m < b ==> is_digit(#[trigger] t@[m]),
            all == digit_values(t@.subrange(a as int, b as int)),
            acc == seq_value(digit_values(t@.subrange(a as int, j as int))),
            acc <= u32::MAX,
        decreases b - j,
    {
        let c = t[j];
        assert(is_digit(t@[j as int]));
        let d = ((c as u32) - ('0' as u32)) as u64;
        acc = acc * 10 + d;
        j += 1;
        assert(digit_values(t@.subrange(a as int, j as int)).drop_last() =~= digit_values(
            t@.subrange(a as int, (j - 1) as int),
        ));
        assert(digit_values(t@.subrange(a as int, j as int)) =~= all.take(j - a));
        if acc > 4294967295 {
            proof {
                lemma_seq_value_prefix(all, j - a);
            }
            return None;
        }
    }
    assert(digit_values(t@.subrange(a as int, j as int)) =~= all);
    Some(acc as u32)
}

/// Reads a bare token as a number, or gives `None` where it does not match the numeric
/// grammar in full.
#[verifier::rlimit(100)]
pub fn numeric_of_chars(t: &[char]) -> (r: Option<Value>)
    ensures
        r is Some <==> is_numeric(t@),
        r is Some ==> r->0@ == value_of_token(t@),
{
    let len = t.len();
    let ghost s = t@;
    let i0: usize = if len > 0 && (t[0] == '-' || t[0] == '+') {
        1
    } else {
        0
    };
    let negative = len > 0 && t[0] == '-';
    let i1 = scan(t, i0, CharClass::Digit);
    proof {
        lemma_run_end(s, i0 as int, CharClass::Digit);
    }
    let point = i1 < len && t[i1] == '.';
    let f0: usize = if point {
        i1 + 1
    } else {
        i1
    };
    let f1 = if point {
        scan(t, f0, CharClass::Digit)
    } else {
        f0
    };
    proof {
        lemma_run_end(s, f0 as int, CharClass::Digit);
    }
    let exponent = f1 < len && (t[f1] == 'e' || t[f1] == 'E');
    let signed = exponent && f1 + 1 < len && (t[f1 + 1] == '-' || t[f1 + 1] == '+');
    let exponent_negative = signed && t[f1 + 1] == '-';
    let e0: usize = if signed {
        f1 + 2
    } else if exponent {
        f1 + 1
    } else {
        f1
    };
    let e1 = if exponent {
        scan(t, e0, CharClass::Digit)
    } else {
        e0
    };
    proof {
        lemma_run_end(s, e0 as int, CharClass::Digit);
    }
    assert(i0 == int_start(s) && i1 == int_end(s) && point == has_point(s));
    assert(f0 == frac_start(s) && f1 == frac_end(s) && exponent == has_exponent(s));
    assert(signed == exp_signed(s) && e0 == exp_start(s) && e1 == exp_end(s));
    if i1 == i0 && f1 == f0 {
        return None;
    }
    if exponent && e1 == e0 {
        return None;
    }
    let uncertain = e1 < len && t[e1] == '(';
    let mut uncertainty: u32 = 0;
    if uncertain {
        let u0 = e1 + 1;
        let u1 = scan(t, u0, CharClass::Digit);
        proof {
            lemma_run_end(s, u0 as int, CharClass::Digit);
        }
        if u1 == u0 || u1 >= len || t[u1] != ')' || u1 + 1 != len {
            return None;
        }
        match digits_to_u32(t, u0, u1) {
            Some(u) => {
                uncertainty = u;
            },
            None => {
                return None;
            },
        }
    } else if e1 != len {
        return None;
    }
    let number = Number {
        negative,
        integer: digit_vec(t, i0, i1),
        fraction: digit_vec(t, f0, f1),
        exponent_negative,
        exponent: digit_vec(t, e0, e1),
    };
    if uncertain {
        Some(Value::NumericWithUncertainty(number, uncertainty))
    } else {
        Some(Value::Numeric(number))
    }
}

/// Reads `text` as a number, or gives `None` where it does not match the numeric grammar
/// in full.
pub fn parse_numeric(text: &str) -> (r: Option<Value>)
    ensures
        r is Some <==> is_numeric(text@),
        r is Some ==> r->0@ == value_of_token(text@),
{
    let t = chars_of(text);
    numeric_of_chars(t.as_slice())
}

/// A quoted string from `i`, where the quote stands: its content up to the same quote on
/// the same line, the rest of the text where the text ends first, or a failure at a line
/// break.
pub open spec fn enclosed_spec(s: Seq<char>, i: int) -> Result<(Seq<char>, int), Failure> {
    let q = s[i];
    let j = run_end(s, i + 1, CharClass::Quoted(q));
    if j >= s.len() {
        Ok((s.subrange(i, s.len() as int), s.len() as int))
    } else if s[j] == q {
        Ok((s.subrange(i + 1, j), j + 1))
    } else {
        Err(Failure { kind: ErrorKind::UnterminatedQuotedString, start: i, end: j + 1 })
    }
}

/// The first `;` from `j` on that starts a line, or the end of the text.
pub open spec fn multiline_close(s: Seq<char>, j: int) -> int
    decreases s.len() - j,
{
    if !(0 < j < s.len()) {
        s.len() as int
    } else if s[j] == ';' && is_break(s[j - 1]) {
        j
    } else {
        multiline_close(s, j + 1)
    }
}

pub proof fn lemma_multiline_close(s: Seq<char>, j: int)
    requires
        0 < j <= s.len(),
    ensures
        j <= multiline_close(s, j) <= s.len(),
        multiline_close(s, j) < s.len() ==> s[multiline_close(s, j)] == ';',
    decreases s.len() - j,
{
    if j < s.len() && !(s[j] == ';' && is_break(s[j - 1])) {
        lemma_multiline_close(s, j + 1);
    }
}

/// A text field from `i`, where its `;` stands: the text up to the next line that starts
/// with `;`, or the rest of the text where there is none.
pub open spec fn multiline_spec(s: Seq<char>, i: int) -> (Seq<char>, int) {
    let c = multiline_close(s, i + 1);
    if c >= s.len() {
        (s.subrange(i, s.len() as int), s.len() as int)
    } else {
        (s.subrange(i + 1, c), c + 1)
    }
}

/// A bare token at `i` that is no value: `loop_` alone, or `save_` (a frame's close, or
/// with a name its opening), in any ASCII case.
pub open spec fn reserved_at(s: Seq<char>, i: int) -> bool {
    keyword_at(s, i, save_keyword()) || (keyword_at(s, i, loop_keyword()) && run_end(
        s,
        i + 5,
        CharClass::NonSpace,
    ) == i + 5)
}

/// The value that starts at `i`, and where it ends.
pub open spec fn value_spec(s: Seq<char>, i: int) -> Result<(ValueView, int), Failure> {
    if !(0 <= i < s.len()) {
        Err(Failure { kind: ErrorKind::EmptyValue, start: i, end: i })
    } else if s[i] == '.' {
        Ok((ValueView::Inapplicable, i + 1))
    } else if s[i] == '?' {
        Ok((ValueView::Unknown, i + 1))
    } else if s[i] == '\'' || s[i] == '"' {
        match enclosed_spec(s, i) {
            Ok((t, e)) => Ok((ValueView::Text(t), e)),
            Err(f) => Err(f),
        }
    } else if s[i] == ';' {
        Ok((ValueView::Text(multiline_spec(s, i).0), multiline_spec(s, i).1))
    } else if ordinary(s[i]) && !reserved_at(s, i) {
        let e = run_end(s, i, CharClass::NonSpace);
        Ok((value_of_token(s.subrange(i, e)), e))
    } else {
        Err(Failure { kind: ErrorKind::InvalidValueStart, start: i, end: i })
    }
}

/// A value that is read consumes at least one character.
pub proof fn lemma_value_progress(s: Seq<char>, i: int)
    requires
        0 <= i <= s.len(),
    ensures
        value_spec(s, i) is Ok ==> i < value_spec(s, i)->Ok_0.1 <= s.len(),
{
    if 0 <= i < s.len() {
        lemma_run_end(s, i + 1, CharClass::Quoted(s[i]));
        lemma_run_end(s, i, CharClass::NonSpace);
        lemma_multiline_close(s, i + 1);
    }
}

/// Reads a string enclosed by `pat`, which stands at the cursor. On a line break before the
/// closing quote it fails and leaves the cursor where it was.
pub fn parse_enclosed(input: &mut Position, pat: char) -> (r: Result<String, ParseError>)
    requires
        old(input).wf(),
        old(input).offset < old(input).text.len(),
        old(input).text@[old(input).offset as int] == pat,
        pat == '\'' || pat == '"',
    ensures
        final(input).wf(),
        final(input).text@ == old(input).text@,
        match enclosed_spec(old(input).text@, old(input).offset as int) {
            Ok((t, e)) => r is Ok && r->Ok_0@ == t && final(input).offset == e,
            Err(f) => r is Err && r->Err_0.describes(old(input).text@, f) && final(input).offset
                == old(input).offset,
        },
{
    let ghost s = input.text@;
    let i = input.offset;
    let len = input.text.len();
    let j = scan(input.text.as_slice(), i + 1, CharClass::Quoted(pat));
    proof {
        lemma_run_end(s, i + 1, CharClass::Quoted(pat));
    }
    if j >= len {
        let t = text_between(&input.text, i, len);
        input.advance_to(len);
        Ok(t)
    } else if input.text[j] == pat {
        let t = text_between(&input.text, i + 1, j);
        input.advance_to(j + 1);
        Ok(t)
    } else {
        proof {
            assert forall|k: int| i <= k < j implies !is_break(#[trigger] s[k]) by {
                if k > i {
                    assert(in_class(s[k], CharClass::Quoted(pat)));
                }
            }
            assert(!is_break(s[j - 1]));
            crate::position::position_accounting(s, i as int, j as int);
            crate::position::position_accounting(s, j as int, j as int);
            crate::position::lemma_line_column_bounded(s, i as int);
        }
        let end = crate::position::Location { offset: j + 1, line: input.line + 1, column: 0 };
        Err(ParseError { kind: ErrorKind::UnterminatedQuotedString, start: input.location(), end })
    }
}

/// Reads a text field opened by the `;` at the cursor, up to a line that starts with `;`.
/// The result leaves out the delimiting semicolons; where no line starts with `;`, it is
/// the rest of the text.
pub fn parse_multiline_string(input: &mut Position) -> (r: String)
    requires
        old(input).wf(),
        old(input).offset < old(input).text.len(),
        old(input).text@[old(input).offset as int] == ';',
    ensures
        final(input).wf(),
        final(input).text@ == old(input).text@,
        r@ == multiline_spec(old(input).text@, old(input).offset as int).0,
        final(input).offset == multiline_spec(old(input).text@, old(input).offset as int).1,
{
    let ghost s = input.text@;
    let i = input.offset;
    let len = input.text.len();
    let mut j: usize = i + 1;
    while j < len && !(input.text[j] == ';' && (input.text[j - 1] == '\n' || input.text[j - 1]
        == '\r'))
        invariant
            input.wf(),
            s == input.text@,
            len == s.len(),
            i < len,
            i + 1 <= j <= len,
            multiline_close(s, i + 1) == multiline_close(s, j as int),
        decreases len - j,
    {
        j += 1;
    }
    if j >= len {
        let t = text_between(&input.text, i, len);
        input.advance_to(len);
        t
    } else {
        let t = text_between(&input.text, i + 1, j);
        input.advance_to(j + 1);
        t
    }
}

fn is_reserved(text: &[char], i: usize) -> (r: bool)
    requires
        i < text@.len(),
    ensures
        r == reserved_at(text@, i as int),
{
    proof {
        reveal_strlit("save_");
        reveal_strlit("loop_");
        assert("save_"@ =~= save_keyword());
        assert("loop_"@ =~= loop_keyword());
    }
    if matches_at(text, i, "save_") {
        return true;
    }
    let len = text.len();
    assert(len == text@.len());
    matches_at(text, i, "loop_") && scan(text, i + 5, CharClass::NonSpace) == i + 5
}

/// Reads one value: `.`, `?`, a quoted string, a text field, or a bare token (a number
/// where it matches the numeric grammar, else text). A bare `loop_` or a token that starts
/// with `save_` is no value. On failure the cursor stays where it was.
pub fn parse_value(input: &mut Position) -> (r: Result<Value, ParseError>)
    requires
        old(input).wf(),
    ensures
        final(input).wf(),
        final(input).text@ == old(input).text@,
        match value_spec(old(input).text@, old(input).offset as int) {
            Ok((v, e)) => r is Ok && r->Ok_0@ == v && final(input).offset == e,
            Err(f) => r is Err && r->Err_0.describes(old(input).text@, f) && final(input).offset
                == old(input).offset,
        },
{
    let ghost s = input.text@;
    let i = input.offset;
    if input.is_empty() {
        return Err(
            ParseError { kind: ErrorKind::EmptyValue, start: input.location(), end: input.location() },
        );
    }
    let c = input.text[i];
    if c == '.' {
        input.advance_to(i + 1);
        Ok(Value::Inapplicable)
    } else if c == '?' {
        input.advance_to(i + 1);
        Ok(Value::Unknown)
    } else if c == '\'' || c == '"' {
        match parse_enclosed(input, c) {
            Ok(t) => Ok(Value::Text(t)),
            Err(e) => Err(e),
        }
    } else if c == ';' {
        Ok(Value::Text(parse_multiline_string(input)))
    } else if is_ordinary(c) && !is_reserved(input.text.as_slice(), i) {
        let e = scan(input.text.as_slice(), i, CharClass::NonSpace);
        proof {
            lemma_run_end(s, i as int, CharClass::NonSpace);
        }
        let token = slice_subrange(input.text.as_slice(), i, e);
        let v = match numeric_of_chars(token) {
            Some(v) => v,
            None => Value::Text(text_between(&input.text, i, e)),
        };
        input.advance_to(e);
        Ok(v)
    } else {
        Err(
            ParseError {
                kind: ErrorKind::InvalidValueStart,
                start: input.location(),
                end: input.location(),
            },
        )
    }
}

} // verus!
