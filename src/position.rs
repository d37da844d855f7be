use vstd::prelude::*;
use vstd::slice::slice_subrange;

verus! {

/// A line break character: `\n` or `\r`.
pub open spec fn is_break(c: char) -> bool {
    c == '\n' || c == '\r'
}

/// What whitespace trimming removes: spaces, tabs and line breaks.
pub open spec fn is_blank(c: char) -> bool {
    c == ' ' || c == '\t' || is_break(c)
}

/// ASCII whitespace in the sense of `char::is_ascii_whitespace`.
pub open spec fn is_ascii_space(c: char) -> bool {
    c == ' ' || c == '\t' || c == '\n' || c == '\x0C' || c == '\r'
}

pub open spec fn is_digit(c: char) -> bool {
    '0' <= c && c <= '9'
}

/// The classes of characters that the lexer skips over in runs.
#[derive(Clone, Copy)]
pub enum CharClass {
    Blank,
    NonSpace,
    Digit,
    NonBreak,
    /// Neither the quote character given nor a line break.
    Quoted(char),
}

pub open spec fn in_class(c: char, k: CharClass) -> bool {
    match k {
        CharClass::Blank => is_blank(c),
        CharClass::NonSpace => !is_ascii_space(c),
        CharClass::Digit => is_digit(c),
        CharClass::NonBreak => !is_break(c),
        CharClass::Quoted(q) => c != q && !is_break(c),
    }
}

/// The end of the maximal run of characters of class `k` that starts at `i`.
pub open spec fn run_end(s: Seq<char>, i: int, k: CharClass) -> int
    decreases s.len() - i,
{
    if 0 <= i < s.len() && in_class(s[i], k) {
        run_end(s, i + 1, k)
    } else {
        i
    }
}

pub proof fn lemma_run_end(s: Seq<char>, i: int, k: CharClass)
    requires
        0 <= i <= s.len(),
    ensures
        i <= run_end(s, i, k) <= s.len(),
        forall|j: int| i <= j < run_end(s, i, k) ==> in_class(#[trigger] s[j], k),
        run_end(s, i, k) < s.len() ==> !in_class(s[run_end(s, i, k)], k),
    decreases s.len() - i,
{
    if i < s.len() && in_class(s[i], k) {
        lemma_run_end(s, i + 1, k);
    }
}

/// Whether the character at `j` ends a line; the `\n` of a `\r\n` pair does not.
pub open spec fn counts_line(s: Seq<char>, j: int) -> bool {
    is_break(s[j]) && !(s[j] == '\n' && j > 0 && s[j - 1] == '\r')
}

/// The line (from 0) at offset `k` of the document `s`.
pub open spec fn line_of(s: Seq<char>, k: int) -> nat
    decreases k,
{
    if k <= 0 {
        0
    } else {
        line_of(s, k - 1) + if counts_line(s, k - 1) {
            1nat
        } else {
            0nat
        }
    }
}

/// The column (from 0) at offset `k` of the document `s`.
pub open spec fn column_of(s: Seq<char>, k: int) -> nat
    decreases k,
{
    if k <= 0 {
        0
    } else if is_break(s[k - 1]) {
        0
    } else {
        column_of(s, k - 1) + 1
    }
}

pub proof fn lemma_line_column_bounded(s: Seq<char>, k: int)
    requires
        0 <= k,
    ensures
        line_of(s, k) <= k,
        column_of(s, k) <= k,
    decreases k,
{
    if k > 0 {
        lemma_line_column_bounded(s, k - 1);
    }
}

/// Consuming characters that are no line breaks moves the column by their number and
/// keeps the line; consuming one line break form (`\n`, `\r` or `\r\n`) moves to column 0
/// of the next line.
pub proof fn position_accounting(s: Seq<char>, a: int, b: int)
    requires
        0 <= a <= b <= s.len(),
    ensures
        (forall|j: int| a <= j < b ==> !is_break(#[trigger] s[j])) ==> line_of(s, b) == line_of(
            s,
            a,
        ) && column_of(s, b) == column_of(s, a) + (b - a),
        (a < s.len() && is_break(s[a]) && !(a > 0 && s[a - 1] == '\r' && s[a] == '\n'))
            ==> line_of(s, a + 1) == line_of(s, a) + 1 && column_of(s, a + 1) == 0,
        (a + 1 < s.len() && s[a] == '\r' && s[a + 1] == '\n') ==> line_of(s, a + 2) == line_of(
            s,
            a,
        ) + 1 && column_of(s, a + 2) == 0,
    decreases b - a,
{
    if b > a {
        position_accounting(s, a, b - 1);
    }
    if a + 1 < s.len() {
        assert(line_of(s, a + 2) == line_of(s, a + 1) + if counts_line(s, a + 1) {
            1nat
        } else {
            0nat
        });
    }
}

/// A place in a document: offset, line and column, each counted from 0.
#[derive(Clone, Copy, Debug, PartialEq, Eq)]
pub struct Location {
    pub offset: usize,
    pub line: usize,
    pub column: usize,
}

impl Location {
    pub open spec fn locates(&self, s: Seq<char>, k: int) -> bool {
        &&& self.offset == k
        &&& self.line == line_of(s, k)
        &&& self.column == column_of(s, k)
    }
}

/// A cursor into a document: the whole text, the offset of what remains, and the line
/// and column at that offset.
pub struct Position {
    pub text: Vec<char>,
    pub offset: usize,
    pub line: usize,
    pub column: usize,
}

/// Relies on `Iterator::collect` into `String` from `&char` items: the string holds the
/// given characters in order.
#[verifier::external_body]
pub(crate) fn string_of(cs: &[char]) -> (r: String)
    ensures
        r@ == cs@,
{
    cs.iter().collect()
}

/// The characters of `s`, in order.
pub fn chars_of(s: &str) -> (r: Vec<char>)
    ensures
        r@ == s@,
{
    let mut v: Vec<char> = Vec::new();
    for c in it: s.chars()
        invariant
            v@ == it.seq().take(it.index() as int),
            it.seq() == s@,
    {
        v.push(c);
    }
    assert(v@ =~= s@);
    v
}

/// The characters of `text` from `a` to `b` as a string.
pub(crate) fn text_between(text: &Vec<char>, a: usize, b: usize) -> (r: String)
    requires
        a <= b <= text.len(),
    ensures
        r@ == text@.subrange(a as int, b as int),
{
    string_of(slice_subrange(text.as_slice(), a, b))
}

pub fn class_contains(c: char, k: CharClass) -> (r: bool)
    ensures
        r == in_class(c, k),
{
    match k {
        CharClass::Blank => c == ' ' || c == '\t' || c == '\n' || c == '\r',
        CharClass::NonSpace => !(c == ' ' || c == '\t' || c == '\n' || c == '\x0C' || c == '\r'),
        CharClass::Digit => '0' <= c && c <= '9',
        CharClass::NonBreak => !(c == '\n' || c == '\r'),
        CharClass::Quoted(q) => c != q && !(c == '\n' || c == '\r'),
    }
}

/// The end of the maximal run of characters of class `k` in `text` that starts at `i`.
pub fn scan(text: &[char], i: usize, k: CharClass) -> (r: usize)
    requires
        i <= text@.len(),
    ensures
        r == run_end(text@, i as int, k),
{
    let mut j: usize = i;
    while j < text.len() && class_contains(text[j], k)
        invariant
            i <= j <= text@.len(),
            run_end(text@, i as int, k) == run_end(text@, j as int, k),
        decreases text@.len() - j,
    {
        j += 1;
    }
    j
}

impl Position {
    /// The cursor's fields agree: the offset lies in the text, and line and column are
    /// those of the offset.
    pub open spec fn wf(&self) -> bool {
        &&& self.offset <= self.text.len()
        &&& self.line == line_of(self.text@, self.offset as int)
        &&& self.column == column_of(self.text@, self.offset as int)
    }

    /// What remains of the document.
    pub open spec fn rest(&self) -> Seq<char> {
        self.text@.skip(self.offset as int)
    }

    /// A cursor at the start of `s`.
    pub fn new(s: &str) -> (r: Position)
        ensures
            r.wf(),
            r.text@ == s@,
            r.offset == 0,
    {
        Position { text: chars_of(s), offset: 0, line: 0, column: 0 }
    }

    /// What remains of the document, as a string.
    pub fn remaining(&self) -> (r: String)
        requires
            self.wf(),
        ensures
            r@ == self.rest(),
    {
        let r = text_between(&self.text, self.offset, self.text.len());
        assert(r@ =~= self.rest());
        r
    }

    pub fn is_empty(&self) -> (r: bool)
        requires
            self.wf(),
        ensures
            r == (self.offset == self.text.len()),
    {
        self.offset >= self.text.len()
    }

    /// Whether the next character is `c`.
    pub fn next_is(&self, c: char) -> (r: bool)
        requires
            self.wf(),
        ensures
            r == (self.offset < self.text.len() && self.text@[self.offset as int] == c),
    {
        self.offset < self.text.len() && self.text[self.offset] == c
    }

    pub fn location(&self) -> (r: Location)
        requires
            self.wf(),
        ensures
            r.locates(self.text@, self.offset as int),
    {
        Location { offset: self.offset, line: self.line, column: self.column }
    }

    /// Consumes the text up to offset `k`, counting lines and columns on the way.
    pub fn advance_to(&mut self, k: usize)
        requires
            old(self).wf(),
            old(self).offset <= k <= old(self).text.len(),
        ensures
            final(self).wf(),
            final(self).text@ == old(self).text@,
            final(self).offset == k,
    {
        while self.offset < k
            invariant
                self.wf(),
                self.text@ == old(self).text@,
                self.offset <= k <= self.text.len(),
            decreases k - self.offset,
        {
            proof {
                lemma_line_column_bounded(self.text@, self.offset as int);
            }
            let c = self.text[self.offset];
            if c == '\n' || c == '\r' {
                if !(c == '\n' && self.offset > 0 && self.text[self.offset - 1] == '\r') {
                    self.line = self.line + 1;
                }
                self.column = 0;
            } else {
                self.column = self.column + 1;
            }
            self.offset = self.offset + 1;
        }
    }
}

} // verus!
