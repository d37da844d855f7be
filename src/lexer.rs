use vstd::prelude::*;
use crate::position::{
    CharClass, is_blank, lemma_run_end, run_end, scan, text_between, Position,
};

verus! {

/// Where whitespace trimming from `i` stops.
pub open spec fn blank_end(s: Seq<char>, i: int) -> int {
    run_end(s, i, CharClass::Blank)
}

/// Where skipping the rest of the line from `i` stops: just past the first line break
/// form (`\r\n` counts as one), or at the end of the text.
pub open spec fn eol_end(s: Seq<char>, i: int) -> int {
    let e = run_end(s, i, CharClass::NonBreak);
    if e + 1 < s.len() && s[e] == '\r' && s[e + 1] == '\n' {
        e + 2
    } else if e < s.len() {
        e + 1
    } else {
        e
    }
}

pub proof fn lemma_eol_end(s: Seq<char>, i: int)
    requires
        0 <= i <= s.len(),
    ensures
        i <= eol_end(s, i) <= s.len(),
        i < s.len() ==> i < eol_end(s, i),
{
    lemma_run_end(s, i, CharClass::NonBreak);
}

/// Where trimming whitespace and comments from `i` stops.
pub open spec fn layout_end(s: Seq<char>, i: int) -> int
    decreases s.len() - i,
{
    if i < 0 || i > s.len() {
        i
    } else {
        let w = blank_end(s, i);
        proof {
            lemma_run_end(s, i, CharClass::Blank);
            lemma_eol_end(s, w);
        }
        if w < s.len() && s[w] == '#' {
            layout_end(s, eol_end(s, w))
        } else {
            w
        }
    }
}

pub proof fn lemma_layout_end(s: Seq<char>, i: int)
    requires
        0 <= i <= s.len(),
    ensures
        i <= layout_end(s, i) <= s.len(),
        layout_end(s, i) < s.len() ==> !is_blank(s[layout_end(s, i)]) && s[layout_end(s, i)]
            != '#',
    decreases s.len() - i,
{
    let w = blank_end(s, i);
    lemma_run_end(s, i, CharClass::Blank);
    lemma_eol_end(s, w);
    if w < s.len() && s[w] == '#' {
        lemma_layout_end(s, eol_end(s, w));
    }
}

/// Trimming is idempotent: trimming whitespace, or whitespace and comments, a second
/// time stops where the first trim stopped.
pub proof fn trim_idempotent(s: Seq<char>, i: int)
    requires
        0 <= i <= s.len(),
    ensures
        blank_end(s, blank_end(s, i)) == blank_end(s, i),
        layout_end(s, layout_end(s, i)) == layout_end(s, i),
{
    lemma_run_end(s, i, CharClass::Blank);
    lemma_layout_end(s, i);
    let k = layout_end(s, i);
    lemma_run_end(s, k, CharClass::Blank);
}

pub open spec fn lower_spec(c: char) -> char {
    if 'A' <= c && c <= 'Z' {
        ((c as u32) + 32) as char
    } else {
        c
    }
}

/// The text at `i` starts with `p`, ASCII letters of the text taken in lower case.
pub open spec fn keyword_at(s: Seq<char>, i: int, p: Seq<char>) -> bool {
    &&& 0 <= i
    &&& i + p.len() <= s.len()
    &&& forall|j: int| 0 <= j < p.len() ==> lower_spec(#[trigger] s[i + j]) == p[j]
}

pub open spec fn loop_keyword() -> Seq<char> {
    seq!['l', 'o', 'o', 'p', '_']
}

pub open spec fn save_keyword() -> Seq<char> {
    seq!['s', 'a', 'v', 'e', '_']
}

pub open spec fn data_keyword() -> Seq<char> {
    seq!['d', 'a', 't', 'a', '_']
}

/// A character that may start a bare value: printable ASCII but for `#$'"_[];`.
pub open spec fn ordinary(c: char) -> bool {
    &&& '!' <= c && c <= '~'
    &&& c != '#' && c != '$' && c != '\'' && c != '"' && c != '_' && c != '[' && c != ']'
        && c != ';'
}

pub fn to_lower(c: char) -> (r: char)
    ensures
        r == lower_spec(c),
{
    if 'A' <= c && c <= 'Z' {
        ((c as u8) + 32) as char
    } else {
        c
    }
}

pub fn is_ordinary(c: char) -> (r: bool)
    ensures
        r == ordinary(c),
{
    match c {
        '#' | '$' | '\'' | '"' | '_' | '[' | ']' | ';' | ' ' | '\t' => false,
        _ => '!' <= c && c <= '~',
    }
}

/// Removes the maximal run of spaces, tabs and line breaks.
pub fn trim_whitespace(input: &mut Position)
    requires
        old(input).wf(),
    ensures
        final(input).wf(),
        final(input).text@ == old(input).text@,
        final(input).offset == blank_end(old(input).text@, old(input).offset as int),
{
    let e = scan(input.text.as_slice(), input.offset, CharClass::Blank);
    proof {
        lemma_run_end(input.text@, input.offset as int, CharClass::Blank);
    }
    input.advance_to(e);
}

/// Skips the rest of the line, line break included.
pub fn skip_to_eol(input: &mut Position)
    requires
        old(input).wf(),
    ensures
        final(input).wf(),
        final(input).text@ == old(input).text@,
        final(input).offset == eol_end(old(input).text@, old(input).offset as int),
{
    let e = scan(input.text.as_slice(), input.offset, CharClass::NonBreak);
    proof {
        lemma_run_end(input.text@, input.offset as int, CharClass::NonBreak);
    }
    let len = input.text.len();
    let end = if e < len && len - e > 1 && input.text[e] == '\r' && input.text[e + 1] == '\n' {
        e + 2
    } else if e < len {
        e + 1
    } else {
        e
    };
    input.advance_to(end);
}

/// Removes whitespace and comments (a `#` up to the end of its line), in turn, until
/// neither is left at the start.
pub fn trim_comments_and_whitespace(input: &mut Position)
    requires
        old(input).wf(),
    ensures
        final(input).wf(),
        final(input).text@ == old(input).text@,
        final(input).offset == layout_end(old(input).text@, old(input).offset as int),
{
    loop
        invariant
            input.wf(),
            input.text@ == old(input).text@,
            layout_end(input.text@, old(input).offset as int) == layout_end(
                input.text@,
                input.offset as int,
            ),
        decreases input.text.len() - input.offset,
    {
        let ghost start = input.offset as int;
        trim_whitespace(input);
        proof {
            lemma_run_end(input.text@, start, CharClass::Blank);
        }
        if input.next_is('#') {
            proof {
                lemma_eol_end(input.text@, input.offset as int);
            }
            skip_to_eol(input);
        } else {
            return;
        }
    }
}

/// Whether `text` holds `pattern` at `i`, ASCII letters of the text taken in lower case.
pub fn matches_at(text: &[char], i: usize, pattern: &str) -> (r: bool)
    requires
        i <= text@.len(),
    ensures
        r == keyword_at(text@, i as int, pattern@),
{
    let n = pattern.unicode_len();
    let len = text.len();
    if len - i < n {
        return false;
    }
    let mut j: usize = 0;
    while j < n
        invariant
            len == text@.len(),
            n == pattern@.len(),
            i + n <= text@.len(),
            j <= n,
            forall|m: int| 0 <= m < j ==> lower_spec(#[trigger] text@[i + m]) == pattern@[m],
        decreases n - j,
    {
        if to_lower(text[i + j]) != pattern.get_char(j) {
            return false;
        }
        j += 1;
    }
    true
}

/// Consumes `pattern` if the text starts with it, ASCII letters of the text taken in lower
/// case; otherwise leaves the cursor as it was.
pub fn start_with(input: &mut Position, pattern: &str) -> (r: Option<()>)
    requires
        old(input).wf(),
    ensures
        final(input).wf(),
        final(input).text@ == old(input).text@,
        r is Some <==> keyword_at(old(input).text@, old(input).offset as int, pattern@),
        r is Some ==> final(input).offset == old(input).offset + pattern@.len(),
        r is None ==> final(input).offset == old(input).offset,
{
    if matches_at(input.text.as_slice(), input.offset, pattern) {
        let end = input.offset + pattern.unicode_len();
        input.advance_to(end);
        Some(())
    } else {
        None
    }
}

/// Consumes the maximal run of characters that are no ASCII whitespace and returns it
/// (possibly empty).
pub fn parse_identifier(input: &mut Position) -> (r: String)
    requires
        old(input).wf(),
    ensures
        final(input).wf(),
        final(input).text@ == old(input).text@,
        final(input).offset == run_end(
            old(input).text@,
            old(input).offset as int,
            CharClass::NonSpace,
        ),
        r@ == old(input).text@.subrange(old(input).offset as int, final(input).offset as int),
{
    let e = scan(input.text.as_slice(), input.offset, CharClass::NonSpace);
    proof {
        lemma_run_end(input.text@, input.offset as int, CharClass::NonSpace);
    }
    let r = text_between(&input.text, input.offset, e);
    input.advance_to(e);
    r
}

} // verus!
