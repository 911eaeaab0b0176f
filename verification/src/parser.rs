//! The front door of the parser: turns what the parser reports about a
//! source text into the module or a syntax error located in that text.

use vstd::prelude::*;

verus! {

/// What the parser reports when it cannot parse a source text: the position
/// (in characters from the start of the text) where it stopped, and why.
pub struct ParseError {
    pub offset: usize,
    pub message: String,
}

/// A syntax error, with the line and column (both counted from 1) of the
/// character where parsing stopped.
pub struct SyntaxError {
    pub message: String,
    pub line: usize,
    pub column: usize,
}

/// The outcome of parsing a source text.
pub type StaticJsResult<T> = Result<T, SyntaxError>;

/// The number of line breaks among the first `offset` characters of `text`.
pub open spec fn breaks_before(text: Seq<char>, offset: int) -> nat
    decreases offset,
{
    if offset <= 0 {
        0
    } else {
        breaks_before(text, offset - 1) + if text[offset - 1] == '\n' {
            1nat
        } else {
            0nat
        }
    }
}

/// The position where the line that holds position `offset` of `text` begins:
/// just after the last line break before `offset`, or 0 where there is none.
pub open spec fn line_start(text: Seq<char>, offset: int) -> int
    decreases offset,
{
    if offset <= 0 {
        0
    } else if text[offset - 1] == '\n' {
        offset
    } else {
        line_start(text, offset - 1)
    }
}

/// The position that an error at `offset` points to: `offset`, or the end
/// of the text where `offset` lies beyond it.
pub open spec fn error_position(text: Seq<char>, offset: int) -> int {
    if offset <= text.len() {
        offset
    } else {
        text.len() as int
    }
}

/// The line and column (both counted from 1) of the position that an error
/// at `offset` points to in `text`.
pub open spec fn located(text: Seq<char>, offset: int) -> (int, int) {
    let at: int = error_position(text, offset);
    (breaks_before(text, at) as int + 1, at - line_start(text, at) + 1)
}

/// Where an error stands depends on the characters of the text and the
/// error's position alone: equal texts give equal lines and columns.
pub proof fn lemma_located_depends_on_text(a: Seq<char>, b: Seq<char>, offset: int)
    requires
        a == b,
    ensures
        located(a, offset) == located(b, offset),
{
}

/// The line breaks among `chars`: its `'\n'` characters, in order. Only
/// `'\n'` ends a line; every one counts, blank lines included.
pub open spec fn line_breaks(chars: Seq<char>) -> Seq<char> {
    chars.filter(|c: char| c == '\n')
}

proof fn lemma_breaks_before_counts(text: Seq<char>, n: int)
    requires
        0 <= n <= text.len(),
    ensures
        breaks_before(text, n) == line_breaks(text.take(n)).len(),
    decreases n,
{
    reveal(Seq::filter);
    if n == 0 {
        assert(text.take(0) =~= Seq::<char>::empty());
    } else {
        lemma_breaks_before_counts(text, n - 1);
        assert(text.take(n).drop_last() =~= text.take(n - 1));
        assert(text.take(n).last() == text[n - 1]);
    }
}

proof fn lemma_line_start_is_after_last_break(text: Seq<char>, n: int)
    requires
        0 <= n <= text.len(),
    ensures
        0 <= line_start(text, n) <= n,
        line_start(text, n) == 0 || text[line_start(text, n) - 1] == '\n',
        forall|k: int| line_start(text, n) <= k < n ==> text[k] != '\n',
    decreases n,
{
    if n > 0 {
        lemma_line_start_is_after_last_break(text, n - 1);
    }
}

/// The line of a located error is 1 plus the number of `'\n'` characters
/// before the position the error points to (the offset, or the end of the
/// text where the offset lies beyond it): every line break counts, and no
/// other character does.
pub proof fn lemma_located_line(text: Seq<char>, offset: int)
    requires
        0 <= offset,
    ensures
        located(text, offset).0 == line_breaks(
            text.take(if offset <= text.len() { offset } else { text.len() as int }),
        ).len() + 1,
{
    let at: int = if offset <= text.len() { offset } else { text.len() as int };
    lemma_breaks_before_counts(text, at);
}

/// The column of a located error counts the characters since the line began:
/// going back `column - 1` characters from the position the error points to
/// reaches the start of its line, which is the start of the text or just after
/// a `'\n'`, and no `'\n'` lies in between. Any other character, a `'\r'`
/// included, is part of the line.
pub proof fn lemma_located_column(text: Seq<char>, offset: int)
    requires
        0 <= offset,
    ensures
        ({
            let at: int = if offset <= text.len() { offset } else { text.len() as int };
            let start: int = at - located(text, offset).1 + 1;
            &&& 0 <= start <= at
            &&& start == 0 || text[start - 1] == '\n'
            &&& forall|k: int| start <= k < at ==> text[k] != '\n'
        }),
{
    let at: int = if offset <= text.len() { offset } else { text.len() as int };
    lemma_line_start_is_after_last_break(text, at);
}

proof fn lemma_line_start_bounds(text: Seq<char>, offset: int)
    requires
        0 <= offset,
    ensures
        0 <= line_start(text, offset) <= offset,
        breaks_before(text, offset) <= offset,
    decreases offset,
{
    if offset > 0 {
        lemma_line_start_bounds(text, offset - 1);
    }
}

/// Finds the line and column of the character at `offset` in `input`.
pub fn locate(input: &str, offset: usize) -> (r: (usize, usize))
    requires
        input@.len() < usize::MAX,
    ensures
        r.0 as int == located(input@, offset as int).0,
        r.1 as int == located(input@, offset as int).1,
{
    let ghost text = input@;
    let mut breaks: usize = 0;
    let mut start: usize = 0;
    let mut i: usize = 0;
    for c in it: input.chars()
        invariant_except_break
            i == it.index(),
        invariant
            it.seq() == text,
            text.len() < usize::MAX,
            i <= text.len(),
            i <= offset,
            breaks == breaks_before(text, i as int),
            start == line_start(text, i as int),
            breaks <= i,
            start <= i,
        ensures
            i == offset || i == text.len(),
    {
        if i == offset {
            break;
        }
        proof {
            lemma_line_start_bounds(text, i + 1);
        }
        if c == '\n' {
            breaks = breaks + 1;
            start = i + 1;
        }
        i = i + 1;
    }
    assert(i as int == error_position(text, offset as int));
    (breaks + 1, i - start + 1)
}

/// Hands on the parsed module; where the parser failed, reports a syntax
/// error with the parser's message, located in `input`.
pub fn parse_input<M>(input: &str, parsed: Result<M, ParseError>) -> (r: StaticJsResult<M>)
    requires
        input@.len() < usize::MAX,
    ensures
        match parsed {
            Ok(module) => r == Ok::<M, SyntaxError>(module),
            Err(error) => r matches Err(e) && e.message == error.message
                && e.line as int == located(input@, error.offset as int).0
                && e.column as int == located(input@, error.offset as int).1,
        },
{
    match parsed {
        Err(error) => {
            let (line, column) = locate(input, error.offset);
            Err(SyntaxError { message: error.message, line, column })
        },
        Ok(module) => Ok(module),
    }
}

} // verus!
