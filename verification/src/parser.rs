//! From source text to instructions: comments and white space are removed,
//! blank lines are dropped, and every other line becomes one instruction.

use vstd::prelude::*;
use vstd::slice::slice_subrange;
use crate::error::{AssembleError, Failure};
use crate::instruction::{Instruction, Statement};
use crate::text::{to_chars, to_text, trim, trim_bounds};

verus! {

/// Whether the two-character comment marker `//` stands at position `i`.
pub open spec fn comment_at(s: Seq<char>, i: int) -> bool {
    0 <= i && i + 1 < s.len() && s[i] == '/' && s[i + 1] == '/'
}

/// Where the first comment marker of `s` begins; the length of `s` if it
/// holds none.
pub open spec fn comment_start(s: Seq<char>) -> nat
    decreases s.len(),
{
    if s.len() < 2 {
        s.len()
    } else if s[0] == '/' && s[1] == '/' {
        0
    } else {
        1 + comment_start(s.drop_first())
    }
}

/// A line without its comment and without the white space around what is
/// left.
pub open spec fn strip_line(s: Seq<char>) -> Seq<char> {
    trim(s.take(comment_start(s) as int))
}

/// `comment_start` is the least position of a comment marker.
pub proof fn lemma_comment_start(s: Seq<char>)
    ensures
        comment_start(s) <= s.len(),
        comment_start(s) < s.len() ==> comment_at(s, comment_start(s) as int),
        forall|j: int| 0 <= j < comment_start(s) ==> !comment_at(s, j),
    decreases s.len(),
{
    if s.len() >= 2 && !(s[0] == '/' && s[1] == '/') {
        let rest = s.drop_first();
        lemma_comment_start(rest);
        assert forall|j: int| 0 <= j < comment_start(s) implies !comment_at(s, j) by {
            if j > 0 {
                assert(!comment_at(rest, j - 1));
            }
        }
    }
}

/// The line without its comment and the white space around the rest.
pub fn remove_comment<'a>(s: &'a [char]) -> (stripped: &'a [char])
    ensures
        stripped@ == strip_line(s@),
{
    let mut i: usize = 0;
    while s.len() - i > 1 && !(s[i] == '/' && s[i + 1] == '/')
        invariant
            i <= s@.len(),
            forall|j: int| 0 <= j < i ==> !comment_at(s@, j),
        decreases s@.len() - i,
    {
        i += 1;
    }
    let cut: usize = if s.len() - i > 1 {
        i
    } else {
        s.len()
    };
    proof {
        lemma_comment_start(s@);
        if cut < s@.len() {
            assert(comment_at(s@, cut as int));
        } else {
            assert forall|j: int| 0 <= j < s@.len() implies !comment_at(s@, j) by {}
        }
        assert(comment_start(s@) == cut);
        assert(s@.subrange(0, cut as int) =~= s@.take(cut as int));
    }
    let (a, b) = trim_bounds(s, 0, cut);
    slice_subrange(s, a, b)
}

/// Whether `c` parts the fields of a computation: `=` ends the destination,
/// `;` begins the jump.
pub open spec fn is_separator(c: char) -> bool {
    c == '=' || c == ';'
}

/// Where the first separator of `s` stands; the length of `s` if it holds
/// none.
pub open spec fn first_separator(s: Seq<char>) -> nat
    decreases s.len(),
{
    if s.len() == 0 || is_separator(s[0]) {
        0
    } else {
        1 + first_separator(s.drop_first())
    }
}

/// The pieces of `s` between its separators, in order: one more than it has
/// separators, and empty where two separators meet or one stands at an end.
pub open spec fn split_parts(s: Seq<char>) -> Seq<Seq<char>>
    decreases s.len(),
{
    let n = first_separator(s);
    if n >= s.len() {
        seq![s]
    } else {
        seq![s.take(n as int)] + split_parts(s.skip(n as int + 1))
    }
}

/// The computation that a stripped line spells, if it has the form of one.
/// With one `=` and no `;` the line is `dest=comp`; with one `;` and no `=`
/// it is `comp;jump`; with one of each, whichever stands first, its three
/// pieces are destination, computation and jump in that order. The
/// computation may not be empty.
pub open spec fn computation(line: Seq<char>) -> Option<Statement> {
    let parts = split_parts(line);
    if parts.len() == 2 && line.contains('=') && parts[1].len() > 0 {
        Some(Statement::C { dest: Some(parts[0]), comp: parts[1], jump: None })
    } else if parts.len() == 2 && line.contains(';') && parts[0].len() > 0 {
        Some(Statement::C { dest: None, comp: parts[0], jump: Some(parts[1]) })
    } else if parts.len() == 3 && line.contains('=') && line.contains(';') && parts[1].len() > 0 {
        Some(Statement::C { dest: Some(parts[0]), comp: parts[1], jump: Some(parts[2]) })
    } else {
        None
    }
}

/// What a stripped line that is not empty and does not begin with `/` spells:
/// an address instruction after `@`, a label between `(` and a closing `)` at
/// the end of the line, or else a computation. `None` where it has none of
/// these forms.
pub open spec fn statement(line: Seq<char>) -> Option<Statement>
    recommends
        line.len() > 0,
{
    if line[0] == '@' {
        Some(Statement::A { value: line.skip(1) })
    } else if line[0] == '(' {
        if line.len() >= 2 && line.last() == ')' {
            Some(Statement::L { value: line.subrange(1, line.len() - 1) })
        } else {
            None
        }
    } else {
        computation(line)
    }
}

/// What one line of the source gives: nothing where it is blank or holds
/// only a comment, its instruction, or the failure that names the line.
pub open spec fn parse_line_spec(raw: Seq<char>) -> Result<Option<Statement>, Failure> {
    let line = strip_line(raw);
    if line.len() == 0 || line[0] == '/' {
        Ok(None)
    } else {
        match statement(line) {
            Some(s) => Ok(Some(s)),
            None => Err(Failure::Parse(raw)),
        }
    }
}

/// `first_separator` is the least position of a separator.
pub proof fn lemma_first_separator(s: Seq<char>)
    ensures
        first_separator(s) <= s.len(),
        first_separator(s) < s.len() ==> is_separator(s[first_separator(s) as int]),
        forall|j: int| 0 <= j < first_separator(s) ==> !is_separator(s[j]),
    decreases s.len(),
{
    if !(s.len() == 0 || is_separator(s[0])) {
        let rest = s.drop_first();
        lemma_first_separator(rest);
        assert forall|j: int| 0 <= j < first_separator(s) implies !is_separator(s[j]) by {
            if j > 0 {
                assert(s[j] == rest[j - 1]);
            }
        }
    }
}

/// A position before which no separator stands, and which holds one or is
/// the end, is the first separator's.
pub proof fn lemma_first_separator_at(s: Seq<char>, i: int)
    requires
        0 <= i <= s.len(),
        forall|j: int| 0 <= j < i ==> !is_separator(s[j]),
        i < s.len() ==> is_separator(s[i]),
    ensures
        first_separator(s) == i,
{
    lemma_first_separator(s);
}

/// The position of the first separator of `s` at or after `from`; the length
/// of `s` if there is none.
fn find_separator(s: &[char], from: usize) -> (i: usize)
    requires
        from <= s@.len(),
    ensures
        from <= i <= s@.len(),
        i - from == first_separator(s@.skip(from as int)),
        forall|j: int| from <= j < i ==> !is_separator(s@[j]),
        i < s@.len() ==> is_separator(s@[i as int]),
{
    let mut i: usize = from;
    while i < s.len() && !(s[i] == '=' || s[i] == ';')
        invariant
            from <= i <= s@.len(),
            forall|j: int| from <= j < i ==> !is_separator(s@[j]),
        decreases s@.len() - i,
    {
        i += 1;
    }
    proof {
        lemma_first_separator_at(s@.skip(from as int), i - from);
    }
    i
}

/// The instruction that a stripped line spells, if it has the form of a
/// computation.
fn parse_computation(line: &[char]) -> (r: Option<Instruction>)
    ensures
        match r {
            Some(i) => computation(line@) == Some(i@),
            None => computation(line@) is None,
        },
{
    let n: usize = line.len();
    let ghost text = line@;
    let first = find_separator(line, 0);
    assert(text.skip(0) =~= text);
    if first == n {
        assert(split_parts(text) =~= seq![text]);
        return None;
    }
    let second = find_separator(line, first + 1);
    let ghost tail = text.skip(first + 1);
    assert(split_parts(text) == seq![text.take(first as int)] + split_parts(tail));
    assert(text.contains(text[first as int]));
    if second == n {
        assert(split_parts(tail) =~= seq![tail]);
        assert(split_parts(text) =~= seq![text.take(first as int), tail]);
        assert(tail =~= text.subrange(first + 1, n as int));
        assert(text.take(first as int) =~= text.subrange(0, first as int));
        assert forall|j: int| 0 <= j < n && j != first implies !is_separator(text[j]) by {}
        if line[first] == '=' {
            assert(!text.contains(';'));
            if first + 1 == n {
                return None;
            }
            return Some(
                Instruction::C {
                    dest: Some(to_text(slice_subrange(line, 0, first))),
                    comp: to_text(slice_subrange(line, first + 1, n)),
                    jump: None,
                },
            );
        } else {
            assert(!text.contains('='));
            if first == 0 {
                return None;
            }
            return Some(
                Instruction::C {
                    dest: None,
                    comp: to_text(slice_subrange(line, 0, first)),
                    jump: Some(to_text(slice_subrange(line, first + 1, n))),
                },
            );
        }
    }
    let third = find_separator(line, second + 1);
    let ghost rest = text.skip(second + 1);
    proof {
        assert(tail.skip(second - first) =~= rest);
        assert(tail.take(second - first - 1) =~= text.subrange(first + 1, second as int));
        assert(split_parts(tail) == seq![tail.take(second - first - 1)] + split_parts(rest));
        assert(text.contains(text[second as int]));
    }
    if third == n {
        assert(split_parts(rest) =~= seq![rest]);
        assert(split_parts(text) =~= seq![
            text.take(first as int),
            tail.take(second - first - 1),
            rest,
        ]);
        assert(rest =~= text.subrange(second + 1, n as int));
        assert(text.take(first as int) =~= text.subrange(0, first as int));
        assert forall|j: int| 0 <= j < n && j != first && j != second implies !is_separator(
            text[j],
        ) by {}
        if line[first] == line[second] {
            assert(!text.contains('=') || !text.contains(';'));
            return None;
        }
        if first + 1 == second {
            return None;
        }
        return Some(
            Instruction::C {
                dest: Some(to_text(slice_subrange(line, 0, first))),
                comp: to_text(slice_subrange(line, first + 1, second)),
                jump: Some(to_text(slice_subrange(line, second + 1, n))),
            },
        );
    }
    proof {
        let after = rest.skip(third - second);
        assert(split_parts(rest) == seq![rest.take(third - second - 1)] + split_parts(after));
        assert(split_parts(after).len() >= 1) by {
            lemma_split_parts_len(after);
        }
        assert(split_parts(text).len() >= 4);
    }
    None
}

/// A line always splits into at least one piece.
pub proof fn lemma_split_parts_len(s: Seq<char>)
    ensures
        split_parts(s).len() >= 1,
    decreases s.len(),
{
    let n = first_separator(s);
    if n < s.len() {
        lemma_split_parts_len(s.skip(n as int + 1));
    }
}

/// Reads one line of the source: nothing where it is blank or holds only a
/// comment, else its instruction. A line of no known form fails with
/// `AssembleError::Parse`, which holds the line.
pub fn parse_line(raw: &[char]) -> (r: Result<Option<Instruction>, AssembleError>)
    ensures
        match r {
            Ok(Some(i)) => parse_line_spec(raw@) == Ok::<Option<Statement>, Failure>(Some(i@)),
            Ok(None) => parse_line_spec(raw@) == Ok::<Option<Statement>, Failure>(None),
            Err(e) => parse_line_spec(raw@) == Err::<Option<Statement>, Failure>(e@),
        },
{
    let line = remove_comment(raw);
    let n: usize = line.len();
    if n == 0 || line[0] == '/' {
        return Ok(None);
    }
    let found = if line[0] == '@' {
        assert(line@.skip(1) =~= line@.subrange(1, n as int));
        Some(Instruction::A { value: to_text(slice_subrange(line, 1, n)) })
    } else if line[0] == '(' {
        if n >= 2 && line[n - 1] == ')' {
            Some(Instruction::L { value: to_text(slice_subrange(line, 1, n - 1)) })
        } else {
            None
        }
    } else {
        parse_computation(line)
    };
    match found {
        Some(i) => Ok(Some(i)),
        None => Err(AssembleError::Parse(to_text(raw))),
    }
}

/// Where the first line of `s` ends: the position of its first line feed, or
/// the length of `s` if it holds none.
pub open spec fn line_end(s: Seq<char>) -> nat
    decreases s.len(),
{
    if s.len() == 0 || s[0] == '\n' {
        0
    } else {
        1 + line_end(s.drop_first())
    }
}

/// The lines of a text, in order, without the line feeds that end them. The
/// line feed after the last line may be missing.
pub open spec fn lines(s: Seq<char>) -> Seq<Seq<char>>
    decreases s.len(),
{
    let n = line_end(s);
    if s.len() == 0 {
        Seq::empty()
    } else if n >= s.len() {
        seq![s]
    } else {
        seq![s.take(n as int)] + lines(s.skip(n as int + 1))
    }
}

/// The instructions of the given lines, in order; the failure of the first
/// line that has no known form.
pub open spec fn parse_lines(source: Seq<Seq<char>>) -> Result<Seq<Statement>, Failure>
    decreases source.len(),
{
    if source.len() == 0 {
        Ok(Seq::empty())
    } else {
        match parse_lines(source.drop_last()) {
            Err(e) => Err(e),
            Ok(program) => match parse_line_spec(source.last()) {
                Err(e) => Err(e),
                Ok(None) => Ok(program),
                Ok(Some(s)) => Ok(program.push(s)),
            },
        }
    }
}

/// The instructions of a source text, one for each significant line, in the
/// order of the lines; the failure of the first line that has no known form.
pub open spec fn parse_spec(source: Seq<char>) -> Result<Seq<Statement>, Failure> {
    parse_lines(lines(source))
}

/// `line_end` is the least position of a line feed.
pub proof fn lemma_line_end(s: Seq<char>)
    ensures
        line_end(s) <= s.len(),
        line_end(s) < s.len() ==> s[line_end(s) as int] == '\n',
        forall|j: int| 0 <= j < line_end(s) ==> s[j] != '\n',
    decreases s.len(),
{
    if !(s.len() == 0 || s[0] == '\n') {
        let rest = s.drop_first();
        lemma_line_end(rest);
        assert forall|j: int| 0 <= j < line_end(s) implies s[j] != '\n' by {
            if j > 0 {
                assert(s[j] == rest[j - 1]);
            }
        }
    }
}

/// Once a line has failed, the lines after it change nothing.
pub proof fn lemma_parse_lines_failed(done: Seq<Seq<char>>, rest: Seq<Seq<char>>)
    requires
        parse_lines(done) is Err,
    ensures
        parse_lines(done + rest) == parse_lines(done),
    decreases rest.len(),
{
    if rest.len() == 0 {
        assert(done + rest =~= done);
    } else {
        assert((done + rest).drop_last() =~= done + rest.drop_last());
        lemma_parse_lines_failed(done, rest.drop_last());
    }
}

/// The position of the first line feed of `s` at or after `from`; the length
/// of `s` if there is none.
fn find_line_end(s: &[char], from: usize) -> (i: usize)
    requires
        from <= s@.len(),
    ensures
        from <= i <= s@.len(),
        i - from == line_end(s@.skip(from as int)),
{
    let mut i: usize = from;
    while i < s.len() && s[i] != '\n'
        invariant
            from <= i <= s@.len(),
            forall|j: int| from <= j < i ==> s@[j] != '\n',
        decreases s@.len() - i,
    {
        i += 1;
    }
    proof {
        let tail = s@.skip(from as int);
        let k = line_end(tail) as int;
        lemma_line_end(tail);
        if k < i - from {
            assert(tail[k] == s@[from + k]);
        } else if k > i - from {
            assert(tail[i - from] == s@[i as int]);
        }
    }
    i
}

/// Reads a source text into its instructions, one for each line that is not
/// blank and holds more than a comment, in the order of the lines. The first
/// line of no known form ends the reading with `AssembleError::Parse`.
pub fn parse(input: String) -> (r: Result<Vec<Instruction>, AssembleError>)
    ensures
        match r {
            Ok(program) => parse_spec(input@) == Ok::<Seq<Statement>, Failure>(
                program.deep_view(),
            ),
            Err(e) => parse_spec(input@) == Err::<Seq<Statement>, Failure>(e@),
        },
{
    let chars = to_chars(input.as_str());
    let text = chars.as_slice();
    let n: usize = text.len();
    let mut program: Vec<Instruction> = Vec::new();
    let mut start: usize = 0;
    let ghost mut done: Seq<Seq<char>> = Seq::empty();
    assert(text@.skip(0) =~= text@);
    assert(program.deep_view() =~= Seq::<Statement>::empty());
    while start < n
        invariant
            n == text@.len(),
            text@ == input@,
            start <= n,
            lines(text@) == done + lines(text@.skip(start as int)),
            parse_lines(done) == Ok::<Seq<Statement>, Failure>(program.deep_view()),
        decreases n - start,
    {
        let end = find_line_end(text, start);
        let raw = slice_subrange(text, start, end);
        let next: usize = if end < n {
            end + 1
        } else {
            end
        };
        let ghost tail = text@.skip(start as int);
        let ghost rest = text@.skip(next as int);
        proof {
            assert(tail.take(end - start) =~= raw@);
            if end < n {
                assert(tail.skip(end - start + 1) =~= rest);
            } else {
                assert(tail =~= raw@);
                assert(lines(rest) =~= Seq::<Seq<char>>::empty());
            }
            assert(lines(tail) =~= seq![raw@] + lines(rest));
            assert(lines(text@) =~= done.push(raw@) + lines(rest));
            assert(done.push(raw@).drop_last() =~= done);
        }
        let ghost before = program.deep_view();
        match parse_line(raw) {
            Err(e) => {
                proof {
                    lemma_parse_lines_failed(done.push(raw@), lines(rest));
                }
                return Err(e);
            },
            Ok(None) => {},
            Ok(Some(i)) => {
                program.push(i);
                assert(program.deep_view() =~= before.push(i@));
            },
        }
        proof {
            done = done.push(raw@);
        }
        start = next;
    }
    assert(lines(text@.skip(start as int)) =~= Seq::<Seq<char>>::empty());
    assert(done + Seq::<Seq<char>>::empty() =~= done);
    Ok(program)
}

} // verus!
