//! Text as sequences of characters: conversions to and from strings,
//! whitespace, and trimming.

use vstd::prelude::*;
use vstd::std_specs::iter::IteratorSpec;

verus! {

/// `String::push` appends the given character to the end of the string and
/// leaves the characters before it unchanged.
pub assume_specification[ String::push ](s: &mut String, c: char)
    ensures
        final(s)@ == old(s)@.push(c),
;

/// The characters of `s`, in order.
pub fn to_chars(s: &str) -> (chars: Vec<char>)
    ensures
        chars@ == s@,
{
    let mut chars: Vec<char> = Vec::new();
    for c in it: s.chars()
        invariant
            chars@.len() == it.index(),
            it.seq() == s@,
            forall|j: int| 0 <= j < chars@.len() ==> chars@[j] == it.seq()[j],
    {
        chars.push(c);
    }
    assert(chars@ =~= s@);
    chars
}

/// A string made of the given characters, in order.
pub fn to_text(chars: &[char]) -> (s: String)
    ensures
        s@ == chars@,
{
    let mut s = String::new();
    let mut i: usize = 0;
    while i < chars.len()
        invariant
            i <= chars@.len(),
            s@ == chars@.take(i as int),
        decreases chars@.len() - i,
    {
        s.push(chars[i]);
        i += 1;
        assert(s@ =~= chars@.take(i as int));
    }
    assert(chars@.take(i as int) =~= chars@);
    s
}

/// Whether `c` is white space: one of the characters that Unicode lists as
/// `White_Space`.
pub open spec fn is_space(c: char) -> bool {
    let u = c as u32;
    ||| 0x09 <= u <= 0x0D
    ||| u == 0x20
    ||| u == 0x85
    ||| u == 0xA0
    ||| u == 0x1680
    ||| 0x2000 <= u <= 0x200A
    ||| u == 0x2028
    ||| u == 0x2029
    ||| u == 0x202F
    ||| u == 0x205F
    ||| u == 0x3000
}

/// Decides `is_space`.
pub fn is_whitespace(c: char) -> (b: bool)
    ensures
        b == is_space(c),
{
    let u: u32 = c as u32;
    (0x09 <= u && u <= 0x0D) || u == 0x20 || u == 0x85 || u == 0xA0 || u == 0x1680 || (0x2000 <= u
        && u <= 0x200A) || u == 0x2028 || u == 0x2029 || u == 0x202F || u == 0x205F || u == 0x3000
}

/// `s` without the white space at its start.
pub open spec fn trim_start(s: Seq<char>) -> Seq<char>
    decreases s.len(),
{
    if s.len() > 0 && is_space(s[0]) {
        trim_start(s.drop_first())
    } else {
        s
    }
}

/// `s` without the white space at its end.
pub open spec fn trim_end(s: Seq<char>) -> Seq<char>
    decreases s.len(),
{
    if s.len() > 0 && is_space(s.last()) {
        trim_end(s.drop_last())
    } else {
        s
    }
}

/// `s` without the white space at either end.
pub open spec fn trim(s: Seq<char>) -> Seq<char> {
    trim_end(trim_start(s))
}

/// Skipping white space from position `from` on, `trim_start` arrives where
/// the first character that is no white space stands.
pub proof fn lemma_trim_start_skip(s: Seq<char>, from: int, to: int)
    requires
        0 <= from <= to <= s.len(),
        forall|j: int| from <= j < to ==> is_space(s[j]),
    ensures
        trim_start(s.skip(from)) == trim_start(s.skip(to)),
    decreases to - from,
{
    if from < to {
        assert(s.skip(from).drop_first() =~= s.skip(from + 1));
        lemma_trim_start_skip(s, from + 1, to);
    }
}

/// Dropping white space down to position `to`, `trim_end` arrives where the
/// last character that is no white space stands.
pub proof fn lemma_trim_end_take(s: Seq<char>, to: int, end: int)
    requires
        0 <= to <= end <= s.len(),
        forall|j: int| to <= j < end ==> is_space(s[j]),
    ensures
        trim_end(s.take(end)) == trim_end(s.take(to)),
    decreases end - to,
{
    if to < end {
        assert(s.take(end).drop_last() =~= s.take(end - 1));
        lemma_trim_end_take(s, to, end - 1);
    }
}

/// Where `trim(s.subrange(from, to))` begins and ends within `s`. Where
/// nothing but white space stands between `from` and `to`, both are `to`.
pub fn trim_bounds(s: &[char], from: usize, to: usize) -> (bounds: (usize, usize))
    requires
        from <= to <= s@.len(),
    ensures
        from <= bounds.0 <= bounds.1 <= to,
        bounds.0 == to - trim_start(s@.subrange(from as int, to as int)).len(),
        bounds.1 == bounds.0 + trim(s@.subrange(from as int, to as int)).len(),
        s@.subrange(bounds.0 as int, bounds.1 as int) == trim(s@.subrange(from as int, to as int)),
{
    let ghost line = s@.subrange(from as int, to as int);
    let mut a: usize = from;
    while a < to && is_whitespace(s[a])
        invariant
            from <= a <= to <= s@.len(),
            forall|j: int| from <= j < a ==> is_space(s@[j]),
        decreases to - a,
    {
        a += 1;
    }
    let mut b: usize = to;
    while a < b && is_whitespace(s[b - 1])
        invariant
            from <= a <= b <= to <= s@.len(),
            forall|j: int| b <= j < to ==> is_space(s@[j]),
        decreases b,
    {
        b -= 1;
    }
    proof {
        lemma_trim_start_skip(line, 0, a - from);
        assert(line.skip(0) =~= line);
        let rest = line.skip(a - from);
        assert(rest =~= s@.subrange(a as int, to as int));
        assert(trim_start(rest) == rest);
        lemma_trim_end_take(rest, b - a, to - a);
        assert(rest.take(to - a) =~= rest);
        assert(rest.take(b - a) =~= s@.subrange(a as int, b as int));
        assert(trim_end(rest.take(b - a)) == rest.take(b - a));
    }
    (a, b)
}

} // verus!
