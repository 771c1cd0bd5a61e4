//! Character-level scanning of status text: white space, fields, lines and
//! separated lists.
//!
//! Text is modelled as `Seq<char>`, the view of `str` and `String`. Every
//! executable function here states its result over that model.

use vstd::prelude::*;

verus! {

/// `String::push` appends one character to the end of the string and leaves
/// the characters before it as they were.
pub assume_specification[ String::push ](s: &mut String, ch: char)
    ensures
        final(s)@ == old(s)@.push(ch),
;

/// Whether `c` carries the Unicode `White_Space` property.
pub open spec fn is_space(c: char) -> bool {
    let n = c as u32;
    ||| 0x09 <= n <= 0x0D
    ||| n == 0x20
    ||| n == 0x85
    ||| n == 0xA0
    ||| n == 0x1680
    ||| 0x2000 <= n <= 0x200A
    ||| n == 0x2028
    ||| n == 0x2029
    ||| n == 0x202F
    ||| n == 0x205F
    ||| n == 0x3000
}

/// Number of characters of `s` that stand before its first white space
/// (all of them, if it holds none).
pub open spec fn word_len(s: Seq<char>) -> nat
    decreases s.len(),
{
    if s.len() == 0 || is_space(s[0]) {
        0
    } else {
        1 + word_len(s.drop_first())
    }
}

/// Number of characters of `s` that stand before the first `sep`
/// (all of them, if it holds none).
pub open spec fn until(s: Seq<char>, sep: char) -> nat
    decreases s.len(),
{
    if s.len() == 0 || s[0] == sep {
        0
    } else {
        1 + until(s.drop_first(), sep)
    }
}

/// The fields of a line: its maximal runs of characters that are not white
/// space, from left to right.
pub open spec fn fields(s: Seq<char>) -> Seq<Seq<char>>
    decreases s.len(),
    via fields_decreases
{
    if s.len() == 0 {
        Seq::empty()
    } else if is_space(s[0]) {
        fields(s.drop_first())
    } else {
        seq![s.take(word_len(s) as int)] + fields(s.skip(word_len(s) as int))
    }
}

#[via_fn]
proof fn fields_decreases(s: Seq<char>) {
    lemma_word_len(s);
}

/// The pieces of `s` between occurrences of `sep`. There is always at least
/// one piece; a piece may be empty.
pub open spec fn split_on(s: Seq<char>, sep: char) -> Seq<Seq<char>>
    decreases s.len(),
    via split_on_decreases
{
    let n = until(s, sep) as int;
    if n >= s.len() {
        seq![s]
    } else {
        seq![s.take(n)] + split_on(s.skip(n + 1), sep)
    }
}

#[via_fn]
proof fn split_on_decreases(s: Seq<char>, sep: char) {
    lemma_until(s, sep);
}

/// `s` without one trailing carriage return, if it has one.
pub open spec fn strip_cr(s: Seq<char>) -> Seq<char> {
    if s.len() > 0 && s.last() == '\r' {
        s.drop_last()
    } else {
        s
    }
}

/// The lines of a text. A line ends at a line feed, or at a carriage return
/// directly followed by a line feed; neither belongs to the line. The last
/// line needs no line ending, and an empty text has no lines.
pub open spec fn lines(s: Seq<char>) -> Seq<Seq<char>>
    decreases s.len(),
    via lines_decreases
{
    let n = until(s, '\n') as int;
    if s.len() == 0 {
        Seq::empty()
    } else if n >= s.len() {
        seq![s]
    } else {
        seq![strip_cr(s.take(n))] + lines(s.skip(n + 1))
    }
}

#[via_fn]
proof fn lines_decreases(s: Seq<char>) {
    lemma_until(s, '\n');
}

/// `word_len` is the one position that ends a run free of white space.
pub proof fn lemma_word_len(s: Seq<char>)
    ensures
        word_len(s) <= s.len(),
        forall|i: int| 0 <= i < word_len(s) ==> !is_space(#[trigger] s[i]),
        word_len(s) < s.len() ==> is_space(s[word_len(s) as int]),
    decreases s.len(),
{
    if s.len() > 0 && !is_space(s[0]) {
        let t = s.drop_first();
        lemma_word_len(t);
        assert forall|i: int| 0 <= i < word_len(s) implies !is_space(#[trigger] s[i]) by {
            if i > 0 {
                assert(s[i] == t[i - 1]);
            }
        }
    }
}

/// A position that ends a run free of white space is `word_len`.
pub proof fn lemma_word_len_is(s: Seq<char>, n: int)
    requires
        0 <= n <= s.len(),
        forall|i: int| 0 <= i < n ==> !is_space(#[trigger] s[i]),
        n < s.len() ==> is_space(s[n]),
    ensures
        word_len(s) == n,
    decreases s.len(),
{
    if n > 0 {
        let t = s.drop_first();
        assert forall|i: int| 0 <= i < n - 1 implies !is_space(#[trigger] t[i]) by {
            assert(t[i] == s[i + 1]);
        }
        lemma_word_len_is(t, n - 1);
    }
}

/// `until` is the position of the first `sep`, or the length.
pub proof fn lemma_until(s: Seq<char>, sep: char)
    ensures
        until(s, sep) <= s.len(),
        forall|i: int| 0 <= i < until(s, sep) ==> #[trigger] s[i] != sep,
        until(s, sep) < s.len() ==> s[until(s, sep) as int] == sep,
    decreases s.len(),
{
    if s.len() > 0 && s[0] != sep {
        let t = s.drop_first();
        lemma_until(t, sep);
        assert forall|i: int| 0 <= i < until(s, sep) implies #[trigger] s[i] != sep by {
            if i > 0 {
                assert(s[i] == t[i - 1]);
            }
        }
    }
}

/// The position of the first `sep`, or the length, is `until`.
pub proof fn lemma_until_is(s: Seq<char>, sep: char, n: int)
    requires
        0 <= n <= s.len(),
        forall|i: int| 0 <= i < n ==> #[trigger] s[i] != sep,
        n < s.len() ==> s[n] == sep,
    ensures
        until(s, sep) == n,
    decreases s.len(),
{
    if n > 0 {
        let t = s.drop_first();
        assert forall|i: int| 0 <= i < n - 1 implies #[trigger] t[i] != sep by {
            assert(t[i] == s[i + 1]);
        }
        lemma_until_is(t, sep, n - 1);
    }
}

/// White space at the end of a line adds no field.
pub proof fn lemma_fields_trailing_space(s: Seq<char>, c: char)
    requires
        is_space(c),
    ensures
        fields(s.push(c)) == fields(s),
    decreases s.len(),
{
    let t = s.push(c);
    if s.len() == 0 {
        assert(fields(t) == fields(t.drop_first()));
    } else if is_space(s[0]) {
        assert(t.drop_first() == s.drop_first().push(c));
        lemma_fields_trailing_space(s.drop_first(), c);
    } else {
        // the first word of `t` is the first word of `s`
        let w = word_len(s) as int;
        lemma_word_len(s);
        assert(is_space(t[w]));
        lemma_word_len_is(t, w);
        assert(t.take(w) == s.take(w));
        assert(t.skip(w) == s.skip(w).push(c));
        lemma_fields_trailing_space(s.skip(w), c);
    }
}

/// A carriage return at the end of a line adds no field.
pub proof fn lemma_fields_strip_cr(s: Seq<char>)
    ensures
        fields(strip_cr(s)) == fields(s),
{
    if s.len() > 0 && s.last() == '\r' {
        assert(s.drop_last().push('\r') == s);
        lemma_fields_trailing_space(s.drop_last(), '\r');
    }
}

/// The lines of a text that follows complete lines are the lines of both,
/// one after the other.
pub proof fn lemma_lines_concat(x: Seq<char>, y: Seq<char>)
    requires
        x.len() == 0 || x.last() == '\n',
    ensures
        lines(x + y) == lines(x) + lines(y),
    decreases x.len(),
{
    let z = x + y;
    if x.len() == 0 {
        assert(z == y);
    } else {
        // the first line of `x + y` is the first line of `x`
        let n = until(x, '\n') as int;
        lemma_until(x, '\n');
        assert(n < x.len());
        lemma_until_is(z, '\n', n);
        let rest = x.skip(n + 1);
        assert(z.take(n) == x.take(n));
        assert(z.skip(n + 1) == rest + y);
        lemma_lines_concat(rest, y);
    }
}

/// A text that begins with a complete line has that line, without its line
/// ending, as its first.
pub proof fn lemma_lines_first(line: Seq<char>, tail: Seq<char>)
    requires
        !line.contains('\n'),
    ensures
        lines(line.push('\n') + tail) == seq![strip_cr(line)] + lines(tail),
{
    let z = line.push('\n') + tail;
    let n = line.len() as int;
    lemma_until_is(z, '\n', n);
    assert(z.take(n) == line);
    assert(z.skip(n + 1) == tail);
}

/// A text without line feed is one line, unless it is empty.
pub proof fn lemma_lines_last(line: Seq<char>)
    requires
        !line.contains('\n'),
    ensures
        lines(line) == if line.len() == 0 {
            Seq::<Seq<char>>::empty()
        } else {
            seq![line]
        },
{
    lemma_until_is(line, '\n', line.len() as int);
}

/// Tells whether a character separates fields.
pub fn is_whitespace(c: char) -> (b: bool)
    ensures
        b == is_space(c),
{
    let n: u32 = c as u32;
    (0x09 <= n && n <= 0x0D) || n == 0x20 || n == 0x85 || n == 0xA0 || n == 0x1680 || (0x2000 <= n
        && n <= 0x200A) || n == 0x2028 || n == 0x2029 || n == 0x202F || n == 0x205F || n == 0x3000
}

/// The characters of `s`, in order.
pub fn chars_of(s: &str) -> (v: Vec<char>)
    ensures
        v@ == s@,
{
    let mut v: Vec<char> = Vec::new();
    let chars = s.chars();
    for c in it: chars
        invariant
            it.seq() == s@,
            v@ == it.history(),
    {
        v.push(c);
    }
    v
}

/// The characters of `cs` from position `from` up to, not including, `to`.
fn string_of(cs: &Vec<char>, from: usize, to: usize) -> (out: String)
    requires
        from <= to <= cs.len(),
    ensures
        out@ == cs@.subrange(from as int, to as int),
{
    let mut out = String::new();
    let mut i: usize = from;
    while i < to
        invariant
            from <= i <= to <= cs.len(),
            out@ == cs@.subrange(from as int, i as int),
        decreases to - i,
    {
        out.push(cs[i]);
        i += 1;
    }
    out
}

/// Position of the first white space at or after `from`, or the length.
fn find_space(cs: &Vec<char>, from: usize) -> (to: usize)
    requires
        from <= cs.len(),
    ensures
        from <= to <= cs.len(),
        to - from == word_len(cs@.skip(from as int)),
{
    let mut i: usize = from;
    while i < cs.len() && !is_whitespace(cs[i])
        invariant
            from <= i <= cs.len(),
            forall|k: int| from <= k < i ==> !is_space(#[trigger] cs@[k]),
        decreases cs.len() - i,
    {
        i += 1;
    }
    proof {
        lemma_word_len_is(cs@.skip(from as int), i - from);
    }
    i
}

/// Position of the first `sep` at or after `from`, or the length.
fn find_char(cs: &Vec<char>, from: usize, sep: char) -> (to: usize)
    requires
        from <= cs.len(),
    ensures
        from <= to <= cs.len(),
        to - from == until(cs@.skip(from as int), sep),
{
    let mut i: usize = from;
    while i < cs.len() && cs[i] != sep
        invariant
            from <= i <= cs.len(),
            forall|k: int| from <= k < i ==> #[trigger] cs@[k] != sep,
        decreases cs.len() - i,
    {
        i += 1;
    }
    proof {
        lemma_until_is(cs@.skip(from as int), sep, i - from);
    }
    i
}

/// Splits a line into its fields.
pub fn split_fields(line: &str) -> (out: Vec<String>)
    ensures
        out.deep_view() == fields(line@),
{
    let cs = chars_of(line);
    let mut out: Vec<String> = Vec::new();
    let mut i: usize = 0;
    assert(cs@.skip(0) == cs@);
    while i < cs.len()
        invariant
            i <= cs.len(),
            out.deep_view() + fields(cs@.skip(i as int)) == fields(cs@),
        decreases cs.len() - i,
    {
        let ghost rest = cs@.skip(i as int);
        if is_whitespace(cs[i]) {
            assert(rest.drop_first() == cs@.skip(i + 1));
            i += 1;
        } else {
            let end = find_space(&cs, i);
            out.push(string_of(&cs, i, end));
            assert(rest.take(end - i) == cs@.subrange(i as int, end as int));
            assert(rest.skip(end - i) == cs@.skip(end as int));
            i = end;
        }
    }
    out
}

/// Splits a text into its lines.
pub fn split_lines(text: &str) -> (out: Vec<String>)
    ensures
        out.deep_view() == lines(text@),
{
    let cs = chars_of(text);
    let mut out: Vec<String> = Vec::new();
    let mut i: usize = 0;
    assert(cs@.skip(0) == cs@);
    while i < cs.len()
        invariant
            i <= cs.len(),
            out.deep_view() + lines(cs@.skip(i as int)) == lines(cs@),
        decreases cs.len() - i,
    {
        let ghost rest = cs@.skip(i as int);
        let end = find_char(&cs, i, '\n');
        if end >= cs.len() {
            out.push(string_of(&cs, i, end));
            i = end;
        } else {
            let stop = if end > i && cs[end - 1] == '\r' {
                end - 1
            } else {
                end
            };
            out.push(string_of(&cs, i, stop));
            assert(rest.take(end - i) == cs@.subrange(i as int, end as int));
            assert(strip_cr(rest.take(end - i)) == cs@.subrange(i as int, stop as int));
            assert(rest.skip(end - i + 1) == cs@.skip(end + 1));
            i = end + 1;
        }
    }
    out
}

/// Splits a text at every occurrence of `sep`.
pub fn split_list(text: &str, sep: char) -> (out: Vec<String>)
    ensures
        out.deep_view() == split_on(text@, sep),
{
    let cs = chars_of(text);
    let mut out: Vec<String> = Vec::new();
    let mut i: usize = 0;
    let mut more = true;
    assert(cs@.skip(0) == cs@);
    while more
        invariant
            i <= cs.len(),
            more ==> out.deep_view() + split_on(cs@.skip(i as int), sep) == split_on(cs@, sep),
            !more ==> out.deep_view() == split_on(cs@, sep),
        decreases cs.len() - i + if more { 1nat } else { 0nat },
    {
        let ghost rest = cs@.skip(i as int);
        let end = find_char(&cs, i, sep);
        out.push(string_of(&cs, i, end));
        assert(rest.take(end - i) == cs@.subrange(i as int, end as int));
        if end >= cs.len() {
            more = false;
        } else {
            assert(rest.skip(end - i + 1) == cs@.skip(end + 1));
            i = end + 1;
        }
    }
    out
}

/// Tells whether two texts hold the same characters.
pub fn same_text(a: &str, b: &str) -> (same: bool)
    ensures
        same == (a@ == b@),
{
    let x = chars_of(a);
    let y = chars_of(b);
    if x.len() != y.len() {
        return false;
    }
    let mut i: usize = 0;
    while i < x.len()
        invariant
            i <= x.len(),
            x.len() == y.len(),
            x@ == a@,
            y@ == b@,
            forall|k: int| 0 <= k < i ==> x@[k] == y@[k],
        decreases x.len() - i,
    {
        if x[i] != y[i] {
            return false;
        }
        i += 1;
    }
    assert(a@ =~= b@);
    true
}

} // verus!
