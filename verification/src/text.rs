//! Text: characters and strings, decimal numerals, and the lines of a text.

use vstd::prelude::*;

verus! {

/// `str`'s own equality (`PartialEq::eq`): two string slices are equal when
/// they hold the same characters in the same order.
#[verifier::external_body]
pub(crate) fn str_eq(a: &str, b: &str) -> (r: bool)
    ensures
        r == (a@ == b@),
{
    a == b
}

/// `String::push` appends one character to the end of the string.
pub assume_specification[ String::push ](s: &mut String, ch: char)
    ensures
        final(s)@ == old(s)@.push(ch),
;

/// The characters of a string, in order.
pub fn chars_of(s: &str) -> (v: Vec<char>)
    ensures
        v@ == s@,
{
    let mut v: Vec<char> = Vec::new();
    for c in it: s.chars()
        invariant
            it.seq() == s@,
            v@ == s@.take(it.index() as int),
    {
        let ghost i = it.index() as int;
        v.push(c);
        assert(s@.take(i + 1) =~= s@.take(i).push(s@[i]));
    }
    assert(s@.take(s@.len() as int) =~= s@);
    v
}

/// The string made of the characters `chars[from..to]`.
pub fn string_of(chars: &Vec<char>, from: usize, to: usize) -> (s: String)
    requires
        from <= to <= chars.len(),
    ensures
        s@ == chars@.subrange(from as int, to as int),
{
    let mut s = String::new();
    let mut i: usize = from;
    while i < to
        invariant
            from <= i <= to <= chars.len(),
            s@ == chars@.subrange(from as int, i as int),
        decreases to - i,
    {
        s.push(chars[i]);
        i += 1;
        assert(chars@.subrange(from as int, i as int) =~= chars@.subrange(from as int, i - 1).push(
            chars@[i - 1],
        ));
    }
    assert(chars@.subrange(from as int, from as int) =~= Seq::<char>::empty());
    s
}

/// The decimal digit for a value below ten.
pub open spec fn digit(d: nat) -> char {
    if d == 0 {
        '0'
    } else if d == 1 {
        '1'
    } else if d == 2 {
        '2'
    } else if d == 3 {
        '3'
    } else if d == 4 {
        '4'
    } else if d == 5 {
        '5'
    } else if d == 6 {
        '6'
    } else if d == 7 {
        '7'
    } else if d == 8 {
        '8'
    } else {
        '9'
    }
}

/// A number written in decimal, without leading zeros.
pub open spec fn decimal_text(n: nat) -> Seq<char>
    decreases n,
{
    if n < 10 {
        seq![digit(n)]
    } else {
        decimal_text(n / 10).push(digit(n % 10))
    }
}

/// The decimal digit for a value below ten.
pub fn digit_char(d: usize) -> (c: char)
    requires
        d < 10,
    ensures
        c == digit(d as nat),
{
    if d == 0 {
        '0'
    } else if d == 1 {
        '1'
    } else if d == 2 {
        '2'
    } else if d == 3 {
        '3'
    } else if d == 4 {
        '4'
    } else if d == 5 {
        '5'
    } else if d == 6 {
        '6'
    } else if d == 7 {
        '7'
    } else if d == 8 {
        '8'
    } else {
        '9'
    }
}

/// Writes a number in decimal.
pub fn decimal(n: usize) -> (s: String)
    ensures
        s@ == decimal_text(n as nat),
    decreases n,
{
    if n < 10 {
        let mut s = String::new();
        s.push(digit_char(n));
        assert(s@ =~= seq![digit(n as nat)]);
        s
    } else {
        let mut s = decimal(n / 10);
        s.push(digit_char(n % 10));
        s
    }
}

/// `n` spaces.
pub open spec fn blanks(n: nat) -> Seq<char> {
    Seq::new(n, |i: int| ' ')
}

/// A string of `n` spaces.
pub fn spaces(n: usize) -> (s: String)
    ensures
        s@ == blanks(n as nat),
{
    let mut s = String::new();
    let mut i: usize = 0;
    while i < n
        invariant
            i <= n,
            s@ == blanks(i as nat),
        decreases n - i,
    {
        s.push(' ');
        i += 1;
        assert(blanks(i as nat) =~= blanks((i - 1) as nat).push(' '));
    }
    assert(blanks(0) =~= Seq::<char>::empty());
    s
}

/// The index of the first line feed at or after `from`, or the length of
/// the text where there is none.
pub open spec fn line_end(text: Seq<char>, from: int) -> int
    decreases text.len() - from,
{
    if from < 0 || from >= text.len() {
        text.len() as int
    } else if text[from] == '\n' {
        from
    } else {
        line_end(text, from + 1)
    }
}

/// The index at which line `k` starts, lines counted from 1 and ended by
/// line feeds. Past the last line the result is at least the text's length.
pub open spec fn line_start(text: Seq<char>, k: nat) -> int
    decreases k,
{
    if k <= 1 {
        0
    } else {
        line_end(text, line_start(text, (k - 1) as nat)) + 1
    }
}

/// Line `k` of the text, as `str::lines` gives it: without its line feed,
/// and without a carriage return just before that line feed. `None` where
/// the text has fewer lines; a line feed at the very end starts no line.
pub open spec fn line_text(text: Seq<char>, k: nat) -> Option<Seq<char>> {
    let start = line_start(text, k);
    let end = line_end(text, start);
    if k == 0 || start >= text.len() {
        None
    } else if end < text.len() && start < end && text[end - 1] == '\r' {
        Some(text.subrange(start, end - 1))
    } else {
        Some(text.subrange(start, end))
    }
}

/// Finds line `k` of the text.
pub fn line_of(text: &str, k: usize) -> (line: Option<String>)
    ensures
        match line_text(text@, k as nat) {
            Some(t) => line matches Some(s) && s@ == t,
            None => line is None,
        },
{
    if k == 0 {
        return None;
    }
    let chars = chars_of(text);
    let n = chars.len();
    let mut start: usize = 0;
    let mut current: usize = 1;
    while current < k
        invariant
            chars@ == text@,
            n == chars.len(),
            1 <= current <= k,
            start <= n,
            start == line_start(text@, current as nat),
        decreases k - current,
    {
        let end = find_line_end(&chars, start);
        if end >= n {
            proof {
                lemma_past_last_line(text@, current as nat, k as nat);
            }
            return None;
        }
        start = end + 1;
        current += 1;
        if start >= n {
            proof {
                lemma_past_last_line(text@, current as nat, k as nat);
            }
            return None;
        }
    }
    if start >= n {
        return None;
    }
    let end = find_line_end(&chars, start);
    if end < n && start < end && chars[end - 1] == '\r' {
        Some(string_of(&chars, start, end - 1))
    } else {
        Some(string_of(&chars, start, end))
    }
}

/// Once a line starts at or past the end of the text, so do all later ones.
pub proof fn lemma_past_last_line(text: Seq<char>, j: nat, k: nat)
    requires
        1 <= j <= k,
        line_start(text, j) >= text.len() || line_end(text, line_start(text, j)) >= text.len(),
    ensures
        line_start(text, k) >= text.len() || (k == j && line_start(text, j) < text.len()),
    decreases k - j,
{
    if j < k {
        if line_start(text, j) >= text.len() {
            assert(line_end(text, line_start(text, j)) == text.len());
        }
        assert(line_start(text, j + 1) == line_end(text, line_start(text, j)) + 1);
        assert(line_end(text, line_start(text, j + 1)) >= text.len());
        lemma_past_last_line(text, j + 1, k);
    }
}

/// The index of the first line feed at or after `from`.
pub fn find_line_end(chars: &Vec<char>, from: usize) -> (end: usize)
    requires
        from <= chars.len(),
    ensures
        end == line_end(chars@, from as int),
        from <= end <= chars.len(),
{
    let mut i: usize = from;
    while i < chars.len() && chars[i] != '\n'
        invariant
            from <= i <= chars.len(),
            line_end(chars@, from as int) == line_end(chars@, i as int),
        decreases chars.len() - i,
    {
        i += 1;
    }
    i
}

} // verus!
