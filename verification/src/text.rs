//! Character-level text handling: conversions between strings and character
//! vectors, Unicode white space, white-space normalisation, trimming and
//! decimal numerals.

use vstd::prelude::*;

verus! {

/// `String::push` of the standard library: the string afterwards is the string
/// before with `c` appended as its last character.
pub assume_specification[ String::push ](s: &mut String, c: char)
    ensures
        final(s)@ == old(s)@.push(c),
;

/// The characters of `s`, in order.
pub fn chars_of(s: &str) -> (v: Vec<char>)
    ensures
        v@ == s@,
{
    let mut v: Vec<char> = Vec::new();
    for c in it: s.chars()
        invariant
            it.seq() == s@,
            v@ == s@.take(it.index() as int),
    {
        v.push(c);
    }
    v
}

/// The string made of the characters `v[from..to]`.
pub fn string_of_range(v: &Vec<char>, from: usize, to: usize) -> (s: String)
    requires
        from <= to <= v.len(),
    ensures
        s@ == v@.subrange(from as int, to as int),
{
    let mut s = String::new();
    let mut i: usize = from;
    while i < to
        invariant
            from <= i <= to <= v.len(),
            s@ == v@.subrange(from as int, i as int),
        decreases to - i,
    {
        s.push(v[i]);
        i = i + 1;
    }
    s
}

/// The string made of the characters of `v`.
pub fn string_of(v: &Vec<char>) -> (s: String)
    ensures
        s@ == v@,
{
    string_of_range(v, 0, v.len())
}

/// Appends the characters `src[from..to]` to `out`.
pub fn append_range(out: &mut Vec<char>, src: &Vec<char>, from: usize, to: usize)
    requires
        from <= to <= src.len(),
    ensures
        final(out)@ == old(out)@ + src@.subrange(from as int, to as int),
{
    let mut i: usize = from;
    while i < to
        invariant
            from <= i <= to <= src.len(),
            out@ == old(out)@ + src@.subrange(from as int, i as int),
        decreases to - i,
    {
        out.push(src[i]);
        i = i + 1;
    }
}

/// Appends the characters of `s` to `out`.
pub fn append_str(out: &mut Vec<char>, s: &str)
    ensures
        final(out)@ == old(out)@ + s@,
{
    let chars = chars_of(s);
    append_range(out, &chars, 0, chars.len());
}

/// Unicode white space: the code points with the `White_Space` property.
pub open spec fn is_whitespace(c: char) -> bool {
    let p = c as u32;
    ||| 0x09 <= p <= 0x0D
    ||| p == 0x20
    ||| p == 0x85
    ||| p == 0xA0
    ||| p == 0x1680
    ||| 0x2000 <= p <= 0x200A
    ||| p == 0x2028
    ||| p == 0x2029
    ||| p == 0x202F
    ||| p == 0x205F
    ||| p == 0x3000
}

/// Whether `c` is Unicode white space.
pub fn is_whitespace_char(c: char) -> (b: bool)
    ensures
        b == is_whitespace(c),
{
    let p: u32 = c as u32;
    (0x09 <= p && p <= 0x0D) || p == 0x20 || p == 0x85 || p == 0xA0 || p == 0x1680 || (0x2000 <= p
        && p <= 0x200A) || p == 0x2028 || p == 0x2029 || p == 0x202F || p == 0x205F || p == 0x3000
}

/// `s` with every line feed replaced by a space.
pub open spec fn newlines_to_spaces(s: Seq<char>) -> Seq<char> {
    s.map_values(
        |c: char|
            if c == '\n' {
                ' '
            } else {
                c
            },
    )
}

/// `s` with every run of white space replaced by one space. White space at
/// either end of `s` is a run like any other: it is kept as one space.
pub open spec fn collapse_whitespace(s: Seq<char>) -> Seq<char>
    decreases s.len(),
{
    if s.len() == 0 {
        s
    } else {
        let head = collapse_whitespace(s.drop_last());
        if !is_whitespace(s.last()) {
            head.push(s.last())
        } else if s.len() >= 2 && is_whitespace(s[s.len() - 2]) {
            head
        } else {
            head.push(' ')
        }
    }
}

/// The normal form of running text: line feeds become spaces, then runs of
/// white space collapse to single spaces.
pub open spec fn normalized(s: Seq<char>) -> Seq<char> {
    collapse_whitespace(newlines_to_spaces(s))
}

/// Replaces every line feed of `v` by a space.
pub fn replace_newlines(v: &Vec<char>) -> (out: Vec<char>)
    ensures
        out@ == newlines_to_spaces(v@),
{
    let mut out: Vec<char> = Vec::new();
    let mut i: usize = 0;
    while i < v.len()
        invariant
            0 <= i <= v.len(),
            out@ == newlines_to_spaces(v@.take(i as int)),
        decreases v.len() - i,
    {
        let c = v[i];
        if c == '\n' {
            out.push(' ');
        } else {
            out.push(c);
        }
        i = i + 1;
    }
    out
}

/// Replaces every run of white space in `v` by one space.
pub fn collapse(v: &Vec<char>) -> (out: Vec<char>)
    ensures
        out@ == collapse_whitespace(v@),
{
    let mut out: Vec<char> = Vec::new();
    let mut i: usize = 0;
    let mut in_run = false;
    while i < v.len()
        invariant
            0 <= i <= v.len(),
            out@ == collapse_whitespace(v@.take(i as int)),
            in_run == (i > 0 && is_whitespace(v@[i - 1])),
        decreases v.len() - i,
    {
        let c = v[i];
        let space = is_whitespace_char(c);
        proof {
            assert(v@.take(i + 1).drop_last() =~= v@.take(i as int));
        }
        if !space {
            out.push(c);
        } else if !in_run {
            out.push(' ');
        }
        in_run = space;
        i = i + 1;
    }
    proof {
        assert(v@.take(v.len() as int) =~= v@);
    }
    out
}

/// Brings running text into its normal form.
pub fn normalize(text: &str) -> (out: String)
    ensures
        out@ == normalized(text@),
{
    let chars = chars_of(text);
    let spaced = replace_newlines(&chars);
    let collapsed = collapse(&spaced);
    string_of(&collapsed)
}

/// `s` without the white space at its start.
pub open spec fn trim_start(s: Seq<char>) -> Seq<char>
    decreases s.len(),
{
    if s.len() > 0 && is_whitespace(s[0]) {
        trim_start(s.drop_first())
    } else {
        s
    }
}

/// `s` without the white space at its end.
pub open spec fn trim_end(s: Seq<char>) -> Seq<char>
    decreases s.len(),
{
    if s.len() > 0 && is_whitespace(s.last()) {
        trim_end(s.drop_last())
    } else {
        s
    }
}

/// `s` without the white space at either end.
pub open spec fn trimmed(s: Seq<char>) -> Seq<char> {
    trim_end(trim_start(s))
}

/// The bounds of `v[from..to]` without the white space at either end.
pub fn trim_range(v: &Vec<char>, from: usize, to: usize) -> (bounds: (usize, usize))
    requires
        from <= to <= v.len(),
    ensures
        from <= bounds.0 <= bounds.1 <= to,
        v@.subrange(bounds.0 as int, bounds.1 as int) == trimmed(
            v@.subrange(from as int, to as int),
        ),
{
    let mut lo: usize = from;
    while lo < to && is_whitespace_char(v[lo])
        invariant
            from <= lo <= to <= v.len(),
            trim_start(v@.subrange(from as int, to as int)) == trim_start(
                v@.subrange(lo as int, to as int),
            ),
        decreases to - lo,
    {
        proof {
            assert(v@.subrange(lo as int, to as int).drop_first() =~= v@.subrange(
                lo + 1,
                to as int,
            ));
        }
        lo = lo + 1;
    }
    let mut hi: usize = to;
    while lo < hi && is_whitespace_char(v[hi - 1])
        invariant
            from <= lo <= hi <= to <= v.len(),
            trim_start(v@.subrange(from as int, to as int)) == v@.subrange(lo as int, to as int),
            trim_end(v@.subrange(lo as int, to as int)) == trim_end(
                v@.subrange(lo as int, hi as int),
            ),
        decreases hi - lo,
    {
        proof {
            assert(v@.subrange(lo as int, hi as int).drop_last() =~= v@.subrange(
                lo as int,
                hi - 1,
            ));
        }
        hi = hi - 1;
    }
    (lo, hi)
}

/// The character of the decimal digit `d`.
pub open spec fn digit(d: nat) -> char {
    if d == 0 {
        '0'
    } else if d == 1 {
        '1'
    } else if d == 2 {
        '2'
    } else if d == 3 {
        '3'
    } else if d == 4 {
        '4'
    } else if d == 5 {
        '5'
    } else if d == 6 {
        '6'
    } else if d == 7 {
        '7'
    } else if d == 8 {
        '8'
    } else {
        '9'
    }
}

/// The decimal numeral of `n`, without leading zeros.
pub open spec fn decimal(n: nat) -> Seq<char>
    decreases n,
{
    if n < 10 {
        seq![digit(n)]
    } else {
        decimal(n / 10).push(digit(n % 10))
    }
}

/// The character of the decimal digit `d`.
pub fn digit_char(d: usize) -> (c: char)
    requires
        d < 10,
    ensures
        c == digit(d as nat),
{
    if d == 0 {
        '0'
    } else if d == 1 {
        '1'
    } else if d == 2 {
        '2'
    } else if d == 3 {
        '3'
    } else if d == 4 {
        '4'
    } else if d == 5 {
        '5'
    } else if d == 6 {
        '6'
    } else if d == 7 {
        '7'
    } else if d == 8 {
        '8'
    } else {
        '9'
    }
}

/// Appends the decimal numeral of `n` to `out`.
pub fn append_decimal(out: &mut Vec<char>, n: usize)
    ensures
        final(out)@ == old(out)@ + decimal(n as nat),
    decreases n,
{
    if n < 10 {
        out.push(digit_char(n));
    } else {
        append_decimal(out, n / 10);
        out.push(digit_char(n % 10));
    }
}

} // verus!
