//! Characters, lines and the small text operations the rest builds on.
//!
//! Text is modelled as `Seq<char>`. Executable code works on a `Vec<char>` copy
//! of a string and on index ranges into it, and copies ranges of the string
//! to the output.

use vstd::prelude::*;
use vstd::string::StringSliceAdditionalSpecFns;

verus! {

/// The characters that count as white space: those with the Unicode
/// `White_Space` property.
pub open spec fn is_whitespace(c: char) -> bool {
    let n = c as u32;
    ||| 0x09 <= n <= 0x0D
    ||| n == 0x20
    ||| n == 0x85
    ||| n == 0xA0
    ||| n == 0x1680
    ||| 0x2000 <= n <= 0x200A
    ||| n == 0x2028
    ||| n == 0x2029
    ||| n == 0x202F
    ||| n == 0x205F
    ||| n == 0x3000
}

/// Tells whether `c` is white space.
pub fn char_is_whitespace(c: char) -> (b: bool)
    ensures
        b == is_whitespace(c),
{
    let n: u32 = c as u32;
    (0x09 <= n && n <= 0x0D) || n == 0x20 || n == 0x85 || n == 0xA0 || n == 0x1680 || (0x2000 <= n
        && n <= 0x200A) || n == 0x2028 || n == 0x2029 || n == 0x202F || n == 0x205F || n == 0x3000
}

/// The characters of `s`, one by one.
pub fn chars_of(s: &str) -> (v: Vec<char>)
    ensures
        v@ == s@,
{
    let mut v: Vec<char> = Vec::new();
    for c in it: s.chars()
        invariant
            v@ == it.seq().take(it.index()),
            it.seq() == s@,
    {
        v.push(c);
    }
    v
}

/// The lines of `s`: the pieces between its line feeds. A text without a line
/// feed is one line, and a line feed at the end opens a last, empty line.
pub open spec fn lines_of(s: Seq<char>) -> Seq<Seq<char>>
    decreases s.len(),
{
    if s.len() == 0 {
        seq![Seq::<char>::empty()]
    } else {
        let before = lines_of(s.drop_last());
        if s.last() == '\n' {
            before.push(Seq::<char>::empty())
        } else {
            before.drop_last().push(before.last().push(s.last()))
        }
    }
}

/// The pieces of `lines` with one line feed between each two.
pub open spec fn join_lines(lines: Seq<Seq<char>>) -> Seq<char>
    decreases lines.len(),
{
    if lines.len() == 0 {
        Seq::<char>::empty()
    } else if lines.len() == 1 {
        lines[0]
    } else {
        join_lines(lines.drop_last()) + seq!['\n'] + lines.last()
    }
}

/// Joining the first `k + 1` pieces adds a line feed and piece `k` to the
/// first `k` joined, and nothing but piece `0` when `k` is `0`.
pub proof fn lemma_join_next(lines: Seq<Seq<char>>, k: int)
    requires
        0 <= k < lines.len(),
    ensures
        join_lines(lines.take(k + 1)) == if k == 0 {
            lines[0]
        } else {
            join_lines(lines.take(k)) + seq!['\n'] + lines[k]
        },
{
    let upto = lines.take(k + 1);
    assert(upto.last() == lines[k]);
    assert(upto[0] == lines[0]);
    assert(upto.drop_last() =~= lines.take(k));
}

/// The index ranges of the lines of `chars`, in order: range `k` holds line `k`.
pub fn line_spans(chars: &Vec<char>) -> (spans: Vec<(usize, usize)>)
    ensures
        spans@.len() == lines_of(chars@).len(),
        forall|k: int|
            0 <= k < spans@.len() ==> {
                &&& (#[trigger] spans@[k]).0 <= spans@[k].1 <= chars@.len()
                &&& lines_of(chars@)[k] == chars@.subrange(
                    spans@[k].0 as int,
                    spans@[k].1 as int,
                )
            },
{
    let mut spans: Vec<(usize, usize)> = Vec::new();
    let mut start: usize = 0;
    let mut i: usize = 0;
    proof {
        assert(chars@.take(0) =~= Seq::<char>::empty());
        assert(chars@.subrange(0, 0) =~= Seq::<char>::empty());
    }
    while i < chars.len()
        invariant
            start <= i <= chars@.len(),
            lines_of(chars@.take(i as int)).len() == spans@.len() + 1,
            lines_of(chars@.take(i as int)).last() == chars@.subrange(start as int, i as int),
            forall|k: int|
                0 <= k < spans@.len() ==> {
                    &&& (#[trigger] spans@[k]).0 <= spans@[k].1 <= chars@.len()
                    &&& lines_of(chars@.take(i as int))[k] == chars@.subrange(
                        spans@[k].0 as int,
                        spans@[k].1 as int,
                    )
                },
        decreases chars@.len() - i,
    {
        proof {
            let next = chars@.take(i + 1);
            assert(next.drop_last() =~= chars@.take(i as int));
            assert(next.last() == chars@[i as int]);
            assert(chars@.subrange(start as int, i as int).push(chars@[i as int])
                =~= chars@.subrange(start as int, i + 1));
            assert(chars@.subrange(i + 1, i + 1) =~= Seq::<char>::empty());
        }
        if chars[i] == '\n' {
            spans.push((start, i));
            start = i + 1;
        }
        i = i + 1;
    }
    proof {
        assert(chars@.take(i as int) =~= chars@);
    }
    spans.push((start, i));
    spans
}

/// `s` without the white space at its start.
pub open spec fn trim_start(s: Seq<char>) -> Seq<char>
    decreases s.len(),
{
    if s.len() > 0 && is_whitespace(s[0]) {
        trim_start(s.drop_first())
    } else {
        s
    }
}

/// `s` without the white space at its end.
pub open spec fn trim_end(s: Seq<char>) -> Seq<char>
    decreases s.len(),
{
    if s.len() > 0 && is_whitespace(s.last()) {
        trim_end(s.drop_last())
    } else {
        s
    }
}

/// `s` without the white space at either end.
pub open spec fn trim(s: Seq<char>) -> Seq<char> {
    trim_end(trim_start(s))
}

/// Tells whether `s` ends with `suffix`.
pub open spec fn ends_with(s: Seq<char>, suffix: Seq<char>) -> bool {
    suffix.len() <= s.len() && s.skip(s.len() - suffix.len()) == suffix
}

/// Tells whether `needle` occurs in `s`.
pub open spec fn contains_text(s: Seq<char>, needle: Seq<char>) -> bool {
    exists|i: int| occurs_at(s, needle, i)
}

/// Tells whether `needle` stands in `s` from index `i` on.
pub open spec fn occurs_at(s: Seq<char>, needle: Seq<char>, i: int) -> bool {
    0 <= i && i + needle.len() <= s.len() && s.subrange(i, i + needle.len()) == needle
}

/// The first index at or after `from` of `chars` that holds no white space, or
/// `to` when there is none before it.
pub(crate) fn skip_whitespace(chars: &Vec<char>, from: usize, to: usize) -> (at: usize)
    requires
        from <= to <= chars@.len(),
    ensures
        from <= at <= to,
        chars@.subrange(at as int, to as int) == trim_start(
            chars@.subrange(from as int, to as int),
        ),
{
    let mut at: usize = from;
    while at < to && char_is_whitespace(chars[at])
        invariant
            from <= at <= to <= chars@.len(),
            trim_start(chars@.subrange(at as int, to as int)) == trim_start(
                chars@.subrange(from as int, to as int),
            ),
        decreases to - at,
    {
        proof {
            let rest = chars@.subrange(at as int, to as int);
            assert(rest[0] == chars@[at as int]);
            assert(rest.drop_first() =~= chars@.subrange(at + 1, to as int));
        }
        at = at + 1;
    }
    proof {
        let rest = chars@.subrange(at as int, to as int);
        if at < to {
            assert(rest[0] == chars@[at as int]);
        }
    }
    at
}

/// The end of the range that is left of `from..to` when the white space at
/// its end is dropped.
pub(crate) fn skip_whitespace_back(chars: &Vec<char>, from: usize, to: usize) -> (end: usize)
    requires
        from <= to <= chars@.len(),
    ensures
        from <= end <= to,
        chars@.subrange(from as int, end as int) == trim_end(
            chars@.subrange(from as int, to as int),
        ),
{
    let mut end: usize = to;
    while from < end && char_is_whitespace(chars[end - 1])
        invariant
            from <= end <= to <= chars@.len(),
            trim_end(chars@.subrange(from as int, end as int)) == trim_end(
                chars@.subrange(from as int, to as int),
            ),
        decreases end - from,
    {
        proof {
            let rest = chars@.subrange(from as int, end as int);
            assert(rest.last() == chars@[end - 1]);
            assert(rest.drop_last() =~= chars@.subrange(from as int, end - 1));
        }
        end = end - 1;
    }
    proof {
        let rest = chars@.subrange(from as int, end as int);
        if from < end {
            assert(rest.last() == chars@[end - 1]);
        }
    }
    end
}

/// `n` blanks.
pub open spec fn blanks(n: nat) -> Seq<char> {
    Seq::new(n, |i: int| ' ')
}

/// `s` with `indent` blanks before each of its lines.
pub open spec fn indented_text(s: Seq<char>, indent: nat) -> Seq<char> {
    join_lines(lines_of(s).map_values(|line: Seq<char>| blanks(indent) + line))
}

/// A string of `n` blanks.
pub fn blank_string(n: usize) -> (pad: String)
    ensures
        pad@ == blanks(n as nat),
{
    let mut pad = String::new();
    let mut k: usize = 0;
    while k < n
        invariant
            k <= n,
            pad@ == blanks(k as nat),
        decreases n - k,
    {
        proof {
            reveal_strlit(" ");
            assert(blanks(k as nat) + " "@ =~= blanks((k + 1) as nat));
        }
        pad.append(" ");
        k = k + 1;
    }
    pad
}

/// Emits `s` with `indent` blanks before each of its lines.
pub fn indented(s: &str, indent: usize) -> (r: String)
    ensures
        r@ == indented_text(s@, indent as nat),
{
    let pad = blank_string(indent);
    let chars = chars_of(s);
    let spans = line_spans(&chars);
    let ghost padded = lines_of(s@).map_values(|line: Seq<char>| blanks(indent as nat) + line);
    let mut out = String::new();
    let mut k: usize = 0;
    proof {
        assert(padded.take(0) =~= Seq::<Seq<char>>::empty());
    }
    while k < spans.len()
        invariant
            k <= spans@.len(),
            chars@ == s@,
            pad@ == blanks(indent as nat),
            padded == lines_of(s@).map_values(|line: Seq<char>| blanks(indent as nat) + line),
            spans@.len() == lines_of(chars@).len(),
            forall|j: int|
                0 <= j < spans@.len() ==> {
                    &&& (#[trigger] spans@[j]).0 <= spans@[j].1 <= chars@.len()
                    &&& lines_of(chars@)[j] == chars@.subrange(
                        spans@[j].0 as int,
                        spans@[j].1 as int,
                    )
                },
            out@ == join_lines(padded.take(k as int)),
        decreases spans@.len() - k,
    {
        let (from, to) = spans[k];
        proof {
            reveal_strlit("\n");
            assert("\n"@ =~= seq!['\n']);
            lemma_join_next(padded, k as int);
            assert(padded[k as int] == blanks(indent as nat) + chars@.subrange(
                from as int,
                to as int,
            ));
        }
        if k > 0 {
            out.append("\n");
        }
        out.append(pad.as_str());
        out.append(s.substring_char(from, to));
        proof {
            let ghost line = chars@.subrange(from as int, to as int);
            if k > 0 {
                assert(join_lines(padded.take(k as int)) + seq!['\n'] + blanks(indent as nat)
                    + line =~= join_lines(padded.take(k as int)) + seq!['\n'] + (blanks(
                    indent as nat,
                ) + line));
            } else {
                assert(join_lines(padded.take(0)) =~= Seq::<char>::empty());
                assert(Seq::<char>::empty() + blanks(indent as nat) + line =~= blanks(
                    indent as nat,
                ) + line);
            }
        }
        k = k + 1;
    }
    proof {
        assert(padded.take(k as int) =~= padded);
    }
    out
}

/// How many line feeds `bytes` holds.
pub open spec fn line_feeds(bytes: Seq<u8>) -> nat
    decreases bytes.len(),
{
    if bytes.len() == 0 {
        0
    } else {
        line_feeds(bytes.drop_last()) + if bytes.last() == 10u8 {
            1nat
        } else {
            0nat
        }
    }
}

/// The number, counted from 1, of the line that holds the byte at offset `pos`
/// of `bytes`: one more than the line feeds before it. An offset past the end
/// stands for the end. The largest `usize` stands for every number above it.
pub open spec fn line_number(bytes: Seq<u8>, pos: int) -> nat {
    let upto = if 0 <= pos <= bytes.len() {
        pos
    } else {
        bytes.len() as int
    };
    let line = 1 + line_feeds(bytes.take(upto));
    if line <= usize::MAX {
        line
    } else {
        usize::MAX as nat
    }
}

/// The line of `file`, counted from 1, that holds the byte at offset `pos`.
pub fn find_line(file: &str, pos: usize) -> (line: usize)
    ensures
        line == line_number(file.spec_bytes(), pos as int),
{
    let bytes = file.as_bytes();
    let upto: usize = if pos <= bytes.len() {
        pos
    } else {
        bytes.len()
    };
    let mut line: usize = 1;
    let mut i: usize = 0;
    proof {
        assert(bytes@.take(0) =~= Seq::<u8>::empty());
    }
    while i < upto
        invariant
            i <= upto <= bytes@.len(),
            1 + line_feeds(bytes@.take(i as int)) <= usize::MAX ==> line == 1 + line_feeds(
                bytes@.take(i as int),
            ),
            1 + line_feeds(bytes@.take(i as int)) > usize::MAX ==> line == usize::MAX,
        decreases upto - i,
    {
        proof {
            let next = bytes@.take(i + 1);
            assert(next.drop_last() =~= bytes@.take(i as int));
            assert(next.last() == bytes@[i as int]);
        }
        if bytes[i] == 10u8 && line < usize::MAX {
            line = line + 1;
        }
        i = i + 1;
    }
    line
}

/// The decimal digit that stands for `d`.
pub open spec fn digit(d: nat) -> char {
    if d == 0 {
        '0'
    } else if d == 1 {
        '1'
    } else if d == 2 {
        '2'
    } else if d == 3 {
        '3'
    } else if d == 4 {
        '4'
    } else if d == 5 {
        '5'
    } else if d == 6 {
        '6'
    } else if d == 7 {
        '7'
    } else if d == 8 {
        '8'
    } else {
        '9'
    }
}

/// `n` written in decimal, without leading zeros.
pub open spec fn decimal(n: nat) -> Seq<char>
    decreases n,
{
    if n < 10 {
        seq![digit(n)]
    } else {
        decimal(n / 10).push(digit(n % 10))
    }
}

/// The decimal digit that stands for `d`, as a string.
fn digit_str(d: usize) -> (s: &'static str)
    requires
        d < 10,
    ensures
        s@ == seq![digit(d as nat)],
{
    proof {
        reveal_strlit("0");
        reveal_strlit("1");
        reveal_strlit("2");
        reveal_strlit("3");
        reveal_strlit("4");
        reveal_strlit("5");
        reveal_strlit("6");
        reveal_strlit("7");
        reveal_strlit("8");
        reveal_strlit("9");
    }
    let s = if d == 0 {
        "0"
    } else if d == 1 {
        "1"
    } else if d == 2 {
        "2"
    } else if d == 3 {
        "3"
    } else if d == 4 {
        "4"
    } else if d == 5 {
        "5"
    } else if d == 6 {
        "6"
    } else if d == 7 {
        "7"
    } else if d == 8 {
        "8"
    } else {
        "9"
    };
    assert(s@ =~= seq![digit(d as nat)]);
    s
}

/// Appends `n`, written in decimal, to `out`.
pub fn push_decimal(n: usize, out: &mut String)
    ensures
        final(out)@ == old(out)@ + decimal(n as nat),
    decreases n,
{
    if n >= 10 {
        push_decimal(n / 10, out);
    }
    let ghost so_far = out@;
    out.append(digit_str(n % 10));
    proof {
        if n >= 10 {
            assert(old(out)@ + decimal(n as nat / 10).push(digit(n as nat % 10)) =~= so_far
                + seq![digit(n as nat % 10)]);
        } else {
            assert(n % 10 == n);
        }
    }
}

/// Tells whether the `needle` stands in `chars` from index `at` on.
pub fn matches_at(chars: &Vec<char>, needle: &Vec<char>, at: usize) -> (b: bool)
    ensures
        b == occurs_at(chars@, needle@, at as int),
{
    if at > chars.len() || needle.len() > chars.len() - at {
        return false;
    }
    let mut k: usize = 0;
    while k < needle.len()
        invariant
            k <= needle@.len(),
            at + needle@.len() <= chars@.len() <= usize::MAX,
            forall|j: int| 0 <= j < k ==> chars@[at + j] == needle@[j],
        decreases needle@.len() - k,
    {
        if chars[at + k] != needle[k] {
            proof {
                let part = chars@.subrange(at as int, at + needle@.len());
                assert(part[k as int] == chars@[at + k]);
            }
            return false;
        }
        k = k + 1;
    }
    proof {
        assert(chars@.subrange(at as int, at + needle@.len()) =~= needle@);
    }
    true
}

/// Tells whether `needle` occurs in `chars`.
pub fn contains_chars(chars: &Vec<char>, needle: &Vec<char>) -> (b: bool)
    ensures
        b == contains_text(chars@, needle@),
{
    let n = chars.len();
    let mut at: usize = 0;
    loop
        invariant
            at <= n == chars@.len(),
            forall|i: int| 0 <= i < at ==> !occurs_at(chars@, needle@, i),
        decreases n - at,
    {
        if matches_at(chars, needle, at) {
            return true;
        }
        if at == n {
            proof {
                assert forall|i: int| !occurs_at(chars@, needle@, i) by {
                    if 0 <= i < at {
                    }
                }
            }
            return false;
        }
        at = at + 1;
    }
}

/// Tells whether `chars` ends with `suffix`.
pub fn ends_with_chars(chars: &Vec<char>, suffix: &Vec<char>) -> (b: bool)
    ensures
        b == ends_with(chars@, suffix@),
{
    if suffix.len() > chars.len() {
        return false;
    }
    let at = chars.len() - suffix.len();
    let found = matches_at(chars, suffix, at);
    proof {
        assert(chars@.skip(at as int) =~= chars@.subrange(at as int, at + suffix@.len()));
    }
    found
}

} // verus!
