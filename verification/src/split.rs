//! Taking text apart: at a character, into lines, into words.
use vstd::prelude::*;

use crate::text;

verus! {

/// The views of a row of strings.
pub open spec fn views(items: Seq<String>) -> Seq<Seq<char>> {
    items.map_values(|s: String| s@)
}

/// The parts of `s` between the occurrences of `c`; one part without any.
pub open spec fn parts(s: Seq<char>, c: char) -> Seq<Seq<char>>
    decreases s.len(),
{
    let n = text::run_until(s, c);
    if n >= s.len() {
        seq![s]
    } else {
        seq![s.take(n as int)] + parts(s.skip(n as int + 1), c)
    }
}

pub fn split(s: &str, c: char) -> (out: Vec<String>)
    ensures
        views(out@) == parts(s@, c),
{
    let chars = text::to_chars(s);
    let mut out: Vec<String> = Vec::new();
    let mut from: usize = 0;
    assert(s@.skip(0) == s@);
    assert(views(out@) == Seq::<Seq<char>>::empty());
    let mut more = true;
    while more
        invariant
            chars@ == s@,
            from <= chars.len(),
            more ==> parts(s@, c) == views(out@) + parts(s@.skip(from as int), c),
            !more ==> parts(s@, c) == views(out@),
        decreases chars.len() - from + (if more { 1int } else { 0int }),
    {
        let n = text::find_char(&chars, c, from);
        let ghost rest = s@.skip(from as int);
        let ghost before = views(out@);
        let part = text::substring(&chars, from, n);
        assert(part@ == rest.take(n - from));
        out.push(part);
        assert(views(out@) == before.push(part@));
        if n < chars.len() {
            assert(rest.skip(n - from + 1) == s@.skip(n + 1));
            assert(before + (seq![part@] + parts(s@.skip(n + 1), c)) == before.push(part@) + parts(
                s@.skip(n + 1),
                c,
            ));
            from = n + 1;
        } else {
            assert(rest.take(n - from) == rest);
            assert(before + seq![rest] == before.push(rest));
            more = false;
        }
    }
    out
}

/// `s` without one carriage return at its end.
pub open spec fn without_cr(s: Seq<char>) -> Seq<char> {
    if s.len() > 0 && s.last() == '\r' {
        s.drop_last()
    } else {
        s
    }
}

/// The lines of `s`. A line ends at a line feed, with or without a carriage
/// return before it; what follows the last line feed is a line where it is not
/// empty.
pub open spec fn lines(s: Seq<char>) -> Seq<Seq<char>> {
    let p = parts(s, '\n');
    Seq::new(
        if p.last().len() == 0 {
            (p.len() - 1) as nat
        } else {
            p.len()
        },
        |i: int|
            if i < p.len() - 1 {
                without_cr(p[i])
            } else {
                p[i]
            },
    )
}

/// There is always a part.
pub proof fn lemma_parts_some(s: Seq<char>, c: char)
    ensures
        parts(s, c).len() > 0,
{
}

pub fn lines_of(s: &str) -> (out: Vec<String>)
    ensures
        views(out@) == lines(s@),
{
    let p = split(s, '\n');
    let ghost pv = parts(s@, '\n');
    proof {
        lemma_parts_some(s@, '\n');
        assert(pv.last() == p@[p.len() - 1]@);
    }
    let last: usize = p.len() - 1;
    let n: usize = if p[last].as_str().is_empty() {
        last
    } else {
        p.len()
    };
    let mut out: Vec<String> = Vec::new();
    for i in 0..n
        invariant
            views(p@) == pv,
            pv == parts(s@, '\n'),
            last == p.len() - 1,
            n <= p.len(),
            n == lines(s@).len(),
            out.len() == i,
            forall|j: int| 0 <= j < i ==> (#[trigger] out@[j])@ == lines(s@)[j],
    {
        assert(pv[i as int] == p@[i as int]@);
        if i < last {
            let chars = text::to_chars(p[i].as_str());
            if chars.len() > 0 && chars[chars.len() - 1] == '\r' {
                let line = text::substring(&chars, 0, chars.len() - 1);
                assert(line@ == without_cr(pv[i as int]));
                out.push(line);
            } else {
                out.push(p[i].clone());
            }
        } else {
            out.push(p[i].clone());
        }
    }
    assert(views(out@) =~= lines(s@));
    out
}

/// The length of the run of characters at the front of `s` that are not white
/// space.
pub open spec fn word_len(s: Seq<char>) -> nat
    decreases s.len(),
{
    if s.len() == 0 || text::is_space(s[0]) {
        0
    } else {
        1 + word_len(s.drop_first())
    }
}

proof fn lemma_word_len(s: Seq<char>, n: nat)
    requires
        n <= s.len(),
        forall|i: int| 0 <= i < n ==> !text::is_space(#[trigger] s[i]),
        n == s.len() || text::is_space(s[n as int]),
    ensures
        word_len(s) == n,
    decreases s.len(),
{
    if n > 0 {
        lemma_word_len(s.drop_first(), (n - 1) as nat);
    }
}

/// The part of `s` from its second word on, if it has one: past white space, a
/// word, and white space again.
pub open spec fn second_word(s: Seq<char>) -> Option<Seq<char>> {
    let a = text::trim_start(s);
    let b = text::trim_start(a.skip(word_len(a) as int));
    if b.len() > 0 {
        Some(b.take(word_len(b) as int))
    } else {
        None
    }
}

fn skip_space(chars: &Vec<char>, from: usize) -> (n: usize)
    requires
        from <= chars.len(),
    ensures
        from <= n <= chars.len(),
        chars@.skip(n as int) == text::trim_start(chars@.skip(from as int)),
{
    let mut n: usize = from;
    while n < chars.len() && text::char_is_space(chars[n])
        invariant
            from <= n <= chars.len(),
            text::trim_start(chars@.skip(from as int)) == text::trim_start(chars@.skip(n as int)),
        decreases chars.len() - n,
    {
        assert(chars@.skip(n as int).drop_first() == chars@.skip(n + 1));
        n += 1;
    }
    n
}

fn skip_word(chars: &Vec<char>, from: usize) -> (n: usize)
    requires
        from <= chars.len(),
    ensures
        from <= n <= chars.len(),
        n - from == word_len(chars@.skip(from as int)),
{
    let mut n: usize = from;
    while n < chars.len() && !text::char_is_space(chars[n])
        invariant
            from <= n <= chars.len(),
            forall|i: int| from <= i < n ==> !text::is_space(#[trigger] chars@[i]),
        decreases chars.len() - n,
    {
        n += 1;
    }
    proof {
        let rest = chars@.skip(from as int);
        assert forall|i: int| 0 <= i < n - from implies !text::is_space(#[trigger] rest[i]) by {
            assert(rest[i] == chars@[from + i]);
        }
        lemma_word_len(rest, (n - from) as nat);
    }
    n
}

pub fn second_word_of(s: &str) -> (out: Option<String>)
    ensures
        text::opt(out) == second_word(s@),
{
    let chars = text::to_chars(s);
    assert(s@.skip(0) == s@);
    let a = skip_space(&chars, 0);
    let b = skip_word(&chars, a);
    assert(chars@.skip(a as int).skip(b - a) == chars@.skip(b as int));
    let c = skip_space(&chars, b);
    let d = skip_word(&chars, c);
    if c < chars.len() {
        let out = text::substring(&chars, c, d);
        assert(out@ == chars@.skip(c as int).take(d - c));
        Some(out)
    } else {
        None
    }
}

/// The separators that people put into a code.
pub open spec fn is_code_char() -> spec_fn(char) -> bool {
    |c: char| c != '-' && c != ' ' && c != ':'
}

/// A code as it is compared: upper case, without white space at its ends and
/// without separators.
pub open spec fn plain_code(s: Seq<char>) -> Seq<char> {
    text::ascii_upper(text::trimmed(s)).filter(is_code_char())
}

pub fn plain_code_of(s: &str) -> (out: String)
    ensures
        out@ == plain_code(s@),
{
    let upper = text::to_upper(text::trim(s).as_str());
    let chars = text::to_chars(upper.as_str());
    let mut out = String::new();
    for i in 0..chars.len()
        invariant
            chars@ == upper@,
            out@ == chars@.take(i as int).filter(is_code_char()),
    {
        proof {
            reveal(Seq::filter);
            assert(chars@.take(i + 1).drop_last() == chars@.take(i as int));
            assert(chars@.take(i + 1).last() == chars@[i as int]);
        }
        let c = chars[i];
        if c != '-' && c != ' ' && c != ':' {
            out.push(c);
        }
    }
    assert(chars@.take(chars.len() as int) == chars@);
    out
}

/// Taking apart at `c`: a text without `c` is one part, and what stands before the
/// first `c` is the first part, followed by the parts of the rest.
pub proof fn law_parts_are_between(a: Seq<char>, c: char, b: Seq<char>)
    requires
        forall|i: int| 0 <= i < a.len() ==> a[i] != c,
    ensures
        parts(a, c) == seq![a],
        parts(a + seq![c] + b, c) == seq![a] + parts(b, c),
{
    text::lemma_run_until(a, c, a.len());
    let s = a + seq![c] + b;
    assert forall|i: int| 0 <= i < a.len() implies s[i] != c by {
        assert(s[i] == a[i]);
    }
    text::lemma_run_until(s, c, a.len());
    assert(s.take(a.len() as int) =~= a);
    assert(s.skip(a.len() as int + 1) =~= b);
}

/// Lines: an empty text has none, one without a line feed is one line, and a line
/// feed ends a line, together with a carriage return before it.
pub proof fn law_lines_end_at_line_feeds(a: Seq<char>, b: Seq<char>)
    requires
        forall|i: int| 0 <= i < a.len() ==> a[i] != '\n',
    ensures
        lines(a) == (if a.len() == 0 {
            Seq::empty()
        } else {
            seq![a]
        }),
        lines(a + seq!['\n'] + b) == seq![
            if a.len() > 0 && a.last() == '\r' {
                a.take(a.len() - 1)
            } else {
                a
            },
        ] + lines(b),
{
    law_parts_are_between(a, '\n', b);
    lemma_parts_some(b, '\n');
    if a.len() > 0 {
        assert(a.drop_last() =~= a.take(a.len() - 1));
        assert(lines(a) =~= seq![a]);
    } else {
        assert(lines(a) =~= Seq::empty());
    }
    let all = parts(a + seq!['\n'] + b, '\n');
    let rest = parts(b, '\n');
    assert(all.last() == rest.last());
    let first = if a.len() > 0 && a.last() == '\r' {
        a.take(a.len() - 1)
    } else {
        a
    };
    assert forall|i: int| 0 <= i < lines(b).len() implies lines(a + seq!['\n'] + b)[i + 1]
        == #[trigger] lines(b)[i] by {
        assert(all[i + 1] == rest[i]);
    }
    assert(lines(a + seq!['\n'] + b) =~= seq![first] + lines(b));
}

/// The second word of a text is what stands between the second run of white space
/// and the next, where the first may be empty.
pub proof fn law_second_word(
    a: Seq<char>,
    first: Seq<char>,
    b: Seq<char>,
    second: Seq<char>,
    rest: Seq<char>,
)
    requires
        forall|i: int| 0 <= i < a.len() ==> text::is_space(#[trigger] a[i]),
        forall|i: int| 0 <= i < first.len() ==> !text::is_space(#[trigger] first[i]),
        forall|i: int| 0 <= i < b.len() ==> text::is_space(#[trigger] b[i]),
        forall|i: int| 0 <= i < second.len() ==> !text::is_space(#[trigger] second[i]),
        first.len() > 0 && b.len() > 0 && second.len() > 0,
        rest.len() > 0 ==> text::is_space(rest[0]),
    ensures
        second_word(a + first + b + second + rest) == Some(second),
        second_word(a + first) is None,
        second_word(a + first + b) is None,
{
    let s = a + first + b + second + rest;
    let t = first + b + second + rest;
    assert(s =~= a + t);
    lemma_leading_space(a, t);
    let u = b + (second + rest);
    assert(t =~= first + u);
    lemma_leading_word(first, u);
    assert(t.skip(first.len() as int) =~= u);
    lemma_leading_space(b, second + rest);
    lemma_leading_word(second, rest);
    assert((second + rest).take(second.len() as int) =~= second);
    lemma_leading_space(a, first);
    lemma_leading_word(first, Seq::empty());
    assert(first + Seq::<char>::empty() =~= first);
    assert(first.skip(first.len() as int) =~= Seq::<char>::empty());
    assert(a + first + b =~= a + (first + b));
    lemma_leading_space(a, first + b);
    lemma_leading_word(first, b);
    assert((first + b).skip(first.len() as int) =~= b);
    lemma_leading_space(b, Seq::empty());
    assert(b + Seq::<char>::empty() =~= b);
}

proof fn lemma_leading_space(a: Seq<char>, t: Seq<char>)
    requires
        forall|i: int| 0 <= i < a.len() ==> text::is_space(#[trigger] a[i]),
        t.len() > 0 ==> !text::is_space(t[0]),
    ensures
        text::trim_start(a + t) == t,
    decreases a.len(),
{
    if a.len() > 0 {
        assert((a + t)[0] == a[0]);
        assert((a + t).drop_first() =~= a.drop_first() + t);
        assert forall|i: int| 0 <= i < a.drop_first().len() implies text::is_space(
            #[trigger] a.drop_first()[i],
        ) by {
            assert(a.drop_first()[i] == a[i + 1]);
        }
        lemma_leading_space(a.drop_first(), t);
    } else {
        assert(a + t =~= t);
    }
}

proof fn lemma_leading_word(w: Seq<char>, rest: Seq<char>)
    requires
        forall|i: int| 0 <= i < w.len() ==> !text::is_space(#[trigger] w[i]),
        rest.len() > 0 ==> text::is_space(rest[0]),
    ensures
        word_len(w + rest) == w.len(),
{
    let s = w + rest;
    assert forall|i: int| 0 <= i < w.len() implies !text::is_space(#[trigger] s[i]) by {
        assert(s[i] == w[i]);
    }
    lemma_word_len(s, w.len());
}

/// A code is compared in upper case and without hyphens, blanks and colons; every
/// other character between the white space at its ends counts, in its order.
pub proof fn law_plain_code(s: Seq<char>)
    ensures
        plain_code(s) == text::ascii_upper(text::trimmed(s)).filter(
            |c: char| c != '-' && c != ' ' && c != ':',
        ),
        forall|i: int|
            0 <= i < plain_code(s).len() ==> {
                let c = #[trigger] plain_code(s)[i];
                c != '-' && c != ' ' && c != ':' && !('a' <= c <= 'z')
            },
        forall|i: int|
            0 <= i < text::trimmed(s).len() ==> {
                let c = #[trigger] text::trimmed(s)[i];
                c != '-' && c != ' ' && c != ':' ==> plain_code(s).contains(
                    if 'a' <= c <= 'z' {
                        (c as u32 - 32) as char
                    } else {
                        c
                    },
                )
            },
{
    broadcast use vstd::seq_lib::group_filter_ensures;

    let upper = text::ascii_upper(text::trimmed(s));
    assert(is_code_char() =~= |c: char| c != '-' && c != ' ' && c != ':');
    crate::table::lemma_filter_from(upper, is_code_char());
    assert forall|i: int| 0 <= i < plain_code(s).len() implies {
        let c = #[trigger] plain_code(s)[i];
        c != '-' && c != ' ' && c != ':' && !('a' <= c <= 'z')
    } by {
        upper.lemma_filter_pred(is_code_char(), i);
        let k = upper.index_of(plain_code(s)[i]);
        assert(upper[k] == plain_code(s)[i]);
    }
    assert forall|i: int| 0 <= i < text::trimmed(s).len() implies {
        let c = #[trigger] text::trimmed(s)[i];
        c != '-' && c != ' ' && c != ':' ==> plain_code(s).contains(
            if 'a' <= c <= 'z' {
                (c as u32 - 32) as char
            } else {
                c
            },
        )
    } by {
        let c = text::trimmed(s)[i];
        if c != '-' && c != ' ' && c != ':' {
            assert(upper[i] == text::upper_char(c));
            assert(upper.contains(upper[i]));
            assert(is_code_char()(upper[i]));
        }
    }
}

} // verus!
