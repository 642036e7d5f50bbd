//! Text: the character-level operations that requests, headers and addresses
//! are read and written with.
use vstd::prelude::*;
use vstd::utf8::*;

verus! {

// ---- std functions on strings -------------------------------------------

/// `String::push`: the character goes to the end of the string.
pub assume_specification[ String::push ](s: &mut String, c: char)
    ensures
        final(s)@ == old(s)@.push(c),
;

/// `String::push_str`: the text goes to the end of the string.
pub assume_specification[ String::push_str ](s: &mut String, t: &str)
    ensures
        final(s)@ == old(s)@ + t@,
;

// ---- characters -----------------------------------------------------------

/// The characters with the Unicode property White_Space.
pub open spec fn is_space(c: char) -> bool {
    ||| '\u{9}' <= c <= '\u{d}'
    ||| c == ' '
    ||| c == '\u{85}'
    ||| c == '\u{a0}'
    ||| c == '\u{1680}'
    ||| '\u{2000}' <= c <= '\u{200a}'
    ||| c == '\u{2028}'
    ||| c == '\u{2029}'
    ||| c == '\u{202f}'
    ||| c == '\u{205f}'
    ||| c == '\u{3000}'
}

pub fn char_is_space(c: char) -> (r: bool)
    ensures
        r == is_space(c),
{
    ('\u{9}' <= c && c <= '\u{d}') || c == ' ' || c == '\u{85}' || c == '\u{a0}' || c == '\u{1680}'
        || ('\u{2000}' <= c && c <= '\u{200a}') || c == '\u{2028}' || c == '\u{2029}' || c
        == '\u{202f}' || c == '\u{205f}' || c == '\u{3000}'
}

pub open spec fn is_digit(c: char) -> bool {
    '0' <= c <= '9'
}

pub open spec fn is_lower(c: char) -> bool {
    'a' <= c <= 'z'
}

pub open spec fn is_upper(c: char) -> bool {
    'A' <= c <= 'Z'
}

/// The ASCII upper-case form of a character; others are kept.
pub open spec fn upper_char(c: char) -> char {
    if is_lower(c) {
        (c as u32 - 32) as char
    } else {
        c
    }
}

/// The ASCII lower-case form of a character; others are kept.
pub open spec fn lower_char(c: char) -> char {
    if is_upper(c) {
        (c as u32 + 32) as char
    } else {
        c
    }
}

// ---- strings and character vectors ----------------------------------------

/// The characters of a string.
pub fn to_chars(s: &str) -> (out: Vec<char>)
    ensures
        out@ == s@,
{
    let mut out: Vec<char> = Vec::new();
    for c in it: s.chars()
        invariant
            out@ == it.seq().take(it.index() as int),
            it.seq() == s@,
    {
        out.push(c);
    }
    out
}

/// Whether two strings hold the same characters.
pub(crate) fn same(a: &str, b: &str) -> (r: bool)
    ensures
        r == (a@ == b@),
{
    let x = a.as_bytes();
    let y = b.as_bytes();
    proof {
        encode_utf8_decode_utf8(a@);
        encode_utf8_decode_utf8(b@);
    }
    if x.len() != y.len() {
        return false;
    }
    for i in 0..x.len()
        invariant
            x@ == encode_utf8(a@),
            y@ == encode_utf8(b@),
            x.len() == y.len(),
            forall|j: int| 0 <= j < i ==> x@[j] == y@[j],
    {
        if x[i] != y[i] {
            return false;
        }
    }
    assert(x@ =~= y@);
    true
}

/// The string that holds `chars[from..to]`.
pub fn substring(chars: &Vec<char>, from: usize, to: usize) -> (out: String)
    requires
        from <= to <= chars.len(),
    ensures
        out@ == chars@.subrange(from as int, to as int),
{
    let mut out = String::new();
    for i in from..to
        invariant
            to <= chars.len(),
            from <= i,
            out@ == chars@.subrange(from as int, i as int),
    {
        out.push(chars[i]);
    }
    out
}

/// The first `n` characters, or all of them.
pub open spec fn head(s: Seq<char>, n: nat) -> Seq<char> {
    if s.len() <= n {
        s
    } else {
        s.take(n as int)
    }
}

pub fn take_chars(s: &str, n: usize) -> (out: String)
    ensures
        out@ == head(s@, n as nat),
{
    let chars = to_chars(s);
    let to: usize = if chars.len() <= n {
        chars.len()
    } else {
        n
    };
    substring(&chars, 0, to)
}

// ---- trimming and case ----------------------------------------------------

pub open spec fn trim_start(s: Seq<char>) -> Seq<char>
    decreases s.len(),
{
    if s.len() > 0 && is_space(s[0]) {
        trim_start(s.drop_first())
    } else {
        s
    }
}

pub open spec fn trim_end(s: Seq<char>) -> Seq<char>
    decreases s.len(),
{
    if s.len() > 0 && is_space(s.last()) {
        trim_end(s.drop_last())
    } else {
        s
    }
}

/// `s` without white space at either end.
pub open spec fn trimmed(s: Seq<char>) -> Seq<char> {
    trim_end(trim_start(s))
}

pub fn trim(s: &str) -> (out: String)
    ensures
        out@ == trimmed(s@),
{
    let chars = to_chars(s);
    let mut lo: usize = 0;
    assert(s@.skip(0) == s@);
    while lo < chars.len() && char_is_space(chars[lo])
        invariant
            chars@ == s@,
            lo <= chars.len(),
            trim_start(s@) == trim_start(s@.skip(lo as int)),
        decreases chars.len() - lo,
    {
        assert(s@.skip(lo as int).drop_first() == s@.skip(lo + 1));
        lo += 1;
    }
    let ghost body = s@.skip(lo as int);
    assert(body == trim_start(s@));
    let mut hi: usize = chars.len();
    assert(chars@.subrange(lo as int, hi as int) == body);
    while lo < hi && char_is_space(chars[hi - 1])
        invariant
            lo <= hi <= chars.len(),
            trim_end(body) == trim_end(chars@.subrange(lo as int, hi as int)),
        decreases hi,
    {
        assert(chars@.subrange(lo as int, hi as int).drop_last() == chars@.subrange(
            lo as int,
            hi - 1,
        ));
        hi -= 1;
    }
    substring(&chars, lo, hi)
}

pub open spec fn ascii_upper(s: Seq<char>) -> Seq<char> {
    Seq::new(s.len(), |i: int| upper_char(s[i]))
}

pub open spec fn ascii_lower(s: Seq<char>) -> Seq<char> {
    Seq::new(s.len(), |i: int| lower_char(s[i]))
}

pub fn to_upper(s: &str) -> (out: String)
    ensures
        out@ == ascii_upper(s@),
{
    let chars = to_chars(s);
    let mut out = String::new();
    for i in 0..chars.len()
        invariant
            chars@ == s@,
            out@ == ascii_upper(s@).take(i as int),
    {
        let c = chars[i];
        out.push(
            if 'a' <= c && c <= 'z' {
                ((c as u8) - 32) as char
            } else {
                c
            },
        );
    }
    out
}

pub fn to_lower(s: &str) -> (out: String)
    ensures
        out@ == ascii_lower(s@),
{
    let chars = to_chars(s);
    let mut out = String::new();
    for i in 0..chars.len()
        invariant
            chars@ == s@,
            out@ == ascii_lower(s@).take(i as int),
    {
        let c = chars[i];
        out.push(
            if 'A' <= c && c <= 'Z' {
                ((c as u8) + 32) as char
            } else {
                c
            },
        );
    }
    out
}

/// Two texts are equal but for the case of ASCII letters.
pub fn same_ignoring_case(a: &str, b: &str) -> (r: bool)
    ensures
        r == (ascii_lower(a@) == ascii_lower(b@)),
{
    same(to_lower(a).as_str(), to_lower(b).as_str())
}

// ---- searching ------------------------------------------------------------

pub fn starts_with(s: &str, p: &str) -> (r: bool)
    ensures
        r == p@.is_prefix_of(s@),
{
    let a = to_chars(s);
    let b = to_chars(p);
    if b.len() > a.len() {
        return false;
    }
    for i in 0..b.len()
        invariant
            a@ == s@,
            b@ == p@,
            b.len() <= a.len(),
            forall|j: int| 0 <= j < i ==> a@[j] == b@[j],
    {
        if a[i] != b[i] {
            assert(p@[i as int] != s@.subrange(0, p@.len() as int)[i as int]);
            return false;
        }
    }
    assert(p@ == s@.subrange(0, p@.len() as int));
    true
}

/// What follows the prefix `p` in `s`, where `s` has it.
pub open spec fn stripped(s: Seq<char>, p: Seq<char>) -> Option<Seq<char>> {
    if p.is_prefix_of(s) {
        Some(s.skip(p.len() as int))
    } else {
        None
    }
}

/// The view of an optional string.
pub open spec fn opt(s: Option<String>) -> Option<Seq<char>> {
    match s {
        Some(t) => Some(t@),
        None => None,
    }
}

pub fn strip_prefix(s: &str, p: &str) -> (out: Option<String>)
    ensures
        opt(out) == stripped(s@, p@),
{
    if starts_with(s, p) {
        let a = to_chars(s);
        let b = to_chars(p);
        let out = substring(&a, b.len(), a.len());
        assert(out@ == s@.skip(p@.len() as int));
        Some(out)
    } else {
        None
    }
}

/// `p` occurs in `s` at position `i`.
pub open spec fn occurs_at(s: Seq<char>, p: Seq<char>, i: int) -> bool {
    0 <= i <= s.len() - p.len() && s.subrange(i, i + p.len()) == p
}

/// `p` occurs somewhere in `s`.
pub open spec fn has_text(s: Seq<char>, p: Seq<char>) -> bool {
    exists|i: int| occurs_at(s, p, i)
}

pub fn contains(s: &str, p: &str) -> (r: bool)
    ensures
        r == has_text(s@, p@),
{
    let a = to_chars(s);
    let b = to_chars(p);
    if b.len() > a.len() {
        return false;
    }
    let last: usize = a.len() - b.len();
    let mut i: usize = 0;
    while i <= last
        invariant
            a@ == s@,
            b@ == p@,
            last == a.len() - b.len(),
            i <= last + 1,
            forall|k: int| 0 <= k < i ==> !occurs_at(s@, p@, k),
        decreases last + 1 - i,
    {
        let mut j: usize = 0;
        while j < b.len() && a[i + j] == b[j]
            invariant
                a@ == s@,
                b@ == p@,
                j <= b.len(),
                i + b.len() <= a.len(),
                forall|k: int| 0 <= k < j ==> a@[i + k] == b@[k],
            decreases b.len() - j,
        {
            j += 1;
        }
        if j == b.len() {
            assert(s@.subrange(i as int, i + p@.len()) == p@);
            assert(occurs_at(s@, p@, i as int));
            return true;
        }
        assert(!occurs_at(s@, p@, i as int)) by {
            if occurs_at(s@, p@, i as int) {
                assert(s@.subrange(i as int, i + p@.len())[j as int] == a@[i + j]);
            }
        }
        if i == last {
            return false;
        }
        i += 1;
    }
    false
}

/// The length of the part of `s` before the first `c`; all of `s` without one.
pub open spec fn run_until(s: Seq<char>, c: char) -> nat
    decreases s.len(),
{
    if s.len() == 0 || s[0] == c {
        0
    } else {
        1 + run_until(s.drop_first(), c)
    }
}

/// `run_until` is the first position of `c`.
pub proof fn lemma_run_until(s: Seq<char>, c: char, n: nat)
    requires
        n <= s.len(),
        forall|i: int| 0 <= i < n ==> s[i] != c,
        n == s.len() || s[n as int] == c,
    ensures
        run_until(s, c) == n,
    decreases s.len(),
{
    if n > 0 {
        lemma_run_until(s.drop_first(), c, (n - 1) as nat);
    }
}

/// The first position at or after `from` of `c`, or the end.
pub fn find_char(chars: &Vec<char>, c: char, from: usize) -> (n: usize)
    requires
        from <= chars.len(),
    ensures
        from <= n <= chars.len(),
        n - from == run_until(chars@.skip(from as int), c),
        n < chars.len() ==> chars@[n as int] == c,
        forall|i: int| from <= i < n ==> chars@[i] != c,
{
    let mut n: usize = from;
    while n < chars.len() && chars[n] != c
        invariant
            from <= n <= chars.len(),
            forall|i: int| from <= i < n ==> chars@[i] != c,
        decreases chars.len() - n,
    {
        n += 1;
    }
    proof {
        lemma_run_until(chars@.skip(from as int), c, (n - from) as nat);
    }
    n
}

/// What follows the last `c` in `s`; all of `s` without one.
pub open spec fn after_last(s: Seq<char>, c: char) -> Seq<char>
    decreases s.len(),
{
    if s.len() == 0 || s.last() == c {
        Seq::empty()
    } else {
        after_last(s.drop_last(), c).push(s.last())
    }
}

pub fn tail_after(s: &str, c: char) -> (out: String)
    ensures
        out@ == after_last(s@, c),
{
    let chars = to_chars(s);
    let mut n: usize = chars.len();
    assert(chars@.take(n as int) == s@);
    assert(chars@.subrange(n as int, chars.len() as int) == Seq::<char>::empty());
    while n > 0 && chars[n - 1] != c
        invariant
            n <= chars.len(),
            after_last(s@, c) == after_last(chars@.take(n as int), c) + chars@.subrange(
                n as int,
                chars.len() as int,
            ),
        decreases n,
    {
        assert(chars@.take(n as int).drop_last() == chars@.take(n - 1));
        assert(after_last(s@, c) == after_last(chars@.take(n - 1), c) + chars@.subrange(
            n - 1,
            chars.len() as int,
        ));
        n -= 1;
    }
    substring(&chars, n, chars.len())
}

// ---- numbers --------------------------------------------------------------

/// The decimal digit for `n`.
pub open spec fn digit(n: nat) -> char {
    (n + 48) as char
}

/// A number written in decimal, without leading zeros.
pub open spec fn decimal(n: nat) -> Seq<char>
    decreases n,
{
    if n < 10 {
        seq![digit(n)]
    } else {
        decimal(n / 10).push(digit(n % 10))
    }
}

/// An integer written in decimal, with a minus sign where it is negative.
pub open spec fn signed_decimal(n: int) -> Seq<char> {
    if n < 0 {
        seq!['-'] + decimal((-n) as nat)
    } else {
        decimal(n as nat)
    }
}

pub fn decimal_of(n: u64) -> (out: String)
    ensures
        out@ == decimal(n as nat),
    decreases n,
{
    let mut out = if n < 10 {
        String::new()
    } else {
        decimal_of(n / 10)
    };
    out.push((((n % 10) as u8) + 48) as char);
    out
}

pub fn signed_decimal_of(n: i64) -> (out: String)
    ensures
        out@ == signed_decimal(n as int),
{
    if n < 0 {
        let mut out = "-".to_owned();
        proof {
            reveal_strlit("-");
        }
        let magnitude: u64 = if n == i64::MIN {
            0x8000_0000_0000_0000
        } else {
            (-n) as u64
        };
        out.push_str(decimal_of(magnitude).as_str());
        out
    } else {
        decimal_of(n as u64)
    }
}

pub open spec fn all_digits(s: Seq<char>) -> bool {
    forall|i: int| 0 <= i < s.len() ==> is_digit(#[trigger] s[i])
}

/// The number that a row of decimal digits stands for.
pub open spec fn digits_value(s: Seq<char>) -> nat
    decreases s.len(),
{
    if s.len() == 0 {
        0
    } else {
        digits_value(s.drop_last()) * 10 + (s.last() as nat - 48) as nat
    }
}

/// An optional plus sign and at least one digit, for a number that fits `u16`.
pub open spec fn parsed_u16(s: Seq<char>) -> Option<u16> {
    let d = if s.len() > 0 && s[0] == '+' {
        s.drop_first()
    } else {
        s
    };
    if d.len() > 0 && all_digits(d) && digits_value(d) <= u16::MAX {
        Some(digits_value(d) as u16)
    } else {
        None
    }
}

/// An optional sign and at least one digit, for a number that fits `i64`.
pub open spec fn parsed_i64(s: Seq<char>) -> Option<i64> {
    let signed = s.len() > 0 && (s[0] == '+' || s[0] == '-');
    let d = if signed {
        s.drop_first()
    } else {
        s
    };
    let v: int = if signed && s[0] == '-' {
        -digits_value(d)
    } else {
        digits_value(d) as int
    };
    if d.len() > 0 && all_digits(d) && i64::MIN <= v <= i64::MAX {
        Some(v as i64)
    } else {
        None
    }
}

proof fn lemma_digits_grow(s: Seq<char>, n: int)
    requires
        0 <= n <= s.len(),
    ensures
        digits_value(s.take(n)) <= digits_value(s),
    decreases s.len(),
{
    if n < s.len() {
        lemma_digits_grow(s.drop_last(), n);
        assert(s.drop_last().take(n) == s.take(n));
    } else {
        assert(s.take(n) == s);
    }
}

/// The value of a row of digits that is at most `max`; `None` for anything else.
fn parse_digits(chars: &Vec<char>, from: usize, max: u64) -> (out: Option<u64>)
    requires
        from <= chars.len(),
        max <= 0x8000_0000_0000_0000,
    ensures
        ({
            let d = chars@.skip(from as int);
            match out {
                Some(v) => d.len() > 0 && all_digits(d) && digits_value(d) == v && v <= max,
                None => d.len() == 0 || !all_digits(d) || digits_value(d) > max,
            }
        }),
{
    let ghost d = chars@.skip(from as int);
    if from == chars.len() {
        return None;
    }
    let mut acc: u64 = 0;
    let mut i: usize = from;
    while i < chars.len()
        invariant
            from <= i <= chars.len(),
            from < chars.len(),
            max <= 0x8000_0000_0000_0000,
            d == chars@.skip(from as int),
            acc <= max,
            acc == digits_value(d.take(i - from)),
            forall|j: int| 0 <= j < i - from ==> is_digit(#[trigger] d[j]),
        decreases chars.len() - i,
    {
        let c = chars[i];
        if !('0' <= c && c <= '9') {
            assert(!is_digit(d[i - from]));
            return None;
        }
        let step: u64 = ((c as u32) - 48) as u64;
        assert(d.take(i + 1 - from).drop_last() == d.take(i - from));
        assert(d.take(i + 1 - from).last() == c);
        proof {
            lemma_digits_grow(d, i + 1 - from);
        }
        if step > max || acc > max / 10 || acc * 10 > max - step {
            assert(acc * 10 + step > max);
            return None;
        }
        acc = acc * 10 + step;
        i += 1;
    }
    assert(d.take(d.len() as int) == d);
    Some(acc)
}

pub fn parse_u16(s: &str) -> (out: Option<u16>)
    ensures
        out == parsed_u16(s@),
{
    let chars = to_chars(s);
    let from: usize = if chars.len() > 0 && chars[0] == '+' {
        1
    } else {
        0
    };
    assert(from == 0 ==> chars@.skip(0) == s@);
    assert(from == 1 ==> chars@.skip(1) == s@.drop_first());
    match parse_digits(&chars, from, 65535) {
        Some(v) => Some(v as u16),
        None => None,
    }
}

pub fn parse_i64(s: &str) -> (out: Option<i64>)
    ensures
        out == parsed_i64(s@),
{
    let chars = to_chars(s);
    let negative = chars.len() > 0 && chars[0] == '-';
    let from: usize = if chars.len() > 0 && (chars[0] == '+' || chars[0] == '-') {
        1
    } else {
        0
    };
    assert(from == 0 ==> chars@.skip(0) == s@);
    assert(from == 1 ==> chars@.skip(1) == s@.drop_first());
    let max: u64 = if negative {
        0x8000_0000_0000_0000
    } else {
        0x7fff_ffff_ffff_ffff
    };
    match parse_digits(&chars, from, max) {
        Some(v) => {
            if negative {
                if v == 0x8000_0000_0000_0000 {
                    Some(i64::MIN)
                } else {
                    Some(-(v as i64))
                }
            } else {
                Some(v as i64)
            }
        },
        None => None,
    }
}

/// Writing a number and reading it back: `decimal` is a row of digits whose
/// value is the number.
pub proof fn lemma_decimal_reads_back(n: nat)
    ensures
        decimal(n).len() > 0,
        all_digits(decimal(n)),
        digits_value(decimal(n)) == n,
    decreases n,
{
    if n < 10 {
        assert(decimal(n).drop_last() == Seq::<char>::empty());
        assert(digits_value(Seq::<char>::empty()) == 0);
    } else {
        lemma_decimal_reads_back(n / 10);
        assert(decimal(n).drop_last() == decimal(n / 10));
    }
}

/// A port written in decimal reads back as the same port.
pub proof fn law_port_text_reads_back(port: u16)
    ensures
        parsed_u16(decimal(port as nat)) == Some(port),
{
    lemma_decimal_reads_back(port as nat);
    assert(is_digit(decimal(port as nat)[0]));
}

/// Different integers are written differently.
pub proof fn law_signed_decimal_is_injective(a: int, b: int)
    requires
        signed_decimal(a) == signed_decimal(b),
    ensures
        a == b,
{
    let x: nat = if a < 0 {
        (-a) as nat
    } else {
        a as nat
    };
    let y: nat = if b < 0 {
        (-b) as nat
    } else {
        b as nat
    };
    lemma_decimal_reads_back(x);
    lemma_decimal_reads_back(y);
    assert(is_digit(decimal(x)[0]) && is_digit(decimal(y)[0]));
    if a < 0 {
        assert(signed_decimal(a)[0] == '-');
        assert(signed_decimal(a).drop_first() == decimal(x));
    }
    if b < 0 {
        assert(signed_decimal(b)[0] == '-');
        assert(signed_decimal(b).drop_first() == decimal(y));
    }
}

// ---- bytes ----------------------------------------------------------------

/// The number of bytes that a string takes in UTF-8.
pub fn byte_len(s: &str) -> (n: usize)
    ensures
        n == encode_utf8(s@).len(),
{
    s.as_bytes().len()
}

/// The lower-case hexadecimal digit for `n`.
pub open spec fn hex_digit(n: nat) -> char {
    if n < 10 {
        (n + 48) as char
    } else {
        (n + 87) as char
    }
}

/// Bytes written in hexadecimal, two lower-case digits each.
pub open spec fn hex_text(bytes: Seq<u8>) -> Seq<char>
    decreases bytes.len(),
{
    if bytes.len() == 0 {
        Seq::empty()
    } else {
        hex_text(bytes.drop_last()).push(hex_digit(bytes.last() as nat / 16)).push(
            hex_digit(bytes.last() as nat % 16),
        )
    }
}

fn hex_char(n: u8) -> (c: char)
    requires
        n < 16,
    ensures
        c == hex_digit(n as nat),
{
    if n < 10 {
        (n + 48) as char
    } else {
        (n + 87) as char
    }
}

pub fn hex(bytes: &[u8]) -> (out: String)
    ensures
        out@ == hex_text(bytes@),
{
    let mut out = String::new();
    for i in 0..bytes.len()
        invariant
            out@ == hex_text(bytes@.take(i as int)),
    {
        let b = bytes[i];
        assert(bytes@.take(i + 1).drop_last() == bytes@.take(i as int));
        out.push(hex_char(b / 16));
        out.push(hex_char(b % 16));
    }
    assert(bytes@.take(bytes.len() as int) == bytes@);
    out
}

pub proof fn lemma_hex_text_len(bytes: Seq<u8>)
    ensures
        hex_text(bytes).len() == 2 * bytes.len(),
    decreases bytes.len(),
{
    if bytes.len() > 0 {
        lemma_hex_text_len(bytes.drop_last());
    }
}

// ---- what the operations do -----------------------------------------------

/// A run ends at the first `c`; without one it is the whole text.
pub proof fn law_run_ends_at_first(s: Seq<char>, c: char)
    ensures
        run_until(s, c) <= s.len(),
        forall|i: int| 0 <= i < run_until(s, c) ==> s[i] != c,
        run_until(s, c) < s.len() ==> s[run_until(s, c) as int] == c,
    decreases s.len(),
{
    if s.len() > 0 && s[0] != c {
        let rest = s.drop_first();
        law_run_ends_at_first(rest, c);
        assert forall|i: int| 0 <= i < run_until(s, c) implies s[i] != c by {
            if i > 0 {
                assert(s[i] == rest[i - 1]);
            }
        }
    }
}

/// White space is what Unicode says it is.
pub proof fn law_white_space(c: char)
    ensures
        is_space(c) <==> {
            let n = c as u32;
            n == 9 || n == 10 || n == 11 || n == 12 || n == 13 || n == 32 || n == 133 || n == 160
                || n == 5760 || 8192 <= n <= 8202 || n == 8232 || n == 8233 || n == 8239 || n
                == 8287 || n == 12288
        },
{
}

proof fn lemma_trim_start(s: Seq<char>) -> (n: int)
    ensures
        0 <= n <= s.len(),
        trim_start(s) == s.skip(n),
        forall|i: int| 0 <= i < n ==> is_space(#[trigger] s[i]),
        n < s.len() ==> !is_space(s[n]),
    decreases s.len(),
{
    if s.len() > 0 && is_space(s[0]) {
        let rest = s.drop_first();
        let m = lemma_trim_start(rest);
        assert(rest.skip(m) =~= s.skip(m + 1));
        assert forall|i: int| 0 <= i < m + 1 implies is_space(#[trigger] s[i]) by {
            if i > 0 {
                assert(s[i] == rest[i - 1]);
            }
        }
        m + 1
    } else {
        assert(s.skip(0) =~= s);
        0
    }
}

proof fn lemma_trim_end(s: Seq<char>) -> (n: int)
    ensures
        0 <= n <= s.len(),
        trim_end(s) == s.take(n),
        forall|i: int| n <= i < s.len() ==> is_space(#[trigger] s[i]),
        n > 0 ==> !is_space(s[n - 1]),
    decreases s.len(),
{
    if s.len() > 0 && is_space(s.last()) {
        let rest = s.drop_last();
        let m = lemma_trim_end(rest);
        assert(rest.take(m) =~= s.take(m));
        assert forall|i: int| m <= i < s.len() implies is_space(#[trigger] s[i]) by {
            if i < rest.len() {
                assert(s[i] == rest[i]);
            }
        }
        m
    } else {
        assert(s.take(s.len() as int) =~= s);
        s.len() as int
    }
}

/// Trimming takes white space off both ends, all of it and nothing else.
pub proof fn law_trimming_takes_off_the_ends(s: Seq<char>) -> (r: (int, int))
    ensures
        0 <= r.0 <= r.1 <= s.len(),
        trimmed(s) == s.subrange(r.0, r.1),
        forall|i: int| 0 <= i < r.0 ==> is_space(#[trigger] s[i]),
        forall|i: int| r.1 <= i < s.len() ==> is_space(#[trigger] s[i]),
        r.0 < r.1 ==> !is_space(s[r.0]) && !is_space(s[r.1 - 1]),
{
    let a = lemma_trim_start(s);
    let rest = s.skip(a);
    let m = lemma_trim_end(rest);
    assert(rest.take(m) =~= s.subrange(a, a + m));
    assert forall|i: int| a + m <= i < s.len() implies is_space(#[trigger] s[i]) by {
        assert(s[i] == rest[i - a]);
    }
    if m > 0 {
        assert(rest[m - 1] == s[a + m - 1]);
        if is_space(s[a]) {
            assert(a < s.len());
        }
    }
    (a, a + m)
}

/// A text without white space at its ends is trimmed already, and what stands
/// between white space is what trimming leaves.
pub proof fn law_trimming_leaves_the_middle(a: Seq<char>, b: Seq<char>, c: Seq<char>)
    requires
        forall|i: int| 0 <= i < a.len() ==> is_space(#[trigger] a[i]),
        forall|i: int| 0 <= i < c.len() ==> is_space(#[trigger] c[i]),
        b.len() > 0 ==> !is_space(b[0]) && !is_space(b.last()),
    ensures
        trimmed(a + b + c) == b,
{
    let s = a + b + c;
    let r = law_trimming_takes_off_the_ends(s);
    let (lo, hi) = (a.len() as int, (a.len() + b.len()) as int);
    assert forall|i: int| 0 <= i < s.len() && !(lo <= i < hi) implies is_space(#[trigger] s[i]) by {
        if i < lo {
            assert(s[i] == a[i]);
        } else {
            assert(s[i] == c[i - hi]);
        }
    }
    if b.len() > 0 {
        assert(s[lo] == b[0] && s[hi - 1] == b.last());
        assert(r.0 <= lo && hi <= r.1);
        assert(r.0 == lo && r.1 == hi);
        assert(s.subrange(lo, hi) =~= b);
    } else {
        if r.0 < r.1 {
            assert(is_space(s[r.0]));
        }
        assert(s.subrange(r.0, r.1) =~= b);
    }
}

/// Changing the case keeps the length and every character but the 26 letters.
pub proof fn law_case_is_changed_letter_by_letter(s: Seq<char>)
    ensures
        ascii_lower(s).len() == s.len(),
        ascii_upper(s).len() == s.len(),
        forall|i: int|
            0 <= i < s.len() ==> {
                let (c, l) = (s[i], #[trigger] ascii_lower(s)[i]);
                if 65 <= c as u32 <= 90 {
                    l as u32 == c as u32 + 32
                } else {
                    l == c
                }
            },
        forall|i: int|
            0 <= i < s.len() ==> {
                let (c, u) = (s[i], #[trigger] ascii_upper(s)[i]);
                if 97 <= c as u32 <= 122 {
                    u as u32 == c as u32 - 32
                } else {
                    u == c
                }
            },
{
}

/// The head of a text is its beginning, as long as it may be.
pub proof fn law_head_is_the_beginning(s: Seq<char>, n: nat)
    ensures
        head(s, n).len() == (if s.len() <= n {
            s.len()
        } else {
            n
        }),
        forall|i: int| 0 <= i < head(s, n).len() ==> #[trigger] head(s, n)[i] == s[i],
{
}

/// A prefix can be put back, and is missed only where it is not there.
pub proof fn law_stripping_takes_the_prefix(s: Seq<char>, p: Seq<char>, rest: Seq<char>)
    ensures
        stripped(p + rest, p) == Some(rest),
        match stripped(s, p) {
            Some(r) => s == p + r,
            None => forall|r: Seq<char>| s != #[trigger] (p + r),
        },
{
    assert((p + rest).subrange(0, p.len() as int) =~= p);
    assert((p + rest).skip(p.len() as int) =~= rest);
    if p.is_prefix_of(s) {
        assert(s =~= p + s.skip(p.len() as int));
    } else {
        assert forall|r: Seq<char>| s != #[trigger] (p + r) by {
            assert((p + r).subrange(0, p.len() as int) =~= p);
        }
    }
}

/// A text occurs in another where something can be put before and behind it.
pub proof fn law_occurrence(a: Seq<char>, p: Seq<char>, b: Seq<char>, s: Seq<char>)
    ensures
        has_text(a + p + b, p),
        has_text(s, p) ==> exists|i: int|
            0 <= i <= s.len() - p.len() && s == #[trigger] s.take(i) + p + s.skip(i + p.len()),
{
    let t = a + p + b;
    assert(t.subrange(a.len() as int, (a.len() + p.len()) as int) =~= p);
    assert(occurs_at(t, p, a.len() as int));
    if has_text(s, p) {
        let i = choose|i: int| occurs_at(s, p, i);
        assert(s =~= s.take(i) + s.subrange(i, i + p.len()) + s.skip(i + p.len()));
        assert(s == s.take(i) + p + s.skip(i + p.len()));
    }
}

/// What follows the last `c`; the whole text where there is none.
pub proof fn law_tail_follows_the_last(a: Seq<char>, tail: Seq<char>, c: char)
    requires
        forall|i: int| 0 <= i < tail.len() ==> tail[i] != c,
    ensures
        after_last(tail, c) == tail,
        after_last(a + seq![c] + tail, c) == tail,
    decreases tail.len(),
{
    if tail.len() > 0 {
        let init = tail.drop_last();
        assert forall|i: int| 0 <= i < init.len() implies init[i] != c by {
            assert(init[i] == tail[i]);
        }
        law_tail_follows_the_last(a, init, c);
        assert((a + seq![c] + tail).drop_last() =~= a + seq![c] + init);
        assert((a + seq![c] + tail).last() == tail.last());
        assert(init.push(tail.last()) =~= tail);
    } else {
        assert(after_last(tail, c) =~= tail);
        assert((a + seq![c] + tail).last() == c);
        assert(after_last(a + seq![c] + tail, c) =~= tail);
    }
}

/// Digits stand for a number by their places, and a number is written with no
/// more of them than it needs.
pub proof fn law_decimal_places(s: Seq<char>, c: char, n: nat)
    requires
        '0' <= c <= '9',
    ensures
        digits_value(s.push(c)) == digits_value(s) * 10 + (c as int - '0' as int),
        digits_value(seq![c]) == c as int - '0' as int,
        digits_value(decimal(n)) == n,
        forall|i: int| 0 <= i < decimal(n).len() ==> '0' <= #[trigger] decimal(n)[i] <= '9',
        decimal(n).len() > 0,
        n > 0 ==> decimal(n)[0] != '0',
        n == 0 ==> decimal(n) == seq!['0'],
    decreases n,
{
    assert(s.push(c).drop_last() =~= s);
    assert(seq![c].drop_last() =~= Seq::<char>::empty());
    assert(digits_value(Seq::<char>::empty()) == 0);
    lemma_decimal_reads_back(n);
    assert forall|i: int| 0 <= i < decimal(n).len() implies '0' <= #[trigger] decimal(n)[i]
        <= '9' by {
        assert(is_digit(decimal(n)[i]));
    }
    if n >= 10 {
        law_decimal_places(s, c, n / 10);
    }
}

/// A port number is one to many digits with a plus sign before them or not, up to
/// 65535.
pub proof fn law_port_text(d: Seq<char>)
    ensures
        parsed_u16(d) is Some ==> {
            let t = if d.len() > 0 && d[0] == '+' {
                d.skip(1)
            } else {
                d
            };
            &&& t.len() > 0
            &&& forall|i: int| 0 <= i < t.len() ==> '0' <= #[trigger] t[i] <= '9'
            &&& digits_value(t) == parsed_u16(d)->0
        },
        d.len() > 0 && (forall|i: int| 0 <= i < d.len() ==> '0' <= #[trigger] d[i] <= '9') ==> {
            let v = if digits_value(d) <= 65535 {
                Some(digits_value(d) as u16)
            } else {
                None
            };
            parsed_u16(d) == v && parsed_u16(seq!['+'] + d) == v
        },
{
    assert(d.len() > 0 ==> d.skip(1) =~= d.drop_first());
    if parsed_u16(d) is Some {
        let t = if d.len() > 0 && d[0] == '+' {
            d.skip(1)
        } else {
            d
        };
        assert forall|i: int| 0 <= i < t.len() implies '0' <= #[trigger] t[i] <= '9' by {
            assert(is_digit(t[i]));
        }
    }
    if d.len() > 0 && forall|i: int| 0 <= i < d.len() ==> '0' <= #[trigger] d[i] <= '9' {
        assert(all_digits(d)) by {
            assert forall|i: int| 0 <= i < d.len() implies is_digit(#[trigger] d[i]) by {}
        }
        assert((seq!['+'] + d).drop_first() =~= d);
        assert(d[0] != '+');
    }
}

/// An integer is one to many digits with a sign before them or not.
pub proof fn law_integer_text(d: Seq<char>)
    requires
        d.len() > 0,
        forall|i: int| 0 <= i < d.len() ==> '0' <= #[trigger] d[i] <= '9',
    ensures
        digits_value(d) <= i64::MAX ==> parsed_i64(d) == Some(digits_value(d) as i64)
            && parsed_i64(seq!['+'] + d) == Some(digits_value(d) as i64),
        digits_value(d) <= i64::MAX + 1 ==> parsed_i64(seq!['-'] + d) == Some(
            (-digits_value(d)) as i64,
        ),
        digits_value(d) > i64::MAX ==> parsed_i64(d) is None,
        digits_value(d) > i64::MAX + 1 ==> parsed_i64(seq!['-'] + d) is None,
        signed_decimal(digits_value(d) as int) == decimal(digits_value(d)),
        digits_value(d) > 0 ==> signed_decimal(-digits_value(d)) == seq!['-'] + decimal(
            digits_value(d),
        ),
{
    assert(all_digits(d)) by {
        assert forall|i: int| 0 <= i < d.len() implies is_digit(#[trigger] d[i]) by {}
    }
    assert((seq!['+'] + d).drop_first() =~= d);
    assert((seq!['-'] + d).drop_first() =~= d);
    assert(d[0] != '+' && d[0] != '-');
}

/// Each byte is written with two digits, the higher half first.
pub proof fn law_hexadecimal(bytes: Seq<u8>, b: u8)
    ensures
        hex_text(Seq::<u8>::empty()) == Seq::<char>::empty(),
        hex_text(bytes.push(b)) == hex_text(bytes) + seq![
            "0123456789abcdef"@[b as int / 16],
            "0123456789abcdef"@[b as int % 16],
        ],
{
    reveal_strlit("0123456789abcdef");
    assert(bytes.push(b).drop_last() =~= bytes);
    let (h, l) = (b as int / 16, b as int % 16);
    assert(0 <= h < 16 && 0 <= l < 16);
    assert(hex_text(bytes.push(b)) =~= hex_text(bytes) + seq![
        "0123456789abcdef"@[h],
        "0123456789abcdef"@[l],
    ]);
}

} // verus!
