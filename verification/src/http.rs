//! Header fields of requests and replies.
use axum::http::{HeaderName, Uri};
use vstd::prelude::*;

use crate::table;
use crate::text;

verus! {

/// The fields of a request or a reply, in order. Names are in lower case.
#[derive(Debug)]
pub struct Headers {
    pub fields: Vec<(String, Vec<u8>)>,
    /// The address at the other end of the connection, where it is known.
    pub peer: Option<String>,
}

/// A field: its name and the bytes of its value.
pub type FieldView = (Seq<char>, Seq<u8>);

pub open spec fn field_views(fields: Seq<(String, Vec<u8>)>) -> Seq<FieldView> {
    fields.map_values(|f: (String, Vec<u8>)| (f.0@, f.1@))
}

/// What is viewed is the fields; contracts speak of `peer` apart.
impl View for Headers {
    type V = Seq<FieldView>;

    open spec fn view(&self) -> Seq<FieldView> {
        field_views(self.fields@)
    }
}

/// A byte that a value may hold to count as text: printable ASCII or a tab.
pub open spec fn is_text_byte(b: u8) -> bool {
    32 <= b < 127 || b == 9
}

pub open spec fn is_text(value: Seq<u8>) -> bool {
    forall|i: int| 0 <= i < value.len() ==> is_text_byte(#[trigger] value[i])
}

/// ASCII bytes as characters.
pub open spec fn ascii_chars(value: Seq<u8>) -> Seq<char> {
    Seq::new(value.len(), |i: int| value[i] as char)
}

/// The position of the first field with a name, or the end.
pub open spec fn position(fields: Seq<FieldView>, name: Seq<char>) -> nat
    decreases fields.len(),
{
    if fields.len() == 0 || fields[0].0 == name {
        0
    } else {
        1 + position(fields.drop_first(), name)
    }
}

/// The value of the first field with a name, where it is text.
pub open spec fn field_text(fields: Seq<FieldView>, name: Seq<char>) -> Option<Seq<char>> {
    let n = position(fields, name) as int;
    if n < fields.len() && is_text(fields[n].1) {
        Some(ascii_chars(fields[n].1))
    } else {
        None
    }
}

pub proof fn lemma_position(fields: Seq<FieldView>, name: Seq<char>, n: int)
    requires
        0 <= n <= fields.len(),
        forall|i: int| 0 <= i < n ==> (#[trigger] fields[i]).0 != name,
        n < fields.len() ==> fields[n].0 == name,
    ensures
        position(fields, name) == n,
    decreases fields.len(),
{
    if n > 0 {
        assert(fields[0].0 != name);
        assert forall|i: int| 0 <= i < n - 1 implies (#[trigger] fields.drop_first()[i]).0
            != name by {
            assert(fields.drop_first()[i] == fields[i + 1]);
        }
        lemma_position(fields.drop_first(), name, n - 1);
    }
}

/// The text of a value, where it is text.
pub fn value_text(value: &Vec<u8>) -> (out: Option<String>)
    ensures
        match out {
            Some(s) => is_text(value@) && s@ == ascii_chars(value@),
            None => !is_text(value@),
        },
{
    let mut out = String::new();
    for i in 0..value.len()
        invariant
            out@ == ascii_chars(value@).take(i as int),
            forall|j: int| 0 <= j < i ==> is_text_byte(#[trigger] value@[j]),
    {
        let b = value[i];
        if !((32 <= b && b < 127) || b == 9) {
            assert(!is_text_byte(value@[i as int]));
            return None;
        }
        out.push(b as char);
    }
    Some(out)
}

/// The bytes of a text.
pub fn bytes_of(s: &str) -> (out: Vec<u8>)
    ensures
        out@ == vstd::utf8::encode_utf8(s@),
{
    let src = s.as_bytes();
    let mut out: Vec<u8> = Vec::new();
    for i in 0..src.len()
        invariant
            out@ == src@.take(i as int),
    {
        out.push(src[i]);
    }
    assert(src@.take(src@.len() as int) == src@);
    out
}

pub open spec fn is_not_named(name: Seq<char>) -> spec_fn(FieldView) -> bool {
    |f: FieldView| f.0 != name
}

/// The fields without those of one name.
pub open spec fn without(fields: Seq<FieldView>, name: Seq<char>) -> Seq<FieldView> {
    fields.filter(is_not_named(name))
}

pub fn copy_bytes(bytes: &Vec<u8>) -> (out: Vec<u8>)
    ensures
        out@ == bytes@,
{
    let mut out: Vec<u8> = Vec::new();
    for i in 0..bytes.len()
        invariant
            out@ == bytes@.take(i as int),
    {
        out.push(bytes[i]);
    }
    assert(bytes@.take(bytes.len() as int) == bytes@);
    out
}

impl Headers {
    pub fn new() -> (out: Headers)
        ensures
            out@ == Seq::<FieldView>::empty(),
            out.peer is None,
    {
        let out = Headers { fields: Vec::new(), peer: None };
        assert(out@ =~= Seq::<FieldView>::empty());
        out
    }

    /// Adds a field at the end.
    pub fn append(&mut self, name: &str, value: Vec<u8>)
        ensures
            final(self)@ == old(self)@.push((name@, value@)),
            final(self).peer == old(self).peer,
    {
        self.fields.push((name.to_owned(), value));
        assert(self@ =~= old(self)@.push((name@, value@)));
    }

    /// The value of the first field with a name, where it is text.
    pub fn text(&self, name: &str) -> (out: Option<String>)
        ensures
            text::opt(out) == field_text(self@, name@),
    {
        let mut n: usize = 0;
        while n < self.fields.len() && !text::same(self.fields[n].0.as_str(), name)
            invariant
                n <= self.fields.len(),
                forall|i: int| 0 <= i < n ==> (#[trigger] self@[i]).0 != name@,
            decreases self.fields.len() - n,
        {
            assert(self@[n as int].0 == self.fields@[n as int].0@);
            n += 1;
        }
        proof {
            if n < self.fields.len() {
                assert(self@[n as int].0 == self.fields@[n as int].0@);
            }
            lemma_position(self@, name@, n as int);
        }
        if n < self.fields.len() {
            value_text(&self.fields[n].1)
        } else {
            None
        }
    }

    /// The fields without those of one name. The address they come from stays.
    pub fn remove(&self, name: &str) -> (out: Headers)
        ensures
            out@ == without(self@, name@),
            text::opt(out.peer) == text::opt(self.peer),
    {
        let mut out = Headers::new();
        out.peer = match &self.peer {
            Some(p) => Some(p.clone()),
            None => None,
        };
        let ghost p = is_not_named(name@);
        for i in 0..self.fields.len()
            invariant
                p == is_not_named(name@),
                text::opt(out.peer) == text::opt(self.peer),
                out@ == self@.take(i as int).filter(p),
        {
            proof {
                reveal(Seq::filter);
                assert(self@.take(i + 1).drop_last() == self@.take(i as int));
                assert(self@.take(i + 1).last() == self@[i as int]);
            }
            if !text::same(self.fields[i].0.as_str(), name) {
                out.append(self.fields[i].0.as_str(), copy_bytes(&self.fields[i].1));
            }
        }
        assert(self@.take(self.fields.len() as int) == self@);
        out
    }
}

/// Removing the fields of one name leaves none of that name and all others, and
/// adds nothing.
pub proof fn law_removed_field_is_gone(fields: Seq<FieldView>, name: Seq<char>)
    ensures
        forall|i: int|
            0 <= i < without(fields, name).len() ==> (#[trigger] without(fields, name)[i]).0
                != name,
        forall|f: FieldView|
            fields.contains(f) && f.0 != name ==> #[trigger] without(fields, name).contains(f),
        forall|i: int|
            0 <= i < without(fields, name).len() ==> fields.contains(
                #[trigger] without(fields, name)[i],
            ),
        field_text(without(fields, name), name) is None,
        without(fields, name) == fields.filter(|f: FieldView| f.0 != name),
{
    broadcast use vstd::seq_lib::group_filter_ensures;

    let kept = without(fields, name);
    table::lemma_filter_from(fields, is_not_named(name));
    assert forall|i: int| 0 <= i < kept.len() implies (#[trigger] kept[i]).0 != name by {
        assert(is_not_named(name)(kept[i]));
    }
    assert forall|f: FieldView| fields.contains(f) && f.0 != name implies #[trigger] kept.contains(
        f,
    ) by {
        assert(is_not_named(name)(f));
    }
    lemma_position(kept, name, kept.len() as int);
    assert(is_not_named(name) =~= |f: FieldView| f.0 != name);
}

// ---- names and values -----------------------------------------------------

/// A character that a field value may hold.
pub open spec fn is_value_char(c: char) -> bool {
    (c >= ' ' && c != '\u{7f}') || c == '\t'
}

/// A text that can stand as a field value.
pub open spec fn is_value(s: Seq<char>) -> bool {
    forall|i: int| 0 <= i < s.len() ==> is_value_char(#[trigger] s[i])
}

pub fn value_is_valid(s: &str) -> (r: bool)
    ensures
        r == is_value(s@),
{
    let chars = text::to_chars(s);
    for i in 0..chars.len()
        invariant
            chars@ == s@,
            forall|j: int| 0 <= j < i ==> is_value_char(#[trigger] s@[j]),
    {
        let c = chars[i];
        if !((c >= ' ' && c != '\u{7f}') || c == '\t') {
            assert(!is_value_char(s@[i as int]));
            return false;
        }
    }
    true
}

/// A character that a field name may hold.
pub open spec fn is_token_char(c: char) -> bool {
    ||| text::is_digit(c) || text::is_lower(c) || text::is_upper(c)
    ||| c == '!' || c == '#' || c == '$' || c == '%' || c == '&' || c == '\''
    ||| c == '*' || c == '+' || c == '-' || c == '.' || c == '^' || c == '_'
    ||| c == '`' || c == '|' || c == '~'
}

/// A text that can stand as a field name.
pub open spec fn is_name(s: Seq<char>) -> bool {
    &&& 1 <= s.len() <= 65535
    &&& forall|i: int| 0 <= i < s.len() ==> is_token_char(#[trigger] s[i])
}

/// `HeaderName::from_bytes`: a name of 1 to 65535 token characters, in lower
/// case; nothing for any other text.
#[verifier::external_body]
pub(crate) fn header_name(s: &str) -> (out: Option<String>)
    ensures
        match out {
            Some(n) => is_name(s@) && n@ == text::ascii_lower(s@),
            None => !is_name(s@),
        },
{
    HeaderName::from_bytes(s.as_bytes()).ok().map(|n| n.as_str().to_owned())
}

/// The host that a URI names, as `http` reads it.
pub uninterp spec fn uri_host(uri: Seq<char>) -> Option<Seq<char>>;

/// `Uri::from_str` and `Uri::host`: the host that a URI names; nothing for a
/// text that is no URI or names no host. A host is made of ASCII characters.
#[verifier::external_body]
pub(crate) fn host_of_uri(uri: &str) -> (out: Option<String>)
    ensures
        text::opt(out) == uri_host(uri@),
        out is Some ==> forall|i: int| 0 <= i < out->0@.len() ==> (#[trigger] out->0@[i]) < '\u{80}',
{
    uri.parse::<Uri>().ok().and_then(|u| u.host().map(|h| h.to_owned()))
}

/// The value of a field is that of the first with its name, whatever follows. It is
/// text where it holds printable ASCII and tabs alone, and is read byte by byte.
pub proof fn law_first_field_counts(
    before: Seq<FieldView>,
    name: Seq<char>,
    value: Seq<u8>,
    behind: Seq<FieldView>,
)
    requires
        forall|i: int| 0 <= i < before.len() ==> (#[trigger] before[i]).0 != name,
    ensures
        field_text(before, name) is None,
        match field_text(before.push((name, value)) + behind, name) {
            Some(t) => t.len() == value.len() && forall|i: int|
                0 <= i < t.len() ==> {
                    let c = #[trigger] t[i];
                    c as int == value[i] as int && (32 <= value[i] <= 126 || value[i] == 9)
                },
            None => exists|i: int|
                0 <= i < value.len() && {
                    let b = #[trigger] value[i];
                    b != 9 && (b < 32 || b > 126)
                },
        },
{
    lemma_position(before, name, before.len() as int);
    let all = before.push((name, value)) + behind;
    assert forall|i: int| 0 <= i < before.len() implies (#[trigger] all[i]).0 != name by {
        assert(all[i] == before[i]);
    }
    assert(all[before.len() as int] == (name, value));
    lemma_position(all, name, before.len() as int);
    if is_text(value) {
        assert forall|i: int| 0 <= i < value.len() implies {
            let c = #[trigger] ascii_chars(value)[i];
            c as int == value[i] as int && (32 <= value[i] <= 126 || value[i] == 9)
        } by {
            assert(is_text_byte(value[i]));
        }
    } else {
        let i = choose|i: int| 0 <= i < value.len() && !is_text_byte(#[trigger] value[i]);
        assert(value[i] != 9 && (value[i] < 32 || value[i] > 126));
    }
}

/// The characters of field values and names, told by their code points and one by
/// one.
pub proof fn law_value_and_name_characters(c: char)
    ensures
        is_value_char(c) <==> c as int == 9 || (c as int >= 32 && c as int != 127),
        is_token_char(c) <==> '0' <= c <= '9' || 'a' <= c <= 'z' || 'A' <= c <= 'Z'
            || "!#$%&'*+-.^_`|~"@.contains(c),
{
    reveal_strlit("!#$%&'*+-.^_`|~");
    let t = "!#$%&'*+-.^_`|~"@;
    assert(t[0] == '!' && t[1] == '#' && t[2] == '$' && t[3] == '%' && t[4] == '&' && t[5] == '\''
        && t[6] == '*' && t[7] == '+' && t[8] == '-' && t[9] == '.' && t[10] == '^' && t[11] == '_'
        && t[12] == '`' && t[13] == '|' && t[14] == '~');
}

/// A field name has 1 to 65535 such characters, a value any number.
pub proof fn law_values_and_names(s: Seq<char>, c: char)
    ensures
        is_value(Seq::<char>::empty()),
        is_value(s.push(c)) == (is_value(s) && is_value_char(c)),
        !is_name(Seq::<char>::empty()),
        is_name(seq![c]) == is_token_char(c),
        0 < s.len() < 65535 ==> is_name(s.push(c)) == (is_name(s) && is_token_char(c)),
        s.len() > 65535 ==> !is_name(s),
{
    let t = s.push(c);
    assert(t[s.len() as int] == c);
    if is_value(t) {
        assert forall|i: int| 0 <= i < s.len() implies is_value_char(#[trigger] s[i]) by {
            assert(t[i] == s[i]);
        }
    }
    if 0 < s.len() && is_name(t) {
        assert forall|i: int| 0 <= i < s.len() implies is_token_char(#[trigger] s[i]) by {
            assert(t[i] == s[i]);
        }
    }
    assert(seq![c][0] == c);
}

} // verus!
