//! JSON text.
use vstd::prelude::*;

use crate::text::{join, to_decimal};

verus! {

pub open spec fn hex_char(digit: int) -> char {
    if digit < 10 {
        ('0' as int + digit) as char
    } else {
        ('a' as int + digit - 10) as char
    }
}

/// A character inside a JSON string: a quote, a backslash and the control characters are escaped.
pub open spec fn escaped_char(c: char) -> Seq<char> {
    if c == '"' || c == '\\' {
        seq!['\\', c]
    } else if c == '\n' {
        seq!['\\', 'n']
    } else if c == '\r' {
        seq!['\\', 'r']
    } else if c == '\t' {
        seq!['\\', 't']
    } else if c == '\u{8}' {
        seq!['\\', 'b']
    } else if c == '\u{c}' {
        seq!['\\', 'f']
    } else if ' ' > c {
        seq!['\\', 'u', '0', '0', hex_char(c as int / 16), hex_char(c as int % 16)]
    } else {
        seq![c]
    }
}

pub open spec fn escaped(value: Seq<char>) -> Seq<char>
    decreases value.len(),
{
    if value.len() == 0 {
        Seq::empty()
    } else {
        escaped(value.drop_last()) + escaped_char(value.last())
    }
}

/// A text as a JSON string: escaped, in quotes.
pub open spec fn json_string(value: Seq<char>) -> Seq<char> {
    seq!['"'] + escaped(value) + seq!['"']
}

/// `serde_json::to_string` on a text: a JSON string, in quotes, with its escapes.
#[verifier::external_body]
pub(crate) fn quote_json(value: &str) -> (r: String)
    ensures
        r@ == json_string(value@),
{
    serde_json::to_string(value).expect("a text is always a JSON string")
}

/// A JSON object of members already written as JSON.
pub open spec fn object_text(members: Seq<(Seq<char>, Seq<char>)>) -> Seq<char> {
    seq!['{'] + crate::text::joined(
        members.map_values(|m: (Seq<char>, Seq<char>)| json_string(m.0) + seq![':'] + m.1),
        ","@,
    ) + seq!['}']
}

/// A text as JSON, `null` for none.
pub open spec fn opt_string(value: Option<Seq<char>>) -> Seq<char> {
    match value {
        Some(value) => json_string(value),
        None => "null"@,
    }
}

/// One member of an object, its value already written as JSON.
#[derive(Debug)]
pub struct Member {
    pub key: &'static str,
    pub value: String,
}

pub open spec fn member_texts(members: Seq<Member>) -> Seq<(Seq<char>, Seq<char>)> {
    members.map_values(|m: Member| (m.key@, m.value@))
}

/// Writes an object.
pub fn object(members: &Vec<Member>) -> (r: String)
    ensures
        r@ == object_text(member_texts(members@)),
{
    let mut parts: Vec<String> = Vec::new();
    let mut i: usize = 0;
    while i < members.len()
        invariant
            i <= members.len(),
            parts@.len() == i,
            forall|j: int|
                0 <= j < i ==> (#[trigger] parts@[j])@ == json_string(members@[j].key@) + seq![':']
                    + members@[j].value@,
        decreases members.len() - i,
    {
        let mut part = quote_json(members[i].key);
        part.push(':');
        part.append(members[i].value.as_str());
        assert(part@ =~= json_string(members@[i as int].key@) + seq![':']
            + members@[i as int].value@);
        parts.push(part);
        i += 1;
    }
    let mut out = String::new();
    out.push('{');
    out.append(join(&parts, ",").as_str());
    out.push('}');
    proof {
        let texts = member_texts(members@);
        assert(crate::text::texts(parts@) =~= texts.map_values(
            |m: (Seq<char>, Seq<char>)| json_string(m.0) + seq![':'] + m.1,
        ));
        assert(out@ =~= object_text(texts));
    }
    out
}

/// A text as JSON.
pub fn string(value: &str) -> (r: String)
    ensures
        r@ == json_string(value@),
{
    quote_json(value)
}

/// A text as JSON, `null` for none.
pub fn string_or_null(value: Option<&String>) -> (r: String)
    ensures
        r@ == opt_string(
            match value {
                Some(value) => Some(value@),
                None => None,
            },
        ),
{
    match value {
        Some(value) => quote_json(value.as_str()),
        None => "null".to_owned(),
    }
}

/// A number as JSON.
pub fn number(value: u64) -> (r: String)
    ensures
        r@ == crate::text::decimal(value as nat),
{
    to_decimal(value as u128)
}

} // verus!
