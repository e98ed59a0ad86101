//! A small JSON object emitter: a builder that accumulates `"key": value`
//! pairs and the string escaping it relies on.

use vstd::prelude::*;

use crate::text;

verus! {

/// One escaped character: quotes, backslashes, newlines and tabs get a
/// backslash escape, everything else passes through.
pub open spec fn json_escaped_char(c: char) -> Seq<char> {
    if c == '"' {
        seq!['\\', '"']
    } else if c == '\\' {
        seq!['\\', '\\']
    } else if c == '\n' {
        seq!['\\', 'n']
    } else if c == '\t' {
        seq!['\\', 't']
    } else {
        seq![c]
    }
}

/// The text with every character escaped for a JSON string literal.
pub open spec fn json_escaped(s: Seq<char>) -> Seq<char>
    decreases s.len(),
{
    if s.len() == 0 {
        Seq::empty()
    } else {
        json_escaped(s.drop_last()) + json_escaped_char(s.last())
    }
}

/// Escapes a text for inclusion in a JSON string literal.
pub fn escape_json_string(on: &str) -> (r: String)
    ensures
        r@ == json_escaped(on@),
{
    let s = text::str_to_chars(on);
    let mut out: Vec<char> = Vec::new();
    let mut i: usize = 0;
    proof {
        assert(out@ =~= json_escaped(s@.subrange(0, 0)));
    }
    while i < s.len()
        invariant
            i <= s@.len(),
            s@ == on@,
            out@ == json_escaped(s@.subrange(0, i as int)),
        decreases s@.len() - i,
    {
        let c = s[i];
        if c == '"' {
            out.push('\\');
            out.push('"');
        } else if c == '\\' {
            out.push('\\');
            out.push('\\');
        } else if c == '\n' {
            out.push('\\');
            out.push('n');
        } else if c == '\t' {
            out.push('\\');
            out.push('t');
        } else {
            out.push(c);
        }
        i += 1;
        proof {
            let ghost pfx = s@.subrange(0, i as int);
            assert(pfx.drop_last() =~= s@.subrange(0, i - 1));
            assert(pfx.last() == s@[i - 1]);
            assert(out@ =~= json_escaped(pfx));
        }
    }
    proof {
        assert(s@.subrange(0, s@.len() as int) =~= s@);
    }
    text::chars_to_string(&out)
}

/// Appends a string slice to a buffer.
fn append_part(buf: &mut String, s: &str)
    ensures
        final(buf)@ == old(buf)@ + s@,
{
    vstd::string::StringExecFns::append(buf, s)
}

/// A value that can write itself as JSON onto a buffer. Implementations
/// outside this crate may append whatever their value's JSON form is.
pub trait ToJSON {
    fn append(&self, buf: &mut String);
}

/// Builds one JSON object, key by key.
pub struct Builder {
    started: bool,
    buf: String,
}

impl Builder {
    /// The text accumulated so far.
    pub closed spec fn content(&self) -> Seq<char> {
        self.buf@
    }

    /// Opens the object.
    pub fn new() -> (r: Builder)
        ensures
            r.content() == "{"@,
    {
        Builder { started: false, buf: String::from_str("{") }
    }

    /// Adds one `"key": value` pair. What follows the key's framing is
    /// decided by the value's own `ToJSON` implementation, so nothing more
    /// can be promised of the accumulated text here.
    pub fn add(&mut self, key: &str, value: impl ToJSON) {
        if self.started {
            append_part(&mut self.buf, ",");
        }
        append_part(&mut self.buf, "\"");
        append_part(&mut self.buf, key);
        append_part(&mut self.buf, "\":");
        value.append(&mut self.buf);
        self.started = true;
    }

    /// Closes the object and hands the text back.
    pub fn end(self) -> (r: String)
        ensures
            r@ == self.content() + "}"@,
    {
        let mut buf = self.buf;
        append_part(&mut buf, "}");
        buf
    }
}

impl ToJSON for String {
    /// A quoted, escaped string literal.
    fn append(&self, buf: &mut String)
        ensures
            final(buf)@ == old(buf)@ + seq!['"'] + json_escaped(self@) + seq!['"'],
    {
        append_part(buf, "\"");
        let escaped = escape_json_string(self.as_str());
        append_part(buf, escaped.as_str());
        append_part(buf, "\"");
        proof {
            assert("\""@ =~= seq!['"']) by {
                reveal_strlit("\"");
            }
            assert(buf@ =~= old(buf)@ + seq!['"'] + json_escaped(self@) + seq!['"']);
        }
    }
}

impl<'a> ToJSON for &'a str {
    /// A quoted, escaped string literal.
    fn append(&self, buf: &mut String)
        ensures
            final(buf)@ == old(buf)@ + seq!['"'] + json_escaped(self@) + seq!['"'],
    {
        append_part(buf, "\"");
        let escaped = escape_json_string(self);
        append_part(buf, escaped.as_str());
        append_part(buf, "\"");
        proof {
            assert("\""@ =~= seq!['"']) by {
                reveal_strlit("\"");
            }
            assert(buf@ =~= old(buf)@ + seq!['"'] + json_escaped(self@) + seq!['"']);
        }
    }
}

impl ToJSON for bool {
    /// `true` or `false`.
    fn append(&self, buf: &mut String)
        ensures
            final(buf)@ == old(buf)@ + (if *self {
                "true"@
            } else {
                "false"@
            }),
    {
        if *self {
            append_part(buf, "true");
        } else {
            append_part(buf, "false");
        }
    }
}

impl ToJSON for u64 {
    /// The decimal digits of the number.
    fn append(&self, buf: &mut String)
        ensures
            final(buf)@ == old(buf)@ + text::int_dec(*self as int),
    {
        let mut digits: Vec<char> = Vec::new();
        text::push_u128_dec(&mut digits, *self as u128);
        let s = text::chars_to_string(&digits);
        append_part(buf, s.as_str());
    }
}

impl ToJSON for u32 {
    /// The decimal digits of the number.
    fn append(&self, buf: &mut String)
        ensures
            final(buf)@ == old(buf)@ + text::int_dec(*self as int),
    {
        let wide: u64 = *self as u64;
        ToJSON::append(&wide, buf);
    }
}

impl ToJSON for u16 {
    /// The decimal digits of the number.
    fn append(&self, buf: &mut String)
        ensures
            final(buf)@ == old(buf)@ + text::int_dec(*self as int),
    {
        let wide: u64 = *self as u64;
        ToJSON::append(&wide, buf);
    }
}

impl ToJSON for u8 {
    /// The decimal digits of the number.
    fn append(&self, buf: &mut String)
        ensures
            final(buf)@ == old(buf)@ + text::int_dec(*self as int),
    {
        let wide: u64 = *self as u64;
        ToJSON::append(&wide, buf);
    }
}

impl ToJSON for i64 {
    /// The decimal digits of the number, with a minus sign if negative.
    fn append(&self, buf: &mut String)
        ensures
            final(buf)@ == old(buf)@ + text::int_dec(*self as int),
    {
        let mut digits: Vec<char> = Vec::new();
        if *self < 0 {
            digits.push('-');
            let m: u128 = (-(*self as i128)) as u128;
            text::push_u128_dec(&mut digits, m);
            proof {
                assert(digits@ =~= text::int_dec(*self as int));
            }
        } else {
            text::push_u128_dec(&mut digits, *self as u128);
        }
        let s = text::chars_to_string(&digits);
        append_part(buf, s.as_str());
    }
}

impl ToJSON for i32 {
    /// The decimal digits of the number, with a minus sign if negative.
    fn append(&self, buf: &mut String)
        ensures
            final(buf)@ == old(buf)@ + text::int_dec(*self as int),
    {
        let wide: i64 = *self as i64;
        ToJSON::append(&wide, buf);
    }
}

impl ToJSON for i16 {
    /// The decimal digits of the number, with a minus sign if negative.
    fn append(&self, buf: &mut String)
        ensures
            final(buf)@ == old(buf)@ + text::int_dec(*self as int),
    {
        let wide: i64 = *self as i64;
        ToJSON::append(&wide, buf);
    }
}

impl ToJSON for i8 {
    /// The decimal digits of the number, with a minus sign if negative.
    fn append(&self, buf: &mut String)
        ensures
            final(buf)@ == old(buf)@ + text::int_dec(*self as int),
    {
        let wide: i64 = *self as i64;
        ToJSON::append(&wide, buf);
    }
}

/// A borrowed value to emit, behind the common trait.
pub struct JSON<'a>(pub &'a dyn ToJSON);

impl<'a> ToJSON for JSON<'a> {
    fn append(&self, buf: &mut String) {
        self.0.append(buf)
    }
}

impl<T: ToJSON> ToJSON for Vec<T> {
    /// A JSON array of the elements in order.
    fn append(&self, buf: &mut String) {
        append_part(buf, "[");
        let mut i: usize = 0;
        while i < self.len()
            decreases self@.len() - i,
        {
            if i > 0 {
                append_part(buf, ",");
            }
            ToJSON::append(&self[i], buf);
            i += 1;
        }
        append_part(buf, "]");
    }
}

} // verus!
