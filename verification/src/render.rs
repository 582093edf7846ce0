//! The canonical text of a JSON value: compact JSON, as a call's non-string
//! arguments are handed on and as values are given to the schema validator.
use vstd::prelude::*;
use crate::json::{entries_view, items_view, lemma_array_view, lemma_object_view, Json, JsonView};
use crate::order::{by_key, lemma_by_key_members, members_by_key, refs_view};
use crate::text::digit_char;

verus! {

/// The lower-case hexadecimal digit for `d`.
pub open spec fn hex_char(d: int) -> char {
    if d < 10 {
        digit_char(d)
    } else if d == 10 {
        'a'
    } else if d == 11 {
        'b'
    } else if d == 12 {
        'c'
    } else if d == 13 {
        'd'
    } else if d == 14 {
        'e'
    } else {
        'f'
    }
}

/// How one character of a string is written inside the quotes: the quote,
/// the backslash and the control characters are escaped, every other
/// character stands for itself.
pub open spec fn escape(c: char) -> Seq<char> {
    if c == '"' {
        seq!['\\', '"']
    } else if c == '\\' {
        seq!['\\', '\\']
    } else if c == '\u{8}' {
        seq!['\\', 'b']
    } else if c == '\u{c}' {
        seq!['\\', 'f']
    } else if c == '\n' {
        seq!['\\', 'n']
    } else if c == '\r' {
        seq!['\\', 'r']
    } else if c == '\t' {
        seq!['\\', 't']
    } else if (c as int) < 0x20 {
        seq!['\\', 'u', '0', '0', hex_char(c as int / 16), hex_char(c as int % 16)]
    } else {
        seq![c]
    }
}

/// The characters of `s`, each escaped.
pub open spec fn escaped(s: Seq<char>) -> Seq<char>
    decreases s.len(),
{
    if s.len() == 0 {
        Seq::empty()
    } else {
        escaped(s.drop_last()) + escape(s.last())
    }
}

/// The string literal for `s`.
pub open spec fn quoted(s: Seq<char>) -> Seq<char> {
    seq!['"'] + escaped(s) + seq!['"']
}

/// The canonical text of `v`: compact JSON, the members of an object in
/// their written order, a number as its literal.
pub open spec fn text_of(v: JsonView) -> Seq<char>
    decreases v, 0nat,
{
    match v {
        JsonView::Null => "null"@,
        JsonView::Bool(b) => if b {
            "true"@
        } else {
            "false"@
        },
        JsonView::Number(literal) => literal,
        JsonView::String(s) => quoted(s),
        JsonView::Array(items) => seq!['['] + items_text(items, items.len()) + seq![']'],
        JsonView::Object(entries) => seq!['{'] + entries_text(entries, entries.len()) + seq!['}'],
    }
}

/// The texts of the first `n` values of `items`, with commas between them.
pub open spec fn items_text(items: Seq<JsonView>, n: nat) -> Seq<char>
    decreases items, n,
{
    if n == 0 || n > items.len() {
        Seq::empty()
    } else if n == 1 {
        text_of(items[0])
    } else {
        items_text(items, (n - 1) as nat) + seq![','] + text_of(items[n - 1])
    }
}

/// The texts of the first `n` members of `entries`, each as its quoted key,
/// a colon and its value, with commas between them.
pub open spec fn entries_text(entries: Seq<(Seq<char>, JsonView)>, n: nat) -> Seq<char>
    decreases entries, n,
{
    if n == 0 || n > entries.len() {
        Seq::empty()
    } else if n == 1 {
        quoted(entries[0].0) + seq![':'] + text_of(entries[0].1)
    } else {
        entries_text(entries, (n - 1) as nat) + seq![','] + quoted(entries[n - 1].0) + seq![':']
            + text_of(entries[n - 1].1)
    }
}

fn hex_to_char(d: u32) -> (c: char)
    requires
        d < 16,
    ensures
        c == hex_char(d as int),
{
    if d == 0 {
        '0'
    } else if d == 1 {
        '1'
    } else if d == 2 {
        '2'
    } else if d == 3 {
        '3'
    } else if d == 4 {
        '4'
    } else if d == 5 {
        '5'
    } else if d == 6 {
        '6'
    } else if d == 7 {
        '7'
    } else if d == 8 {
        '8'
    } else if d == 9 {
        '9'
    } else if d == 10 {
        'a'
    } else if d == 11 {
        'b'
    } else if d == 12 {
        'c'
    } else if d == 13 {
        'd'
    } else if d == 14 {
        'e'
    } else {
        'f'
    }
}

fn push_pair(out: &mut String, first: char, second: char)
    ensures
        final(out)@ == old(out)@ + seq![first, second],
{
    out.push(first);
    out.push(second);
    proof {
        assert(out@ =~= old(out)@ + seq![first, second]);
    }
}

/// Appends `c` to `out`, escaped as inside a string literal.
pub fn push_escaped(out: &mut String, c: char)
    ensures
        final(out)@ == old(out)@ + escape(c),
{
    if c == '"' {
        push_pair(out, '\\', '"');
    } else if c == '\\' {
        push_pair(out, '\\', '\\');
    } else if c == '\u{8}' {
        push_pair(out, '\\', 'b');
    } else if c == '\u{c}' {
        push_pair(out, '\\', 'f');
    } else if c == '\n' {
        push_pair(out, '\\', 'n');
    } else if c == '\r' {
        push_pair(out, '\\', 'r');
    } else if c == '\t' {
        push_pair(out, '\\', 't');
    } else if (c as u32) < 0x20 {
        let code = c as u32;
        push_pair(out, '\\', 'u');
        push_pair(out, '0', '0');
        push_pair(out, hex_to_char(code / 16), hex_to_char(code % 16));
        proof {
            assert(out@ =~= old(out)@ + escape(c));
        }
    } else {
        out.push(c);
        proof {
            assert(out@ =~= old(out)@ + escape(c));
        }
    }
}

/// Appends the string literal for `s` to `out`.
pub fn push_quoted(out: &mut String, s: &str)
    ensures
        final(out)@ == old(out)@ + quoted(s@),
{
    out.push('"');
    for c in it: s.chars()
        invariant
            it.seq() == s@,
            out@ == old(out)@ + seq!['"'] + escaped(s@.take(it.index() as int)),
    {
        proof {
            let k = it.index() as int;
            assert(s@.take(k + 1).drop_last() =~= s@.take(k));
            assert(s@.take(k + 1).last() == c);
            assert(old(out)@ + seq!['"'] + escaped(s@.take(k)) + escape(c) =~= old(out)@
                + seq!['"'] + escaped(s@.take(k + 1)));
        }
        push_escaped(out, c);
    }
    out.push('"');
    proof {
        assert(s@.take(s@.len() as int) =~= s@);
        assert(out@ =~= old(out)@ + quoted(s@));
    }
}

fn write_items(items: &Vec<Json>, out: &mut String)
    ensures
        final(out)@ == old(out)@ + items_text(items_view(items@), items@.len()),
    decreases items,
{
    let mut i: usize = 0;
    while i < items.len()
        invariant
            i <= items.len(),
            out@ == old(out)@ + items_text(items_view(items@), i as nat),
        decreases items.len() - i,
    {
        if i > 0 {
            out.push(',');
        }
        items[i].write_text(out);
        proof {
            let v = items_view(items@);
            assert(v[i as int] == items@[i as int]@);
            assert(out@ =~= old(out)@ + items_text(v, (i + 1) as nat));
        }
        i += 1;
    }
}

fn write_entries(entries: &Vec<(String, Json)>, out: &mut String)
    ensures
        final(out)@ == old(out)@ + entries_text(entries_view(entries@), entries@.len()),
    decreases entries,
{
    let mut i: usize = 0;
    while i < entries.len()
        invariant
            i <= entries.len(),
            out@ == old(out)@ + entries_text(entries_view(entries@), i as nat),
        decreases entries.len() - i,
    {
        if i > 0 {
            out.push(',');
        }
        push_quoted(out, entries[i].0.as_str());
        out.push(':');
        entries[i].1.write_text(out);
        proof {
            let v = entries_view(entries@);
            assert(v[i as int] == (entries@[i as int].0@, entries@[i as int].1@));
            assert(out@ =~= old(out)@ + entries_text(v, (i + 1) as nat));
        }
        i += 1;
    }
}

fn write_members(members: &Vec<&(String, Json)>, out: &mut String)
    ensures
        final(out)@ == old(out)@ + entries_text(refs_view(members@), members@.len()),
{
    let mut i: usize = 0;
    while i < members.len()
        invariant
            i <= members.len(),
            out@ == old(out)@ + entries_text(refs_view(members@), i as nat),
        decreases members.len() - i,
    {
        if i > 0 {
            out.push(',');
        }
        push_quoted(out, members[i].0.as_str());
        out.push(':');
        members[i].1.write_text(out);
        proof {
            let v = refs_view(members@);
            assert(v[i as int] == (members@[i as int].0@, members@[i as int].1@));
            assert(out@ =~= old(out)@ + entries_text(v, (i + 1) as nat));
        }
        i += 1;
    }
}

/// The canonical text of the object with the members `entries` in the order
/// of their keys: a text that does not depend on the order in which the
/// members were written.
pub fn object_text_by_key(entries: &Vec<(String, Json)>) -> (r: String)
    ensures
        r@ == text_of(JsonView::Object(by_key(entries_view(entries@)))),
{
    let members = members_by_key(entries);
    let mut out = String::new();
    out.push('{');
    write_members(&members, &mut out);
    out.push('}');
    proof {
        lemma_by_key_members(entries_view(entries@));
        assert(out@ =~= text_of(JsonView::Object(by_key(entries_view(entries@)))));
    }
    out
}

impl Json {
    /// Appends the canonical text of the value to `out`.
    pub fn write_text(&self, out: &mut String)
        ensures
            final(out)@ == old(out)@ + text_of(self@),
        decreases self,
    {
        match self {
            Json::Null => {
                out.append("null");
            },
            Json::Bool(b) => {
                if *b {
                    out.append("true");
                } else {
                    out.append("false");
                }
            },
            Json::Number(n) => {
                out.append(n.as_str());
            },
            Json::String(s) => {
                push_quoted(out, s.as_str());
            },
            Json::Array(items) => {
                proof {
                    lemma_array_view(*items);
                }
                out.push('[');
                write_items(items, out);
                out.push(']');
                proof {
                    assert(out@ =~= old(out)@ + text_of(self@));
                }
            },
            Json::Object(entries) => {
                proof {
                    lemma_object_view(*entries);
                }
                out.push('{');
                write_entries(entries, out);
                out.push('}');
                proof {
                    assert(out@ =~= old(out)@ + text_of(self@));
                }
            },
        }
    }

    /// The canonical text of the value.
    pub fn to_text(&self) -> (r: String)
        ensures
            r@ == text_of(self@),
    {
        let mut out = String::new();
        self.write_text(&mut out);
        proof {
            assert(Seq::<char>::empty() + text_of(self@) =~= text_of(self@));
        }
        out
    }
}

} // verus!
