//! Writing a structured document back to compact structured text: keys in
//! merge order, string values quoted and escaped, list values as compact
//! quoted arrays, passthrough values spliced verbatim.

use vstd::prelude::*;

use crate::document::StructuredDocument;
use crate::text::{chars_of, push_all, string_of};
use crate::value::{TypedValue, ValueModel};

verus! {

/// The lower-case hexadecimal digit for `n`.
pub open spec fn hex_char(n: int) -> char {
    if n == 0 {
        '0'
    } else if n == 1 {
        '1'
    } else if n == 2 {
        '2'
    } else if n == 3 {
        '3'
    } else if n == 4 {
        '4'
    } else if n == 5 {
        '5'
    } else if n == 6 {
        '6'
    } else if n == 7 {
        '7'
    } else if n == 8 {
        '8'
    } else if n == 9 {
        '9'
    } else if n == 10 {
        'a'
    } else if n == 11 {
        'b'
    } else if n == 12 {
        'c'
    } else if n == 13 {
        'd'
    } else if n == 14 {
        'e'
    } else {
        'f'
    }
}

/// How one character appears inside a quoted string: quotes and backslashes
/// are escaped, the common control characters take their short escapes, any
/// other control character takes a four-digit escape, and everything else
/// stands for itself.
pub open spec fn escape_char(c: char) -> Seq<char> {
    if c == '"' {
        seq!['\\', '"']
    } else if c == '\\' {
        seq!['\\', '\\']
    } else if c == '\u{8}' {
        seq!['\\', 'b']
    } else if c == '\u{c}' {
        seq!['\\', 'f']
    } else if c == '\n' {
        seq!['\\', 'n']
    } else if c == '\r' {
        seq!['\\', 'r']
    } else if c == '\t' {
        seq!['\\', 't']
    } else if (c as u32) < 32 {
        seq!['\\', 'u', '0', '0', hex_char((c as int) / 16), hex_char((c as int) % 16)]
    } else {
        seq![c]
    }
}

/// `s` with every character escaped for a quoted string.
pub open spec fn escaped(s: Seq<char>) -> Seq<char>
    decreases s.len(),
{
    if s.len() == 0 {
        Seq::empty()
    } else {
        escape_char(s[0]) + escaped(s.drop_first())
    }
}

/// `s` as a quoted string literal.
pub open spec fn quoted(s: Seq<char>) -> Seq<char> {
    seq!['"'] + escaped(s) + seq!['"']
}

/// The items as comma-separated quoted literals.
pub open spec fn items_text(items: Seq<Seq<char>>) -> Seq<char>
    decreases items.len(),
{
    if items.len() == 0 {
        Seq::empty()
    } else if items.len() == 1 {
        quoted(items[0])
    } else {
        quoted(items[0]) + seq![','] + items_text(items.drop_first())
    }
}

/// How a typed value appears in structured text: strings quoted, lists as
/// compact arrays of quoted items, passthrough text verbatim.
pub open spec fn value_text(v: ValueModel) -> Seq<char> {
    match v {
        ValueModel::Str(s) => quoted(s),
        ValueModel::Items(items) => seq!['['] + items_text(items) + seq![']'],
        ValueModel::Raw(t) => t,
    }
}

/// The entries as comma-separated `"key":value` pairs.
pub open spec fn entries_text(d: Seq<(Seq<char>, ValueModel)>) -> Seq<char>
    decreases d.len(),
{
    if d.len() == 0 {
        Seq::empty()
    } else if d.len() == 1 {
        quoted(d[0].0) + seq![':'] + value_text(d[0].1)
    } else {
        quoted(d[0].0) + seq![':'] + value_text(d[0].1) + seq![','] + entries_text(d.drop_first())
    }
}

/// A whole document as compact structured text, keys in document order.
pub open spec fn doc_text(d: Seq<(Seq<char>, ValueModel)>) -> Seq<char> {
    seq!['{'] + entries_text(d) + seq!['}']
}

/// Appends the escape of one character.
fn push_escape_char(out: &mut Vec<char>, c: char)
    ensures
        final(out)@ == old(out)@ + escape_char(c),
{
    if c == '"' {
        out.push('\\');
        out.push('"');
    } else if c == '\\' {
        out.push('\\');
        out.push('\\');
    } else if c == '\u{8}' {
        out.push('\\');
        out.push('b');
    } else if c == '\u{c}' {
        out.push('\\');
        out.push('f');
    } else if c == '\n' {
        out.push('\\');
        out.push('n');
    } else if c == '\r' {
        out.push('\\');
        out.push('r');
    } else if c == '\t' {
        out.push('\\');
        out.push('t');
    } else if (c as u32) < 32 {
        out.push('\\');
        out.push('u');
        out.push('0');
        out.push('0');
        out.push(hex_char_exec((c as u32) / 16));
        out.push(hex_char_exec((c as u32) % 16));
    } else {
        out.push(c);
    }
    proof {
        assert(out@ =~= old(out)@ + escape_char(c));
    }
}

/// The lower-case hexadecimal digit for `n`.
fn hex_char_exec(n: u32) -> (r: char)
    ensures
        r == hex_char(n as int),
{
    if n == 0 {
        '0'
    } else if n == 1 {
        '1'
    } else if n == 2 {
        '2'
    } else if n == 3 {
        '3'
    } else if n == 4 {
        '4'
    } else if n == 5 {
        '5'
    } else if n == 6 {
        '6'
    } else if n == 7 {
        '7'
    } else if n == 8 {
        '8'
    } else if n == 9 {
        '9'
    } else if n == 10 {
        'a'
    } else if n == 11 {
        'b'
    } else if n == 12 {
        'c'
    } else if n == 13 {
        'd'
    } else if n == 14 {
        'e'
    } else {
        'f'
    }
}

/// Appends `s` as a quoted, escaped string literal.
fn push_quoted(out: &mut Vec<char>, s: &Vec<char>)
    ensures
        final(out)@ == old(out)@ + quoted(s@),
{
    out.push('"');
    let n = s.len();
    let mut i: usize = 0;
    proof {
        assert(s@.skip(0) =~= s@);
    }
    while i < n
        invariant
            n == s@.len(),
            i <= n,
            out@ + escaped(s@.skip(i as int)) == old(out)@ + seq!['"'] + escaped(s@),
        decreases n - i,
    {
        let ghost rest = s@.skip(i as int);
        proof {
            assert(rest[0] == s@[i as int]);
            assert(rest.drop_first() =~= s@.skip(i + 1));
        }
        push_escape_char(out, s[i]);
        i += 1;
    }
    proof {
        assert(escaped(s@.skip(n as int)) =~= Seq::<char>::empty());
        assert(out@ + escaped(s@.skip(n as int)) =~= out@);
    }
    out.push('"');
    proof {
        assert(out@ =~= old(out)@ + quoted(s@));
    }
}

/// Appends a typed value in its structured-text form.
pub fn push_value(out: &mut Vec<char>, v: &TypedValue)
    ensures
        final(out)@ == old(out)@ + value_text(v@),
{
    match v {
        TypedValue::Str(s) => {
            let cs = chars_of(s.as_str());
            push_quoted(out, &cs);
        }
        TypedValue::Raw(t) => {
            let cs = chars_of(t.as_str());
            push_all(out, &cs);
        }
        TypedValue::Items(items) => {
            let ghost item_views = items@.map_values(|x: String| x@);
            out.push('[');
            let n = items.len();
            let mut i: usize = 0;
            proof {
                assert(item_views.skip(0) =~= item_views);
            }
            while i < n
                invariant
                    n == items@.len(),
                    item_views == items@.map_values(|x: String| x@),
                    i <= n,
                    out@ + items_text(item_views.skip(i as int)) == old(out)@ + seq!['[']
                        + items_text(item_views),
                decreases n - i,
            {
                let ghost rest = item_views.skip(i as int);
                proof {
                    assert(rest[0] == item_views[i as int]);
                    assert(rest.drop_first() =~= item_views.skip(i + 1));
                    assert(item_views[i as int] == items@[i as int]@);
                }
                let cs = chars_of(items[i].as_str());
                push_quoted(out, &cs);
                if i + 1 < n {
                    out.push(',');
                }
                i += 1;
                proof {
                    if i < n {
                        let nrest = item_views.skip(i as int);
                        assert(nrest[0] == item_views[i as int]);
                        assert(nrest.drop_first() =~= item_views.skip(i + 1));
                        if nrest.len() == 1 {
                            assert(items_text(nrest) == quoted(nrest[0]));
                        }
                    }
                    assert(out@ + items_text(item_views.skip(i as int)) =~= old(out)@ + seq!['[']
                        + items_text(item_views));
                }
            }
            proof {
                assert(items_text(item_views.skip(n as int)) =~= Seq::<char>::empty());
            }
            out.push(']');
            proof {
                assert(out@ =~= old(out)@ + value_text(v@));
            }
        }
    }
}

/// Serialises a document to compact structured text, keys in document order.
pub fn serialize_document(doc: &StructuredDocument) -> (r: String)
    ensures
        r@ == doc_text(doc@),
{
    let mut out: Vec<char> = Vec::new();
    out.push('{');
    let n = doc.entries.len();
    let mut i: usize = 0;
    proof {
        assert(doc@.skip(0) =~= doc@);
    }
    while i < n
        invariant
            n == doc.entries@.len(),
            n == doc@.len(),
            i <= n,
            out@ + entries_text(doc@.skip(i as int)) == seq!['{'] + entries_text(doc@),
        decreases n - i,
    {
        let ghost rest = doc@.skip(i as int);
        proof {
            assert(rest[0] == doc@[i as int]);
            assert(rest.drop_first() =~= doc@.skip(i + 1));
            assert(doc@[i as int] == (doc.entries@[i as int].0@, doc.entries@[i as int].1@));
        }
        let key_cs = chars_of(doc.entries[i].0.as_str());
        push_quoted(&mut out, &key_cs);
        out.push(':');
        push_value(&mut out, &doc.entries[i].1);
        if i + 1 < n {
            out.push(',');
        }
        i += 1;
        proof {
            if i < n {
                let nrest = doc@.skip(i as int);
                assert(nrest.len() == n - i);
            }
            assert(out@ + entries_text(doc@.skip(i as int)) =~= seq!['{'] + entries_text(doc@));
        }
    }
    proof {
        assert(entries_text(doc@.skip(n as int)) =~= Seq::<char>::empty());
    }
    out.push('}');
    proof {
        assert(out@ =~= doc_text(doc@));
    }
    string_of(&out)
}

} // verus!
