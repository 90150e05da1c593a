//! Rendering of an element's final state: the markup that replaces its start
//! tag, and the markup that replaces its end tag.
use vstd::prelude::*;
use crate::attributes::{Attribute, Entry};
use crate::content::{emitted_all, push_str};
use crate::element::{ElementKind, ElementView};
use crate::name::push_char;

verus! {

/// An attribute value with `"` written as `&quot;`.
pub open spec fn quote_escape(s: Seq<char>) -> Seq<char>
    decreases s.len(),
{
    if s.len() == 0 {
        Seq::empty()
    } else {
        quote_escape(s.drop_last()) + if s.last() == '"' {
            seq!['&', 'q', 'u', 'o', 't', ';']
        } else {
            seq![s.last()]
        }
    }
}

/// ` name="value"` for each attribute, in order.
pub open spec fn attributes_markup(v: Seq<Entry>) -> Seq<char>
    decreases v.len(),
{
    if v.len() == 0 {
        Seq::empty()
    } else {
        attributes_markup(v.drop_last()) + seq![' '] + v.last().0 + seq!['=', '"'] + quote_escape(
            v.last().1,
        ) + seq!['"']
    }
}

/// The start tag: `<name attrs>`, or `<name attrs/>` when self-closing.
pub open spec fn start_tag(name: Seq<char>, attributes: Seq<Entry>, kind: ElementKind) -> Seq<
    char,
> {
    seq!['<'] + name + attributes_markup(attributes) + if kind == ElementKind::SelfClosing {
        seq!['/', '>']
    } else {
        seq!['>']
    }
}

/// What stands in place of the start tag: the content queued before it, the
/// tag, and then for a normal element the content prepended to its children;
/// an element without children is followed by all its other queued content.
pub open spec fn start_markup<U>(e: ElementView<U>) -> Seq<char> {
    let head = emitted_all(e.before) + start_tag(e.name, e.attributes, e.kind) + emitted_all(
        e.prepend,
    );
    if e.kind == ElementKind::Normal {
        head
    } else {
        head + emitted_all(e.append) + emitted_all(e.after)
    }
}

/// What stands in place of the end tag of a normal element: the appended
/// content, `</name>` with the current name, and the content queued after.
/// Other elements have no end tag and render nothing here.
pub open spec fn end_markup<U>(e: ElementView<U>) -> Seq<char> {
    if e.kind == ElementKind::Normal {
        emitted_all(e.append) + seq!['<', '/'] + e.name + seq!['>'] + emitted_all(e.after)
    } else {
        Seq::empty()
    }
}

fn quote_escape_into(out: &mut String, s: &str)
    ensures
        final(out)@ == old(out)@ + quote_escape(s@),
{
    let n = s.unicode_len();
    let mut i: usize = 0;
    while i < n
        invariant
            n == s@.len(),
            i <= n,
            out@ == old(out)@ + quote_escape(s@.subrange(0, i as int)),
        decreases n - i,
    {
        let c = s.get_char(i);
        let ghost before = out@;
        if c == '"' {
            push_str(out, "&quot;");
        } else {
            push_char(out, c);
        }
        proof {
            reveal_strlit("&quot;");
            let t = s@.subrange(0, i + 1);
            assert(t.drop_last() =~= s@.subrange(0, i as int));
            assert(t.last() == c);
            if c == '"' {
                assert(out@ =~= before + seq!['&', 'q', 'u', 'o', 't', ';']);
            } else {
                assert(out@ =~= before + seq![c]);
            }
        }
        i += 1;
    }
    assert(s@.subrange(0, n as int) =~= s@);
}

/// Appends the start tag of an element to `out`.
pub fn start_tag_into(
    out: &mut String,
    name: &str,
    attributes: &Vec<Attribute>,
    kind: ElementKind,
)
    ensures
        final(out)@ == old(out)@ + start_tag(
            name@,
            attributes@.map_values(|a: Attribute| a@),
            kind,
        ),
{
    let ghost v = attributes@.map_values(|a: Attribute| a@);
    push_char(out, '<');
    push_str(out, name);
    let ghost head = out@;
    let mut i: usize = 0;
    while i < attributes.len()
        invariant
            i <= attributes@.len(),
            v == attributes@.map_values(|a: Attribute| a@),
            out@ == head + attributes_markup(v.subrange(0, i as int)),
        decreases attributes@.len() - i,
    {
        let a = &attributes[i];
        push_char(out, ' ');
        push_str(out, a.written_name());
        push_char(out, '=');
        push_char(out, '"');
        quote_escape_into(out, a.value());
        push_char(out, '"');
        proof {
            let t = v.subrange(0, i + 1);
            assert(t.drop_last() =~= v.subrange(0, i as int));
            assert(t.last() == a@);
            assert(out@ =~= head + attributes_markup(v.subrange(0, i + 1)));
        }
        i += 1;
    }
    assert(v.subrange(0, attributes@.len() as int) =~= v);
    let ghost tail_start = out@;
    match kind {
        ElementKind::SelfClosing => {
            push_char(out, '/');
            push_char(out, '>');
            assert(out@ =~= tail_start + seq!['/', '>']);
        },
        _ => {
            push_char(out, '>');
            assert(out@ =~= tail_start + seq!['>']);
        },
    }
    assert(out@ =~= old(out)@ + start_tag(name@, v, kind));
}

/// Appends `</name>` to `out`.
pub fn end_tag_into(out: &mut String, name: &str)
    ensures
        final(out)@ == old(out)@ + seq!['<', '/'] + name@ + seq!['>'],
{
    let ghost start = out@;
    push_char(out, '<');
    push_char(out, '/');
    push_str(out, name);
    push_char(out, '>');
    assert(out@ =~= start + seq!['<', '/'] + name@ + seq!['>']);
}

} // verus!
