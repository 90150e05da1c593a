//! Content inserted around and inside an element, and its escaping.
use vstd::prelude::*;
use crate::name::push_char;

verus! {

/// How inserted content is emitted: verbatim as markup, or escaped as text.
#[derive(Debug, Clone, Copy, PartialEq, Eq, Structural)]
pub enum ContentType {
    Html,
    Text,
}

/// The entity that stands for `c` in text, or `c` itself.
pub open spec fn escape_char(c: char) -> Seq<char> {
    if c == '<' {
        seq!['&', 'l', 't', ';']
    } else if c == '>' {
        seq!['&', 'g', 't', ';']
    } else if c == '&' {
        seq!['&', 'a', 'm', 'p', ';']
    } else if c == '"' {
        seq!['&', 'q', 'u', 'o', 't', ';']
    } else {
        seq![c]
    }
}

/// `s` escaped for use as text.
pub open spec fn escape(s: Seq<char>) -> Seq<char>
    decreases s.len(),
{
    if s.len() == 0 {
        Seq::empty()
    } else {
        escape(s.drop_last()) + escape_char(s.last())
    }
}

/// What a piece of inserted content emits.
pub open spec fn emitted(content: Seq<char>, kind: ContentType) -> Seq<char> {
    match kind {
        ContentType::Html => content,
        ContentType::Text => escape(content),
    }
}

/// One queued insertion: its content and how it is emitted.
pub type Piece = (Seq<char>, ContentType);

/// What a queue of insertions emits, in the order they were made.
pub open spec fn emitted_all(q: Seq<Piece>) -> Seq<char>
    decreases q.len(),
{
    if q.len() == 0 {
        Seq::empty()
    } else {
        emitted_all(q.drop_last()) + emitted(q.last().0, q.last().1)
    }
}

/// Text-mode content carries no markup: its escaped form holds no `<`, `>`
/// or `"`, while markup-mode content is emitted as given.
pub proof fn lemma_escaped_text_has_no_markup(s: Seq<char>)
    ensures
        forall|i: int|
            0 <= i < escape(s).len() ==> #[trigger] escape(s)[i] != '<' && escape(s)[i] != '>'
                && escape(s)[i] != '"',
        emitted(s, ContentType::Html) == s,
        emitted(s, ContentType::Text) == escape(s),
    decreases s.len(),
{
    if s.len() > 0 {
        lemma_escaped_text_has_no_markup(s.drop_last());
        let a = escape(s.drop_last());
        let b = escape_char(s.last());
        assert forall|i: int| 0 <= i < escape(s).len() implies #[trigger] escape(s)[i] != '<'
            && escape(s)[i] != '>' && escape(s)[i] != '"' by {
            if i >= a.len() {
                assert(escape(s)[i] == b[i - a.len()]);
            } else {
                assert(escape(s)[i] == a[i]);
            }
        }
    }
}

/// Appends `s` to `out`.
pub(crate) fn push_str(out: &mut String, s: &str)
    ensures
        final(out)@ == old(out)@ + s@,
{
    out.append(s);
}

/// Appends `s`, escaped, to `out`.
pub fn escape_into(out: &mut String, s: &str)
    ensures
        final(out)@ == old(out)@ + escape(s@),
{
    let n = s.unicode_len();
    let mut i: usize = 0;
    while i < n
        invariant
            n == s@.len(),
            i <= n,
            out@ == old(out)@ + escape(s@.subrange(0, i as int)),
        decreases n - i,
    {
        let c = s.get_char(i);
        let ghost before = out@;
        if c == '<' {
            push_str(out, "&lt;");
        } else if c == '>' {
            push_str(out, "&gt;");
        } else if c == '&' {
            push_str(out, "&amp;");
        } else if c == '"' {
            push_str(out, "&quot;");
        } else {
            push_char(out, c);
        }
        proof {
            reveal_strlit("&lt;");
            reveal_strlit("&gt;");
            reveal_strlit("&amp;");
            reveal_strlit("&quot;");
            assert(out@ =~= before + escape_char(c));
            assert(s@.subrange(0, i + 1).drop_last() =~= s@.subrange(0, i as int));
        }
        i += 1;
    }
    assert(s@.subrange(0, n as int) =~= s@);
}

/// `s` escaped for use as text: `<`, `>`, `&` and `"` become entities.
pub fn escape_text(s: &str) -> (r: String)
    ensures
        r@ == escape(s@),
{
    let mut r = String::new();
    escape_into(&mut r, s);
    r
}

/// Appends what `content` emits as `kind` to `out`.
pub fn emit_into(out: &mut String, content: &str, kind: ContentType)
    ensures
        final(out)@ == old(out)@ + emitted(content@, kind),
{
    match kind {
        ContentType::Html => push_str(out, content),
        ContentType::Text => escape_into(out, content),
    }
}

/// Insertions queued at one anchor, in call order.
pub struct Queue {
    pieces: Vec<(String, ContentType)>,
}

impl View for Queue {
    type V = Seq<Piece>;

    closed spec fn view(&self) -> Seq<Piece> {
        self.pieces@.map_values(|p: (String, ContentType)| (p.0@, p.1))
    }
}

impl Queue {
    pub fn new() -> (r: Self)
        ensures
            r@ == Seq::<Piece>::empty(),
    {
        let r = Queue { pieces: Vec::new() };
        assert(r@ =~= Seq::<Piece>::empty());
        r
    }

    pub fn push(&mut self, content: &str, kind: ContentType)
        ensures
            final(self)@ == old(self)@.push((content@, kind)),
    {
        self.pieces.push((content.to_owned(), kind));
        assert(self@ =~= old(self)@.push((content@, kind)));
    }

    /// Appends what the whole queue emits to `out`.
    pub fn emit_into(&self, out: &mut String)
        ensures
            final(out)@ == old(out)@ + emitted_all(self@),
    {
        let mut i: usize = 0;
        while i < self.pieces.len()
            invariant
                i <= self.pieces@.len(),
                out@ == old(out)@ + emitted_all(self@.subrange(0, i as int)),
            decreases self.pieces@.len() - i,
        {
            let (content, kind) = (&self.pieces[i].0, self.pieces[i].1);
            emit_into(out, content.as_str(), kind);
            assert(self@.subrange(0, i + 1).drop_last() =~= self@.subrange(0, i as int));
            i += 1;
        }
        assert(self@.subrange(0, self.pieces@.len() as int) =~= self@);
    }
}

} // verus!
