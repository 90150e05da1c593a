//! The element a handler mutates, and the markup it renders to.
use vstd::prelude::*;
use crate::attributes::{Attribute, Attributes, Entry, lookup, with_attribute, without_attribute};
use crate::content::{ContentType, Piece, Queue};
use crate::render::{start_markup, end_markup, start_tag_into, end_tag_into};
use crate::encoding::Encoding;
use crate::name::{
    lower,
    to_lower,
    validate_tag_name,
    tag_name_verdict,
    attribute_name_verdict,
    TagNameError,
    AttributeNameError,
};

verus! {

/// The structural kind of a start tag.
#[derive(Debug, Clone, Copy, PartialEq, Eq, Structural)]
pub enum ElementKind {
    /// Has children and a closing tag.
    Normal,
    /// Never has children or a closing tag.
    Void,
    /// Written with a self-closing marker (`<foo/>`).
    SelfClosing,
}

/// The state of an element, as its contracts speak of it.
pub struct ElementView<U> {
    /// The tag name as last written.
    pub name: Seq<char>,
    pub attributes: Seq<Entry>,
    pub before: Seq<Piece>,
    pub prepend: Seq<Piece>,
    pub append: Seq<Piece>,
    pub after: Seq<Piece>,
    pub kind: ElementKind,
    pub user_data: Option<U>,
}

/// A start tag matched by a handler, with everything queued around it.
pub struct Element<'a, U> {
    name: String,
    attributes: Attributes,
    before: Queue,
    prepend: Queue,
    append: Queue,
    after: Queue,
    kind: ElementKind,
    encoding: &'a Encoding,
    user_data: Option<U>,
}

impl<'a, U> View for Element<'a, U> {
    type V = ElementView<U>;

    closed spec fn view(&self) -> ElementView<U> {
        ElementView {
            name: self.name@,
            attributes: self.attributes@,
            before: self.before@,
            prepend: self.prepend@,
            append: self.append@,
            after: self.after@,
            kind: self.kind,
            user_data: self.user_data,
        }
    }
}

impl<'a, U> Element<'a, U> {
    pub closed spec fn wf(&self) -> bool {
        self.attributes.wf()
    }

    /// The encoding that new names are checked against.
    pub closed spec fn encoding(&self) -> Encoding {
        *self.encoding
    }

    /// An element for a start tag named `name` (as written in the source),
    /// with the attributes read from the source and nothing queued.
    pub fn new(name: &str, attributes: Attributes, kind: ElementKind, encoding: &'a Encoding) -> (r:
        Self)
        requires
            attributes.wf(),
        ensures
            r.wf(),
            r.encoding() == *encoding,
            r@ == (ElementView::<U> {
                name: name@,
                attributes: attributes@,
                before: Seq::empty(),
                prepend: Seq::empty(),
                append: Seq::empty(),
                after: Seq::empty(),
                kind,
                user_data: None,
            }),
    {
        let r = Element {
            name: name.to_owned(),
            attributes,
            before: Queue::new(),
            prepend: Queue::new(),
            append: Queue::new(),
            after: Queue::new(),
            kind,
            encoding,
            user_data: None,
        };
        r
    }

    pub fn kind(&self) -> (r: ElementKind)
        ensures
            r == self@.kind,
    {
        self.kind
    }

    /// The tag name, normalised to lowercase.
    pub fn tag_name(&self) -> (r: String)
        ensures
            r@ == lower(self@.name),
    {
        to_lower(self.name.as_str())
    }

    /// Renames the element after checking `name`; a refused name leaves the
    /// element as it was.
    pub fn set_tag_name(&mut self, name: &str) -> (r: Result<(), TagNameError>)
        requires
            old(self).wf(),
        ensures
            final(self).wf(),
            final(self).encoding() == old(self).encoding(),
            r == tag_name_verdict(name@, old(self).encoding()),
            r is Ok ==> final(self)@ == (ElementView { name: name@, ..old(self)@ }),
            r is Err ==> final(self)@ == old(self)@,
    {
        match validate_tag_name(name, self.encoding) {
            Ok(()) => {
                self.name = name.to_owned();
                Ok(())
            },
            Err(e) => Err(e),
        }
    }

    /// The attributes, in order.
    pub fn attributes(&self) -> (r: &Vec<Attribute>)
        requires
            self.wf(),
        ensures
            r@.map_values(|a: Attribute| a@) == self@.attributes,
            forall|i: int| 0 <= i < r@.len() ==> (#[trigger] r@[i]).wf(),
    {
        self.attributes.as_vec()
    }

    /// The value of the attribute named `name`, in any case.
    pub fn get_attribute(&self, name: &str) -> (r: Option<String>)
        requires
            self.wf(),
        ensures
            r is Some <==> lookup(self@.attributes, lower(name@)) is Some,
            r is Some ==> r->0@ == lookup(self@.attributes, lower(name@))->0,
    {
        self.attributes.get(name)
    }

    /// Whether an attribute named `name`, in any case, is present.
    pub fn has_attribute(&self, name: &str) -> (r: bool)
        requires
            self.wf(),
        ensures
            r == (lookup(self@.attributes, lower(name@)) is Some),
    {
        self.attributes.has(name)
    }

    /// Sets an attribute after checking its name; an existing attribute with
    /// the same name in any case keeps its place.
    pub fn set_attribute(&mut self, name: &str, value: &str) -> (r: Result<(), AttributeNameError>)
        requires
            old(self).wf(),
        ensures
            final(self).wf(),
            final(self).encoding() == old(self).encoding(),
            r == attribute_name_verdict(name@, old(self).encoding()),
            r is Ok ==> final(self)@ == (ElementView {
                attributes: with_attribute(old(self)@.attributes, name@, value@),
                ..old(self)@
            }),
            r is Err ==> final(self)@ == old(self)@,
    {
        self.attributes.set(name, value, self.encoding)
    }

    /// Removes the attribute named `name`, in any case, if present.
    pub fn remove_attribute(&mut self, name: &str)
        requires
            old(self).wf(),
        ensures
            final(self).wf(),
            final(self).encoding() == old(self).encoding(),
            final(self)@ == (ElementView {
                attributes: without_attribute(old(self)@.attributes, lower(name@)),
                ..old(self)@
            }),
    {
        self.attributes.remove(name)
    }

    /// Queues `content` to go just before the element.
    pub fn before(&mut self, content: &str, kind: ContentType)
        requires
            old(self).wf(),
        ensures
            final(self).wf(),
            final(self).encoding() == old(self).encoding(),
            final(self)@ == (ElementView {
                before: old(self)@.before.push((content@, kind)),
                ..old(self)@
            }),
    {
        self.before.push(content, kind)
    }

    /// Queues `content` to go at the start of the element's children.
    pub fn prepend(&mut self, content: &str, kind: ContentType)
        requires
            old(self).wf(),
        ensures
            final(self).wf(),
            final(self).encoding() == old(self).encoding(),
            final(self)@ == (ElementView {
                prepend: old(self)@.prepend.push((content@, kind)),
                ..old(self)@
            }),
    {
        self.prepend.push(content, kind)
    }

    /// Queues `content` to go at the end of the element's children.
    pub fn append(&mut self, content: &str, kind: ContentType)
        requires
            old(self).wf(),
        ensures
            final(self).wf(),
            final(self).encoding() == old(self).encoding(),
            final(self)@ == (ElementView {
                append: old(self)@.append.push((content@, kind)),
                ..old(self)@
            }),
    {
        self.append.push(content, kind)
    }

    /// Queues `content` to go just after the element.
    pub fn after(&mut self, content: &str, kind: ContentType)
        requires
            old(self).wf(),
        ensures
            final(self).wf(),
            final(self).encoding() == old(self).encoding(),
            final(self)@ == (ElementView {
                after: old(self)@.after.push((content@, kind)),
                ..old(self)@
            }),
    {
        self.after.push(content, kind)
    }

    /// Stores a value for later handlers of the same tag, replacing any
    /// earlier one.
    pub fn set_user_data(&mut self, data: U)
        requires
            old(self).wf(),
        ensures
            final(self).wf(),
            final(self).encoding() == old(self).encoding(),
            final(self)@ == (ElementView { user_data: Some(data), ..old(self)@ }),
    {
        self.user_data = Some(data);
    }

    /// The value last stored with `set_user_data`.
    pub fn user_data(&self) -> (r: Option<&U>)
        ensures
            r is Some <==> self@.user_data is Some,
            r is Some ==> *r->0 == self@.user_data->0,
    {
        self.user_data.as_ref()
    }

    /// The markup that replaces the start tag.
    pub fn render_start(&self) -> (r: String)
        requires
            self.wf(),
        ensures
            r@ == start_markup(self@),
    {
        let mut out = String::new();
        self.before.emit_into(&mut out);
        start_tag_into(&mut out, self.name.as_str(), self.attributes.as_vec(), self.kind);
        self.prepend.emit_into(&mut out);
        match self.kind {
            ElementKind::Normal => {},
            _ => {
                self.append.emit_into(&mut out);
                self.after.emit_into(&mut out);
            },
        }
        out
    }

    /// The markup that replaces the end tag; empty for an element that has
    /// none.
    pub fn render_end(&self) -> (r: String)
        requires
            self.wf(),
        ensures
            r@ == end_markup(self@),
    {
        let mut out = String::new();
        match self.kind {
            ElementKind::Normal => {
                self.append.emit_into(&mut out);
                end_tag_into(&mut out, self.name.as_str());
                self.after.emit_into(&mut out);
            },
            _ => {},
        }
        out
    }
}

} // verus!
