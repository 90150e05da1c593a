use cool_thing::attributes::Attributes;
use cool_thing::content::{escape_text, ContentType};
use cool_thing::element::{Element, ElementKind};
use cool_thing::encoding::Encoding;
use cool_thing::name::{AttributeNameError, TagNameError};

fn parsed(pairs: &[(&str, &str)]) -> Attributes {
    let mut attrs = Attributes::new();
    for (name, value) in pairs {
        attrs.add_parsed(name, value);
    }
    attrs
}

fn element<'a>(name: &str, pairs: &[(&str, &str)], kind: ElementKind, enc: &'a Encoding) -> Element<'a, usize> {
    Element::new(name, parsed(pairs), kind, enc)
}

// The rendered element with `children` standing between its two tags.
fn rendered(el: &Element<usize>, children: &str) -> String {
    format!("{}{}{}", el.render_start(), children, el.render_end())
}

#[test]
fn empty_tag_name_is_refused() {
    let enc = Encoding::utf8();
    let mut el = element("div", &[], ElementKind::Normal, &enc);
    assert_eq!(el.set_tag_name(""), Err(TagNameError::Empty));
    assert_eq!(el.tag_name(), "div");
}

#[test]
fn forbidden_tag_name_leaves_name_unchanged() {
    let enc = Encoding::utf8();
    let mut el = element("div", &[], ElementKind::Normal, &enc);
    for &ch in &[' ', '\n', '\r', '\t', '\x0C', '/', '>'] {
        let err = el.set_tag_name(&format!("foo{}bar", ch)).unwrap_err();
        assert_eq!(err, TagNameError::ForbiddenCharacter(ch));
        assert_eq!(el.tag_name(), "div");
    }
    assert_eq!(rendered(&el, ""), "<div></div>");
}

#[test]
fn empty_attribute_name_is_refused() {
    let enc = Encoding::utf8();
    let mut el = element("div", &[], ElementKind::Normal, &enc);
    assert_eq!(el.set_attribute("", ""), Err(AttributeNameError::Empty));
    assert!(el.attributes().is_empty());
}

#[test]
fn forbidden_attribute_name_is_refused() {
    let enc = Encoding::utf8();
    let mut el = element("div", &[], ElementKind::Normal, &enc);
    for &ch in &[' ', '\n', '\r', '\t', '\x0C', '/', '>', '='] {
        let err = el.set_attribute(&format!("foo{}bar", ch), "").unwrap_err();
        assert_eq!(err, AttributeNameError::ForbiddenCharacter(ch));
    }
    assert!(el.attributes().is_empty());
}

#[test]
fn unencodable_names_are_refused_by_the_element() {
    let enc = Encoding::new("EUC-JP".to_string(), vec![(0, 0x7F), (0x3000, 0x30FF), (0x4E00, 0x9FFF)]);
    let mut el = element("div", &[], ElementKind::Normal, &enc);
    assert_eq!(el.set_tag_name("foo\u{00F8}bar"), Err(TagNameError::UnencodableCharacter));
    assert_eq!(
        el.set_attribute("foo\u{00F8}bar", ""),
        Err(AttributeNameError::UnencodableCharacter)
    );
    assert_eq!(el.tag_name(), "div");
    assert!(el.attributes().is_empty());
}

#[test]
fn element_refuses_invalid_first_character() {
    let enc = Encoding::utf8();
    let mut el = element("div", &[], ElementKind::Normal, &enc);
    assert_eq!(el.set_tag_name("1foo"), Err(TagNameError::InvalidFirstCharacter));
}

#[test]
fn tag_name_getter_and_setter() {
    let enc = Encoding::utf8();
    let mut el = element("Foo", &[], ElementKind::Normal, &enc);
    assert_eq!(el.tag_name(), "foo");
    assert_eq!(el.tag_name(), el.tag_name());
    el.set_tag_name("BaZ").unwrap();
    assert_eq!(el.tag_name(), "baz");
    assert_eq!(rendered(&el, "<div><span></span></div>"), "<BaZ><div><span></span></div></BaZ>");
}

#[test]
fn attribute_list() {
    let enc = Encoding::utf8();
    let el = element("Foo", &[("Foo1", "Bar1"), ("Foo2", "Bar2")], ElementKind::Normal, &enc);
    assert_eq!(el.attributes().len(), 2);
    assert_eq!(el.attributes()[0].name(), "foo1");
    assert_eq!(el.attributes()[1].name(), "foo2");
    assert_eq!(el.attributes()[0].value(), "Bar1");
    assert_eq!(el.attributes()[1].value(), "Bar2");
    assert_eq!(el.attributes()[0].written_name(), "Foo1");
}

#[test]
fn attribute_list_is_stable_between_calls() {
    let enc = Encoding::utf8();
    let el = element("p", &[("a", "1"), ("B", "2")], ElementKind::Normal, &enc);
    let first: Vec<(String, String)> =
        el.attributes().iter().map(|a| (a.name(), a.value().to_string())).collect();
    let second: Vec<(String, String)> =
        el.attributes().iter().map(|a| (a.name(), a.value().to_string())).collect();
    assert_eq!(first, second);
}

#[test]
fn repeated_source_attribute_keeps_the_first() {
    let enc = Encoding::utf8();
    let el = element("p", &[("a", "1"), ("A", "2")], ElementKind::Normal, &enc);
    assert_eq!(el.attributes().len(), 1);
    assert_eq!(el.get_attribute("a").unwrap(), "1");
}

#[test]
fn get_attribute() {
    let enc = Encoding::utf8();
    let el = element("Foo", &[("Foo1", "Bar1"), ("Foo2", "Bar2")], ElementKind::Normal, &enc);
    assert_eq!(el.get_attribute("fOo1").unwrap(), "Bar1");
    assert_eq!(el.get_attribute("Foo1").unwrap(), "Bar1");
    assert_eq!(el.get_attribute("FOO2").unwrap(), "Bar2");
    assert_eq!(el.get_attribute("foo2").unwrap(), "Bar2");
    assert_eq!(el.get_attribute("foo3"), None);
}

#[test]
fn has_attribute() {
    let enc = Encoding::utf8();
    let el = element("Foo", &[("Foo1", "Bar1"), ("Foo2", "Bar2")], ElementKind::Normal, &enc);
    assert!(el.has_attribute("FOo1"));
    assert!(el.has_attribute("foo1"));
    assert!(el.has_attribute("FOO2"));
    assert!(!el.has_attribute("foo3"));
}

#[test]
fn set_attribute() {
    let enc = Encoding::utf8();
    let mut el = element("div", &[], ElementKind::Normal, &enc);
    el.set_attribute("Foo", "Bar1").unwrap();
    assert_eq!(el.get_attribute("foo").unwrap(), "Bar1");
    assert_eq!(el.get_attribute("fOO").unwrap(), "Bar1");
    el.set_attribute("fOO", "Bar2").unwrap();
    assert_eq!(el.get_attribute("foo").unwrap(), "Bar2");
    assert_eq!(el.attributes().len(), 1);
}

#[test]
fn resetting_attribute_keeps_its_position() {
    let enc = Encoding::utf8();
    let mut el = element("div", &[("a", "1"), ("b", "2"), ("c", "3")], ElementKind::Normal, &enc);
    el.set_attribute("B", "two").unwrap();
    let names: Vec<String> = el.attributes().iter().map(|a| a.name()).collect();
    assert_eq!(names, vec!["a", "b", "c"]);
    assert_eq!(el.attributes()[1].value(), "two");
    assert_eq!(el.attributes()[1].written_name(), "B");
    assert_eq!(rendered(&el, ""), "<div a=\"1\" B=\"two\" c=\"3\"></div>");
}

#[test]
fn remove_attribute() {
    let enc = Encoding::utf8();
    let mut el = element("Foo", &[("Foo1", "Bar1"), ("Foo2", "Bar2")], ElementKind::Normal, &enc);
    el.remove_attribute("Unknown");
    assert_eq!(el.attributes().len(), 2);
    el.remove_attribute("Foo1");
    assert_eq!(el.attributes().len(), 1);
    assert_eq!(el.get_attribute("foo1"), None);
    assert_eq!(el.get_attribute("FOO1"), None);
    el.remove_attribute("FoO2");
    assert!(el.attributes().is_empty());
    assert_eq!(el.get_attribute("foo2"), None);
}

#[test]
fn user_data() {
    let enc = Encoding::utf8();
    let mut el = element("span", &[], ElementKind::Normal, &enc);
    assert_eq!(el.user_data(), None);
    el.set_user_data(42usize);
    assert_eq!(el.user_data(), Some(&42usize));
    el.set_user_data(7usize);
    assert_eq!(el.user_data(), Some(&7usize));
}

#[test]
fn insert_content_before() {
    let enc = Encoding::utf8();
    let mut el = element("span", &[], ElementKind::Normal, &enc);
    el.before("<img>", ContentType::Html);
    el.before("<img>", ContentType::Text);
    assert_eq!(
        format!("<div>{}</div>", rendered(&el, "Hi")),
        "<div><img>&lt;img&gt;<span>Hi</span></div>"
    );
}

#[test]
fn prepend_content() {
    let enc = Encoding::utf8();
    let mut el = element("span", &[], ElementKind::Normal, &enc);
    el.prepend("<img>", ContentType::Html);
    el.prepend("<img>", ContentType::Text);
    assert_eq!(
        format!("<div>{}</div>", rendered(&el, "Hi")),
        "<div><span><img>&lt;img&gt;Hi</span></div>"
    );
}

#[test]
fn append_content() {
    let enc = Encoding::utf8();
    let mut el = element("span", &[], ElementKind::Normal, &enc);
    el.append("<img>", ContentType::Html);
    el.append("<img>", ContentType::Text);
    assert_eq!(
        format!("<div>{}</div>", rendered(&el, "Hi")),
        "<div><span>Hi<img>&lt;img&gt;</span></div>"
    );
}

#[test]
fn insert_content_after() {
    let enc = Encoding::utf8();
    let mut el = element("span", &[], ElementKind::Normal, &enc);
    el.after("<img>", ContentType::Html);
    el.after("<img>", ContentType::Text);
    assert_eq!(
        format!("<div>{}</div>", rendered(&el, "Hi")),
        "<div><span>Hi</span><img>&lt;img&gt;</div>"
    );
}

#[test]
fn all_four_anchors_around_a_renamed_element() {
    let enc = Encoding::utf8();
    let mut el = element("p", &[("class", "x")], ElementKind::Normal, &enc);
    el.after("4", ContentType::Html);
    el.append("3", ContentType::Html);
    el.prepend("2", ContentType::Html);
    el.before("1", ContentType::Html);
    el.set_tag_name("Q").unwrap();
    assert_eq!(rendered(&el, "-"), "1<Q class=\"x\">2-3</Q>4");
}

#[test]
fn void_element() {
    let enc = Encoding::utf8();
    let mut el = element("img", &[], ElementKind::Void, &enc);
    el.after("<!--after-->", ContentType::Html);
    el.set_tag_name("img-foo").unwrap();
    assert_eq!(el.render_end(), "");
    assert_eq!(
        format!("{}<span>Hi</span></img>", el.render_start()),
        "<img-foo><!--after--><span>Hi</span></img>"
    );
}

#[test]
fn self_closing_element() {
    let enc = Encoding::utf8();
    let mut el = element("foo", &[], ElementKind::SelfClosing, &enc);
    el.after("<!--after-->", ContentType::Html);
    el.set_tag_name("bar").unwrap();
    assert_eq!(el.render_end(), "");
    assert_eq!(
        format!("<svg>{}Hi</foo></svg>", el.render_start()),
        "<svg><bar/><!--after-->Hi</foo></svg>"
    );
}

#[test]
fn void_element_collapses_inner_insertions_after_the_tag() {
    let enc = Encoding::utf8();
    let mut el = element("br", &[("id", "a\"b")], ElementKind::Void, &enc);
    el.after("<c>", ContentType::Text);
    el.append("b", ContentType::Html);
    el.prepend("a", ContentType::Html);
    el.before("<", ContentType::Text);
    assert_eq!(el.render_start(), "&lt;<br id=\"a&quot;b\">ab&lt;c&gt;");
    assert_eq!(el.kind(), ElementKind::Void);
}

#[test]
fn text_escaping_covers_markup_characters() {
    assert_eq!(escape_text("a<b>&\"c'"), "a&lt;b&gt;&amp;&quot;c'");
    assert_eq!(escape_text(""), "");
    assert_eq!(escape_text("plain"), "plain");
}

#[test]
fn html_content_is_emitted_verbatim() {
    let enc = Encoding::utf8();
    let mut el = element("b", &[], ElementKind::Normal, &enc);
    el.prepend("<i>&amp;\"</i>", ContentType::Html);
    assert_eq!(el.render_start(), "<b><i>&amp;\"</i>");
    assert_eq!(el.render_end(), "</b>");
}
