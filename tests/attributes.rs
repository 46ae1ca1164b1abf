use jsx_render::children::{Children, MAX_CHILDREN};
use jsx_render::element::{classify, simple_element, ElementKind};
use jsx_render::element_attribute::ElementAttribute;
use jsx_render::element_attributes::ElementAttributes;
use jsx_render::node::{write_decimal, write_escaped, Node};

fn text(s: &str) -> Node {
    Node::Text(s.to_string())
}

fn attr(key: &[&str], value: Node) -> ElementAttribute {
    ElementAttribute::new(key.iter().map(|s| s.to_string()).collect(), value)
}

fn kids(nodes: Vec<Node>) -> Children {
    match Children::new(nodes) {
        Ok(c) => c,
        Err(_) => panic!("too many children"),
    }
}

#[test]
fn duplicate_attribute_keeps_first_and_warns_once() {
    let (set, warnings) = ElementAttributes::parse(vec![
        attr(&["id"], text("first")),
        attr(&["id"], text("second")),
    ]);
    assert_eq!(set.attributes.len(), 1);
    assert_eq!(warnings.len(), 1);
    assert_eq!(warnings[0].message(), "There is a previous definition of the id attribute");
    let out = simple_element("div".to_string(), &set, Children::empty()).render(true);
    assert_eq!(out, r#"<div id="first"/>"#);
    assert_eq!(out.matches("id=").count(), 1);
}

#[test]
fn duplicate_dashed_key_message_is_written_with_dashes() {
    let (set, warnings) = ElementAttributes::parse(vec![
        attr(&["data", "id"], text("a")),
        attr(&["class"], text("b")),
        attr(&["data", "id"], text("c")),
        attr(&["class"], text("d")),
    ]);
    assert_eq!(set.attributes.len(), 2);
    assert_eq!(warnings.len(), 2);
    assert_eq!(warnings[0].message(), "There is a previous definition of the data-id attribute");
    assert_eq!(warnings[1].message(), "There is a previous definition of the class attribute");
    let out = simple_element("p".to_string(), &set, Children::empty()).render(false);
    assert_eq!(out, r#"<p data-id="a" class="b"/>"#);
}

#[test]
fn raw_and_plain_keys_differ() {
    let (set, warnings) =
        ElementAttributes::parse(vec![attr(&["r#type"], text("a")), attr(&["type"], text("b"))]);
    assert_eq!(set.attributes.len(), 2);
    assert!(warnings.is_empty());
}

#[test]
fn empty_set_gives_no_attributes_marker() {
    let (set, _) = ElementAttributes::parse(vec![]);
    assert!(set.for_simple_element().attributes.is_none());
    let (set, _) = ElementAttributes::parse(vec![attr(&["data", "x"], Node::Number(-7))]);
    let mapping = set.for_simple_element().attributes.unwrap();
    assert_eq!(mapping, vec![("data-x".to_string(), "-7".to_string())]);
}

#[test]
fn childless_and_childful_tags() {
    let none = ElementAttributes::new(vec![]);
    assert_eq!(simple_element("div".to_string(), &none, Children::empty()).render(true), "<div/>");
    let none = ElementAttributes::new(vec![]);
    assert_eq!(
        simple_element("div".to_string(), &none, kids(vec![text("X")])).render(true),
        "<div>X</div>"
    );
    let none = ElementAttributes::new(vec![]);
    assert_eq!(
        simple_element("div".to_string(), &none, kids(vec![Node::Optional(None)])).render(true),
        "<div></div>"
    );
}

#[test]
fn custom_fields_and_children() {
    let set = ElementAttributes::new(vec![attr(&["data", "id"], text("v")), attr(&["r#type"], text("t"))]);
    let p = set.for_custom_element(kids(vec![text("a"), Node::Number(1)]));
    let names: Vec<&str> = p.fields.iter().map(|(n, _)| n.as_str()).collect();
    assert_eq!(names, vec!["data_id", "r#type", "children"]);
    assert!(p.get("missing").is_none());
    assert_eq!(p.get("children").unwrap().render(false), "a1");
    match p.get("children") {
        Some(Node::Optional(Some(b))) => assert!(matches!(**b, Node::Tuple(ref v) if v.len() == 2)),
        _ => panic!("children field is not an aggregate"),
    }

    let p = ElementAttributes::new(vec![]).for_custom_element(kids(vec![text("only")]));
    assert_eq!(p.fields.len(), 1);
    match &p.fields[0].1 {
        Node::Optional(Some(b)) => assert!(matches!(**b, Node::Text(ref s) if s == "only")),
        _ => panic!("single child is not wrapped in an optional"),
    }

    let p = ElementAttributes::new(vec![]).for_custom_element(Children::empty());
    assert!(p.is_empty());
}

#[test]
fn too_many_children_rejected() {
    let ok: Vec<Node> = (0..MAX_CHILDREN).map(|i| Node::Number(i as i64)).collect();
    assert_eq!(Children::new(ok).ok().map(|c| c.len()), Some(MAX_CHILDREN));
    let over: Vec<Node> = (0..MAX_CHILDREN + 1).map(|i| Node::Number(i as i64)).collect();
    match Children::new(over) {
        Err(e) => assert_eq!(e.count, MAX_CHILDREN + 1),
        Ok(_) => panic!("overflow accepted"),
    }
}

#[test]
fn classify_by_first_letter() {
    assert_eq!(classify("Page"), ElementKind::Custom);
    assert_eq!(classify("div"), ElementKind::Simple);
    assert_eq!(classify(""), ElementKind::Simple);
    assert_eq!(classify("_x"), ElementKind::Simple);
}

#[test]
fn optional_renders_content_or_nothing() {
    assert_eq!(Node::Optional(None).render(true), "");
    assert_eq!(Node::Optional(Some(Box::new(text("Yes")))).render(true), "Yes");
}

#[test]
fn render_twice_is_identical() {
    let n = Node::Sequence(vec![text("a<b"), Node::Doctype, Node::Number(i64::MIN)]);
    let first = n.render(true);
    let second = n.render(true);
    assert_eq!(first, second);
    assert_eq!(first, "a&lt;b<!DOCTYPE html>-9223372036854775808");
}

#[test]
fn escaping_is_a_switch() {
    let n = Node::Text("<a href=\"x\">Tom & 'Jerry'</a>".to_string());
    assert_eq!(n.render(false), "<a href=\"x\">Tom & 'Jerry'</a>");
    assert_eq!(n.render(true), "&lt;a href=&quot;x&quot;&gt;Tom &amp; &#39;Jerry&#39;&lt;/a&gt;");
    assert_eq!(Node::Raw("<b>&</b>".to_string()).render(true), "<b>&</b>");
    let mut out = String::from(">");
    write_escaped(&mut out, "é&");
    assert_eq!(out, ">é&amp;");
}

#[test]
fn decimal_numbers() {
    let mut out = String::new();
    write_decimal(&mut out, 0);
    write_decimal(&mut out, 907);
    write_decimal(&mut out, -15);
    write_decimal(&mut out, i64::MAX);
    assert_eq!(out, "0907-159223372036854775807");
}

#[test]
fn attribute_values_escaped_when_asked() {
    let set = ElementAttributes::new(vec![attr(&["title"], text("a\"b"))]);
    let n = simple_element("abbr".to_string(), &set, Children::empty());
    assert_eq!(n.render(true), r#"<abbr title="a&quot;b"/>"#);
    assert_eq!(n.render(false), r#"<abbr title="a"b"/>"#);
}

#[test]
fn names_of_attributes() {
    let a = attr(&["aria", "r#label", "x"], text(""));
    assert_eq!(a.html_name(), "aria-label-x");
    assert_eq!(a.field_name(), "aria_r#label_x");
    assert!(a.same_key(&attr(&["aria", "r#label", "x"], Node::Doctype)));
    assert!(!a.same_key(&attr(&["aria", "label", "x"], Node::Doctype)));
    assert!(!a.same_key(&attr(&["aria"], Node::Doctype)));
}

#[test]
fn nested_tuple_and_sequence_order() {
    let n = Node::Tuple(vec![
        text("1"),
        Node::Sequence(vec![text("2"), Node::Optional(None), text("3")]),
        Node::Number(4),
    ]);
    assert_eq!(n.render(true), "1234");
}
