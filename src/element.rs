use vstd::prelude::*;
use crate::children::Children;
use crate::element_attribute::{ElementAttribute, key_view, html_name_of};
use crate::element_attributes::{
    ElementAttributes, CustomElementAttributes, first_wins, discarded, simple_pairs,
};
use crate::node::{Node, node_text, nodes_text, pairs_text, element_text};

verus! {

/// How a tag is compiled: a component invocation or a literal HTML tag.
#[derive(PartialEq, Eq, Structural, Clone, Copy, Debug)]
pub enum ElementKind {
    Custom,
    Simple,
}

/// A tag starting with an upper-case letter names a component.
pub open spec fn is_custom_tag(tag: Seq<char>) -> bool {
    tag.len() > 0 && 'A' <= tag[0] && tag[0] <= 'Z'
}

pub fn classify(tag: &str) -> (r: ElementKind)
    ensures
        r == (if is_custom_tag(tag@) { ElementKind::Custom } else { ElementKind::Simple }),
{
    if tag.unicode_len() > 0 {
        let c = tag.get_char(0);
        if 'A' <= c && c <= 'Z' {
            return ElementKind::Custom;
        }
    }
    ElementKind::Simple
}

/// The text of a literal tag with the given attributes and children.
pub open spec fn simple_element_text(
    tag: Seq<char>,
    attributes: Seq<ElementAttribute>,
    children: Seq<Node>,
    escape: bool,
) -> Seq<char> {
    element_text(
        tag,
        pairs_text(simple_pairs(attributes), escape),
        children.len() > 0,
        nodes_text(children, escape),
    )
}

/// Compiles a literal tag: its attribute mapping and its children rendered inline.
pub fn simple_element(tag: String, attributes: &ElementAttributes, children: Children) -> (r: Node)
    ensures
        forall|escape: bool|
            #[trigger] node_text(r, escape) == simple_element_text(
                tag@,
                attributes.attributes@,
                children@,
                escape,
            ),
{
    let mapping = attributes.for_simple_element();
    let ghost tag_view = tag@;
    let ghost kids = children@;
    let nodes = children.into_nodes();
    let r = Node::Element { tag, attributes: mapping.attributes, children: nodes };
    assert forall|escape: bool|
        #[trigger] node_text(r, escape) == simple_element_text(
            tag_view,
            attributes.attributes@,
            kids,
            escape,
        ) by {
        if attributes.attributes@.len() == 0 {
            assert(simple_pairs(attributes.attributes@).len() == 0);
            assert(pairs_text(simple_pairs(attributes.attributes@), escape) =~= Seq::<char>::empty());
        }
    }
    r
}

impl CustomElementAttributes {
    /// The value of the first field named `name`.
    pub fn get(&self, name: &str) -> (r: Option<&Node>)
        ensures
            r is None <==> forall|i: int| 0 <= i < self.fields@.len() ==> (#[trigger] self.fields@[i]).0@ != name@,
            r matches Some(v) ==> exists|i: int|
                0 <= i < self.fields@.len() && (#[trigger] self.fields@[i]).0@ == name@
                    && *v == self.fields@[i].1
                    && forall|j: int| 0 <= j < i ==> (#[trigger] self.fields@[j]).0@ != name@,
    {
        let target = String::from_str(name);
        let mut i: usize = 0;
        while i < self.fields.len()
            invariant
                i <= self.fields@.len(),
                target@ == name@,
                forall|j: int| 0 <= j < i ==> (#[trigger] self.fields@[j]).0@ != name@,
            decreases self.fields@.len() - i,
        {
            if self.fields[i].0 == target {
                return Some(&self.fields[i].1);
            }
            i = i + 1;
        }
        None
    }

    /// Whether the record has no field at all.
    pub fn is_empty(&self) -> (r: bool)
        ensures
            r == (self.fields@.len() == 0),
    {
        self.fields.len() == 0
    }
}

/// Of two attributes with one key, the set keeps the first alone, one warning
/// names the key, and the tag's mapping holds that key once, with the first value.
pub proof fn duplicate_keeps_first(a1: ElementAttribute, a2: ElementAttribute)
    requires
        key_view(a1.key@) == key_view(a2.key@),
    ensures
        first_wins(seq![a1, a2]) == seq![a1],
        discarded(seq![a1, a2]) == seq![key_view(a1.key@)],
        simple_pairs(first_wins(seq![a1, a2])) == seq![
            (html_name_of(key_view(a1.key@)), node_text(a1.value, false)),
        ],
{
    let s = seq![a1, a2];
    assert(s.drop_last() =~= seq![a1]);
    assert(seq![a1].drop_last() =~= Seq::<ElementAttribute>::empty());
    assert(first_wins(Seq::<ElementAttribute>::empty()) =~= Seq::<ElementAttribute>::empty());
    assert(discarded(Seq::<ElementAttribute>::empty()) =~= Seq::<Seq<Seq<char>>>::empty());
    assert(first_wins(seq![a1]) =~= seq![a1]);
    assert(seq![a1][0] == a1);
    assert(crate::element_attributes::has_key(seq![a1], key_view(a2.key@)));
    assert(discarded(seq![a1]) =~= Seq::<Seq<Seq<char>>>::empty());
    assert(discarded(s) =~= seq![key_view(a1.key@)]);
    assert(simple_pairs(seq![a1]) =~= seq![
        (html_name_of(key_view(a1.key@)), node_text(a1.value, false)),
    ]);
}

/// A literal tag with no attributes writes no attribute clause: `<tag/>` without
/// children, `<tag>...</tag>` around the children's text with some.
pub proof fn bare_element_text(tag: Seq<char>, children: Seq<Node>, escape: bool)
    ensures
        children.len() == 0 ==> simple_element_text(tag, Seq::empty(), children, escape)
            == seq!['<'] + tag + seq!['/', '>'],
        children.len() > 0 ==> simple_element_text(tag, Seq::empty(), children, escape)
            == seq!['<'] + tag + seq!['>'] + nodes_text(children, escape) + seq!['<', '/'] + tag
            + seq!['>'],
{
    let none = Seq::<ElementAttribute>::empty();
    assert(simple_pairs(none).len() == 0);
    assert(pairs_text(simple_pairs(none), escape) =~= Seq::<char>::empty());
    assert(seq!['<'] + tag + Seq::<char>::empty() =~= seq!['<'] + tag);
}

} // verus!
