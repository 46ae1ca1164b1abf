use vstd::prelude::*;
use crate::children::{Children, aggregates};
use crate::element_attribute::{
    ElementAttribute, key_view, html_name_of, field_name_of, joined, join_key,
};
use crate::node::{Node, node_text, pairs_view};

verus! {

/// All attributes of one element, each key at most once.
pub struct ElementAttributes {
    pub attributes: Vec<ElementAttribute>,
}

/// Warning that an attribute repeats a key seen earlier on the same element;
/// the later attribute was dropped.
pub struct DuplicateAttribute {
    pub key: Vec<String>,
}

/// Some attribute of `s` has the key `k`.
pub open spec fn has_key(s: Seq<ElementAttribute>, k: Seq<Seq<char>>) -> bool {
    exists|i: int| 0 <= i < s.len() && key_view(#[trigger] s[i].key@) == k
}

pub open spec fn keys_distinct(s: Seq<ElementAttribute>) -> bool {
    forall|i: int, j: int|
        0 <= i < j < s.len() ==> key_view(#[trigger] s[i].key@) != key_view(#[trigger] s[j].key@)
}

/// The attributes in order, each dropped when an earlier one kept has its key.
pub open spec fn first_wins(s: Seq<ElementAttribute>) -> Seq<ElementAttribute>
    decreases s.len(),
{
    if s.len() == 0 {
        Seq::empty()
    } else {
        let kept = first_wins(s.drop_last());
        if has_key(kept, key_view(s.last().key@)) {
            kept
        } else {
            kept.push(s.last())
        }
    }
}

/// The keys of the attributes that `first_wins` drops, in order.
pub open spec fn discarded(s: Seq<ElementAttribute>) -> Seq<Seq<Seq<char>>>
    decreases s.len(),
{
    if s.len() == 0 {
        Seq::empty()
    } else {
        let earlier = discarded(s.drop_last());
        if has_key(first_wins(s.drop_last()), key_view(s.last().key@)) {
            earlier.push(key_view(s.last().key@))
        } else {
            earlier
        }
    }
}

pub open spec fn warning_keys(w: Seq<DuplicateAttribute>) -> Seq<Seq<Seq<char>>> {
    w.map_values(|d: DuplicateAttribute| key_view(d.key@))
}

/// The key as written: segments joined by `-`.
pub open spec fn written_key(k: Seq<Seq<char>>) -> Seq<char> {
    joined(k, '-')
}

pub open spec fn children_field() -> Seq<char> {
    seq!['c', 'h', 'i', 'l', 'd', 'r', 'e', 'n']
}

/// Each attribute as its HTML name and its value rendered without escaping.
pub open spec fn simple_pairs(s: Seq<ElementAttribute>) -> Seq<(Seq<char>, Seq<char>)> {
    s.map_values(|a: ElementAttribute| (html_name_of(key_view(a.key@)), node_text(a.value, false)))
}

pub proof fn first_wins_keys_distinct(s: Seq<ElementAttribute>)
    ensures
        keys_distinct(first_wins(s)),
    decreases s.len(),
{
    if s.len() > 0 {
        first_wins_keys_distinct(s.drop_last());
    }
}

/// Deduplication loses no key: the kept attributes carry exactly the keys of the input.
pub proof fn first_wins_keeps_every_key(s: Seq<ElementAttribute>, k: Seq<Seq<char>>)
    ensures
        has_key(first_wins(s), k) <==> has_key(s, k),
    decreases s.len(),
{
    if s.len() > 0 {
        let p = s.drop_last();
        first_wins_keeps_every_key(p, k);
        first_wins_keeps_every_key(p, key_view(s.last().key@));
        let kept = first_wins(p);
        if has_key(p, k) {
            let i = choose|i: int| 0 <= i < p.len() && key_view(#[trigger] p[i].key@) == k;
            assert(s[i] == p[i]);
        }
        if has_key(kept, k) && !has_key(kept, key_view(s.last().key@)) {
            let i = choose|i: int| 0 <= i < kept.len() && key_view(#[trigger] kept[i].key@) == k;
            assert(kept.push(s.last())[i] == kept[i]);
        }
        if !has_key(kept, key_view(s.last().key@)) {
            assert(kept.push(s.last())[kept.len() as int] == s.last());
        }
        if has_key(s, k) {
            let i = choose|i: int| 0 <= i < s.len() && key_view(#[trigger] s[i].key@) == k;
            if i < p.len() {
                assert(p[i] == s[i]);
            }
        }
    }
}

fn contains_key(kept: &Vec<ElementAttribute>, a: &ElementAttribute) -> (r: bool)
    ensures
        r == has_key(kept@, key_view(a.key@)),
{
    let mut i: usize = 0;
    while i < kept.len()
        invariant
            i <= kept@.len(),
            forall|j: int| 0 <= j < i ==> key_view(#[trigger] kept@[j].key@) != key_view(a.key@),
        decreases kept@.len() - i,
    {
        if kept[i].same_key(a) {
            return true;
        }
        i = i + 1;
    }
    false
}

impl DuplicateAttribute {
    /// The text of the warning.
    pub fn message(&self) -> (r: String)
        ensures
            r@ == "There is a previous definition of the "@ + written_key(key_view(self.key@))
                + " attribute"@,
    {
        let mut out = String::from_str("There is a previous definition of the ");
        let name = join_key(&self.key, true, false);
        out.append(name.as_str());
        out.append(" attribute");
        out
    }
}

impl ElementAttributes {
    /// The attribute set holding `attributes`, whose keys are already distinct.
    pub fn new(attributes: Vec<ElementAttribute>) -> (r: ElementAttributes)
        requires
            keys_distinct(attributes@),
        ensures
            r.attributes@ == attributes@,
    {
        ElementAttributes { attributes }
    }

    /// Builds the set from attributes in source order. On a repeated key the
    /// first attribute stays, and each later one is dropped with a warning.
    pub fn parse(input: Vec<ElementAttribute>) -> (r: (ElementAttributes, Vec<DuplicateAttribute>))
        ensures
            r.0.attributes@ == first_wins(input@),
            keys_distinct(r.0.attributes@),
            forall|k: Seq<Seq<char>>| has_key(r.0.attributes@, k) <==> has_key(input@, k),
            warning_keys(r.1@) == discarded(input@),
    {
        let ghost all = input@;
        let mut rest = input;
        let mut kept: Vec<ElementAttribute> = Vec::new();
        let mut warnings: Vec<DuplicateAttribute> = Vec::new();
        let ghost mut done: int = 0;
        while rest.len() > 0
            invariant
                0 <= done <= all.len(),
                rest@ == all.subrange(done, all.len() as int),
                kept@ == first_wins(all.subrange(0, done)),
                warning_keys(warnings@) == discarded(all.subrange(0, done)),
            decreases rest@.len(),
        {
            let a = rest.remove(0);
            let dup = contains_key(&kept, &a);
            proof {
                let pre = all.subrange(0, done + 1);
                assert(pre.drop_last() =~= all.subrange(0, done));
                assert(pre.last() == a);
            }
            if dup {
                warnings.push(DuplicateAttribute { key: a.key });
            } else {
                kept.push(a);
            }
            proof {
                assert(warning_keys(warnings@) =~= discarded(all.subrange(0, done + 1)));
                done = done + 1;
            }
        }
        assert(all.subrange(0, done) =~= all);
        proof {
            first_wins_keys_distinct(all);
            assert forall|k: Seq<Seq<char>>| has_key(first_wins(all), k) <==> has_key(all, k) by {
                first_wins_keeps_every_key(all, k);
            }
        }
        (ElementAttributes { attributes: kept }, warnings)
    }

    /// The property record of a component: one field per attribute, in order,
    /// then a `children` field holding the aggregated children when there are any.
    pub fn for_custom_element(self, children: Children) -> (r: CustomElementAttributes)
        ensures
            r.fields@.len() == self.attributes@.len() + (if children@.len() > 0 { 1int } else { 0int }),
            forall|i: int|
                0 <= i < self.attributes@.len() ==> {
                    &&& (#[trigger] r.fields@[i]).0@ == field_name_of(key_view(self.attributes@[i].key@))
                    &&& r.fields@[i].1 == self.attributes@[i].value
                },
            children@.len() > 0 ==> {
                &&& r.fields@.last().0@ == children_field()
                &&& aggregates(r.fields@.last().1, children@)
            },
    {
        let ghost all = self.attributes@;
        let mut rest = self.attributes;
        let mut fields: Vec<(String, Node)> = Vec::new();
        let ghost mut done: int = 0;
        while rest.len() > 0
            invariant
                0 <= done <= all.len(),
                rest@ == all.subrange(done, all.len() as int),
                fields@.len() == done,
                forall|i: int|
                    0 <= i < done ==> {
                        &&& (#[trigger] fields@[i]).0@ == field_name_of(key_view(all[i].key@))
                        &&& fields@[i].1 == all[i].value
                    },
            decreases rest@.len(),
        {
            let a = rest.remove(0);
            let name = a.field_name();
            fields.push((name, a.value));
            proof {
                done = done + 1;
            }
        }
        if children.len() > 0 {
            let name = String::from_str("children");
            proof {
                reveal_strlit("children");
            }
            fields.push((name, children.as_option_of_tuples()));
        }
        CustomElementAttributes { fields }
    }

    /// The runtime attribute mapping of a literal tag: the "no attributes"
    /// marker when the set is empty, else each HTML name with its rendered value.
    pub fn for_simple_element(&self) -> (r: SimpleElementAttributes)
        ensures
            r.attributes is None <==> self.attributes@.len() == 0,
            r.attributes matches Some(v) ==> pairs_view(v@) == simple_pairs(self.attributes@),
    {
        if self.attributes.len() == 0 {
            return SimpleElementAttributes { attributes: None };
        }
        let mut pairs: Vec<(String, String)> = Vec::new();
        let mut i: usize = 0;
        while i < self.attributes.len()
            invariant
                i <= self.attributes@.len(),
                pairs@.len() == i,
                pairs_view(pairs@) == simple_pairs(self.attributes@.subrange(0, i as int)),
            decreases self.attributes@.len() - i,
        {
            let a = &self.attributes[i];
            let name = a.html_name();
            let value = a.value.render(false);
            let ghost prev = pairs@;
            pairs.push((name, value));
            proof {
                let target = simple_pairs(self.attributes@.subrange(0, i + 1));
                let before = simple_pairs(self.attributes@.subrange(0, i as int));
                assert forall|j: int| 0 <= j < i implies pairs_view(pairs@)[j] == target[j] by {
                    assert(pairs@[j] == prev[j]);
                    assert(pairs_view(prev)[j] == before[j]);
                    assert(self.attributes@.subrange(0, i + 1)[j] == self.attributes@.subrange(0, i as int)[j]);
                }
                assert(pairs_view(pairs@)[i as int] == target[i as int]);
                assert(pairs_view(pairs@) =~= target);
            }
            i = i + 1;
        }
        assert(self.attributes@.subrange(0, i as int) =~= self.attributes@);
        SimpleElementAttributes { attributes: Some(pairs) }
    }
}

/// The property record handed to a component.
pub struct CustomElementAttributes {
    pub fields: Vec<(String, Node)>,
}

/// The attribute mapping of a literal tag; `None` marks "no attributes".
pub struct SimpleElementAttributes {
    pub attributes: Option<Vec<(String, String)>>,
}

} // verus!
