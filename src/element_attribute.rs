use vstd::prelude::*;
use crate::node::Node;

verus! {

/// One `name={value}` pair on an element.
///
/// The key is the list of identifier segments as written, so `data-id`
/// is `["data", "id"]` and a raw identifier keeps its `r#` prefix.
pub struct ElementAttribute {
    pub key: Vec<String>,
    pub value: Node,
}

/// The key's segments as character sequences: the attribute's identity.
pub open spec fn key_view(k: Seq<String>) -> Seq<Seq<char>> {
    k.map_values(|s: String| s@)
}

/// A segment with its raw-identifier prefix `r#` removed.
pub open spec fn unraw(s: Seq<char>) -> Seq<char> {
    if s.len() >= 2 && s[0] == 'r' && s[1] == '#' {
        s.subrange(2, s.len() as int)
    } else {
        s
    }
}

/// The segments joined with `sep` between neighbours.
pub open spec fn joined(segs: Seq<Seq<char>>, sep: char) -> Seq<char>
    decreases segs.len(),
{
    if segs.len() == 0 {
        Seq::empty()
    } else if segs.len() == 1 {
        segs[0]
    } else {
        joined(segs.drop_last(), sep) + seq![sep] + segs.last()
    }
}

/// The name written in HTML output: raw prefixes dropped, segments joined by `-`.
pub open spec fn html_name_of(k: Seq<Seq<char>>) -> Seq<char> {
    joined(k.map_values(|s: Seq<char>| unraw(s)), '-')
}

/// The name of the property field a component receives: segments joined by `_`.
pub open spec fn field_name_of(k: Seq<Seq<char>>) -> Seq<char> {
    joined(k, '_')
}

fn unraw_str(s: &str) -> (r: &str)
    ensures
        r@ == unraw(s@),
{
    let n = s.unicode_len();
    if n >= 2 && s.get_char(0) == 'r' && s.get_char(1) == '#' {
        s.substring_char(2, n)
    } else {
        s
    }
}

/// Joins the segments with `-` (`dash`) or `_`, dropping raw prefixes if `strip_raw`.
pub(crate) fn join_key(key: &Vec<String>, dash: bool, strip_raw: bool) -> (r: String)
    ensures
        r@ == joined(
            if strip_raw { key_view(key@).map_values(|s: Seq<char>| unraw(s)) } else { key_view(key@) },
            if dash { '-' } else { '_' },
        ),
{
    let ghost segs = if strip_raw {
        key_view(key@).map_values(|s: Seq<char>| unraw(s))
    } else {
        key_view(key@)
    };
    let ghost sep = if dash { '-' } else { '_' };
    let mut out = String::new();
    let mut i: usize = 0;
    while i < key.len()
        invariant
            i <= key@.len(),
            segs.len() == key@.len(),
            forall|j: int| 0 <= j < key@.len() ==> #[trigger] segs[j] == (if strip_raw { unraw(key@[j]@) } else { key@[j]@ }),
            sep == (if dash { '-' } else { '_' }),
            out@ == joined(segs.subrange(0, i as int), sep),
        decreases key@.len() - i,
    {
        let seg: &str = if strip_raw { unraw_str(key[i].as_str()) } else { key[i].as_str() };
        if i > 0 {
            if dash {
                out.append("-");
            } else {
                out.append("_");
            }
            proof {
                reveal_strlit("-");
                reveal_strlit("_");
            }
        }
        out.append(seg);
        proof {
            let pre = segs.subrange(0, i + 1);
            assert(pre.drop_last() =~= segs.subrange(0, i as int));
            assert(pre.last() == segs[i as int]);
            if i == 0 {
                assert(out@ =~= joined(pre, sep));
            } else {
                assert(out@ =~= joined(pre, sep));
            }
        }
        i = i + 1;
    }
    assert(segs.subrange(0, i as int) =~= segs);
    out
}

impl ElementAttribute {
    pub fn new(key: Vec<String>, value: Node) -> (r: ElementAttribute)
        ensures
            r.key == key,
            r.value == value,
    {
        ElementAttribute { key, value }
    }

    /// Whether the two attributes have the same key.
    pub fn same_key(&self, other: &ElementAttribute) -> (r: bool)
        ensures
            r == (key_view(self.key@) == key_view(other.key@)),
    {
        if self.key.len() != other.key.len() {
            assert(key_view(self.key@).len() != key_view(other.key@).len());
            return false;
        }
        let mut i: usize = 0;
        while i < self.key.len()
            invariant
                i <= self.key@.len(),
                self.key@.len() == other.key@.len(),
                forall|j: int| 0 <= j < i ==> #[trigger] self.key@[j]@ == other.key@[j]@,
            decreases self.key@.len() - i,
        {
            if self.key[i] != other.key[i] {
                assert(key_view(self.key@)[i as int] != key_view(other.key@)[i as int]);
                return false;
            }
            i = i + 1;
        }
        assert(key_view(self.key@) =~= key_view(other.key@));
        true
    }

    /// The attribute's name as written in HTML output.
    pub fn html_name(&self) -> (r: String)
        ensures
            r@ == html_name_of(key_view(self.key@)),
    {
        join_key(&self.key, true, true)
    }

    /// The name of the property field that carries this attribute to a component.
    pub fn field_name(&self) -> (r: String)
        ensures
            r@ == field_name_of(key_view(self.key@)),
    {
        join_key(&self.key, false, false)
    }
}

} // verus!
