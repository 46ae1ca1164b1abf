use vstd::prelude::*;

verus! {

/// One renderable unit.
pub enum Node {
    /// Plain text; escaped when the render asks for escaping.
    Text(String),
    /// An integer, written in decimal.
    Number(i64),
    /// A fragment written verbatim, never escaped.
    Raw(String),
    /// Renders its content when present, nothing otherwise.
    Optional(Option<Box<Node>>),
    /// Any number of nodes, rendered one after another.
    Sequence(Vec<Node>),
    /// A fixed group of nodes, rendered in position order.
    Tuple(Vec<Node>),
    /// The HTML5 document type declaration.
    Doctype,
    /// A literal HTML tag with its attribute mapping and inline children.
    Element { tag: String, attributes: Option<Vec<(String, String)>>, children: Vec<Node> },
}

pub open spec fn escaped_char(c: char) -> Seq<char> {
    if c == '&' {
        seq!['&', 'a', 'm', 'p', ';']
    } else if c == '<' {
        seq!['&', 'l', 't', ';']
    } else if c == '>' {
        seq!['&', 'g', 't', ';']
    } else if c == '"' {
        seq!['&', 'q', 'u', 'o', 't', ';']
    } else if c == '\'' {
        seq!['&', '#', '3', '9', ';']
    } else {
        seq![c]
    }
}

/// HTML escaping: each character replaced by its escape.
pub open spec fn escaped(s: Seq<char>) -> Seq<char>
    decreases s.len(),
{
    if s.len() == 0 {
        Seq::empty()
    } else {
        escaped(s.drop_last()) + escaped_char(s.last())
    }
}

pub open spec fn text_of(s: Seq<char>, escape: bool) -> Seq<char> {
    if escape {
        escaped(s)
    } else {
        s
    }
}

pub open spec fn digit_char(d: nat) -> char {
    if d == 0 { '0' }
    else if d == 1 { '1' }
    else if d == 2 { '2' }
    else if d == 3 { '3' }
    else if d == 4 { '4' }
    else if d == 5 { '5' }
    else if d == 6 { '6' }
    else if d == 7 { '7' }
    else if d == 8 { '8' }
    else { '9' }
}

/// The decimal digits of a natural number, most significant first.
pub open spec fn digits(n: nat) -> Seq<char>
    decreases n,
{
    if n < 10 {
        seq![digit_char(n)]
    } else {
        digits(n / 10) + seq![digit_char(n % 10)]
    }
}

/// The decimal form of an integer, with a leading `-` when negative.
pub open spec fn decimal(i: int) -> Seq<char> {
    if i < 0 {
        seq!['-'] + digits((-i) as nat)
    } else {
        digits(i as nat)
    }
}

pub open spec fn doctype_text() -> Seq<char> {
    seq!['<', '!', 'D', 'O', 'C', 'T', 'Y', 'P', 'E', ' ', 'h', 't', 'm', 'l', '>']
}

/// The pairs with their strings viewed as character sequences.
pub open spec fn pairs_view(s: Seq<(String, String)>) -> Seq<(Seq<char>, Seq<char>)> {
    s.map_values(|p: (String, String)| (p.0@, p.1@))
}

/// ` name="value"` for each pair, in order.
pub open spec fn pairs_text(s: Seq<(Seq<char>, Seq<char>)>, escape: bool) -> Seq<char>
    decreases s.len(),
{
    if s.len() == 0 {
        Seq::empty()
    } else {
        pairs_text(s.drop_last(), escape) + seq![' '] + s.last().0 + seq!['=', '"']
            + text_of(s.last().1, escape) + seq!['"']
    }
}

/// The attribute clause of a tag: empty for the "no attributes" marker.
pub open spec fn attributes_text(a: Option<Vec<(String, String)>>, escape: bool) -> Seq<char> {
    match a {
        Some(v) => pairs_text(pairs_view(v@), escape),
        None => Seq::empty(),
    }
}

/// `<tag attrs/>` without children, `<tag attrs>children</tag>` with some.
pub open spec fn element_text(
    tag: Seq<char>,
    attrs: Seq<char>,
    has_children: bool,
    inner: Seq<char>,
) -> Seq<char> {
    let open = seq!['<'] + tag + attrs;
    if has_children {
        open + seq!['>'] + inner + seq!['<', '/'] + tag + seq!['>']
    } else {
        open + seq!['/', '>']
    }
}

/// The text that a node renders to.
pub open spec fn node_text(n: Node, escape: bool) -> Seq<char>
    decreases n,
{
    match n {
        Node::Text(s) => text_of(s@, escape),
        Node::Number(i) => decimal(i as int),
        Node::Raw(s) => s@,
        Node::Optional(o) => match o {
            Some(b) => node_text(*b, escape),
            None => Seq::empty(),
        },
        Node::Sequence(v) => nodes_text(v@, escape),
        Node::Tuple(v) => nodes_text(v@, escape),
        Node::Doctype => doctype_text(),
        Node::Element { tag, attributes, children } => element_text(
            tag@,
            attributes_text(attributes, escape),
            children@.len() > 0,
            nodes_text(children@, escape),
        ),
    }
}

/// The texts of the nodes, concatenated in order with no separator.
pub open spec fn nodes_text(s: Seq<Node>, escape: bool) -> Seq<char>
    decreases s,
{
    if s.len() == 0 {
        Seq::empty()
    } else {
        nodes_text(s.subrange(0, s.len() - 1), escape) + node_text(s[s.len() - 1], escape)
    }
}


fn digit_str(d: u64) -> (r: &'static str)
    requires
        d < 10,
    ensures
        r@ == seq![digit_char(d as nat)],
{
    proof {
        reveal_strlit("0");
        reveal_strlit("1");
        reveal_strlit("2");
        reveal_strlit("3");
        reveal_strlit("4");
        reveal_strlit("5");
        reveal_strlit("6");
        reveal_strlit("7");
        reveal_strlit("8");
        reveal_strlit("9");
    }
    if d == 0 { "0" }
    else if d == 1 { "1" }
    else if d == 2 { "2" }
    else if d == 3 { "3" }
    else if d == 4 { "4" }
    else if d == 5 { "5" }
    else if d == 6 { "6" }
    else if d == 7 { "7" }
    else if d == 8 { "8" }
    else { "9" }
}

fn write_digits(out: &mut String, n: u64)
    ensures
        final(out)@ == old(out)@ + digits(n as nat),
    decreases n,
{
    if n >= 10 {
        write_digits(out, n / 10);
    }
    out.append(digit_str(n % 10));
    proof {
        assert((n % 10) as nat == (n as nat) % 10);
        assert((n / 10) as nat == (n as nat) / 10);
    }
}

/// Appends the decimal form of `i`.
pub fn write_decimal(out: &mut String, i: i64)
    ensures
        final(out)@ == old(out)@ + decimal(i as int),
{
    if i < 0 {
        out.append("-");
        proof {
            reveal_strlit("-");
        }
        let m: u64 = (0i128 - i as i128) as u64;
        write_digits(out, m);
        assert(m as nat == (-(i as int)) as nat);
    } else {
        write_digits(out, i as u64);
    }
    assert(final(out)@ =~= old(out)@ + decimal(i as int));
}

fn escape_str(c: char) -> (r: &'static str)
    requires
        c == '&' || c == '<' || c == '>' || c == '"' || c == '\'',
    ensures
        r@ == escaped_char(c),
{
    proof {
        reveal_strlit("&amp;");
        reveal_strlit("&lt;");
        reveal_strlit("&gt;");
        reveal_strlit("&quot;");
        reveal_strlit("&#39;");
    }
    if c == '&' {
        "&amp;"
    } else if c == '<' {
        "&lt;"
    } else if c == '>' {
        "&gt;"
    } else if c == '"' {
        "&quot;"
    } else {
        "&#39;"
    }
}

/// Appends `s` with each special character replaced by its HTML escape.
pub fn write_escaped(out: &mut String, s: &str)
    ensures
        final(out)@ == old(out)@ + escaped(s@),
{
    let n = s.unicode_len();
    let ghost start = out@;
    let mut i: usize = 0;
    while i < n
        invariant
            n == s@.len(),
            i <= n,
            out@ == start + escaped(s@.subrange(0, i as int)),
        decreases n - i,
    {
        let c = s.get_char(i);
        if c == '&' || c == '<' || c == '>' || c == '"' || c == '\'' {
            out.append(escape_str(c));
        } else {
            out.append(s.substring_char(i, i + 1));
            assert(s@.subrange(i as int, i + 1) =~= seq![c]);
        }
        proof {
            let pre = s@.subrange(0, i + 1);
            assert(pre.drop_last() =~= s@.subrange(0, i as int));
            assert(pre.last() == c);
        }
        i = i + 1;
    }
    assert(s@.subrange(0, n as int) =~= s@);
}

/// Appends `s`, escaped when `escape` holds and verbatim otherwise.
pub fn write_text(out: &mut String, s: &str, escape: bool)
    ensures
        final(out)@ == old(out)@ + text_of(s@, escape),
{
    if escape {
        write_escaped(out, s);
    } else {
        out.append(s);
    }
}

fn write_pairs(out: &mut String, pairs: &Vec<(String, String)>, escape: bool)
    ensures
        final(out)@ == old(out)@ + pairs_text(pairs_view(pairs@), escape),
{
    let ghost start = out@;
    let mut i: usize = 0;
    while i < pairs.len()
        invariant
            i <= pairs@.len(),
            out@ == start + pairs_text(pairs_view(pairs@.subrange(0, i as int)), escape),
        decreases pairs@.len() - i,
    {
        let pair = &pairs[i];
        out.append(" ");
        out.append(pair.0.as_str());
        out.append("=\"");
        write_text(out, pair.1.as_str(), escape);
        out.append("\"");
        proof {
            reveal_strlit(" ");
            reveal_strlit("=\"");
            reveal_strlit("\"");
            let pre = pairs_view(pairs@.subrange(0, i + 1));
            assert(pre.drop_last() =~= pairs_view(pairs@.subrange(0, i as int)));
            assert(pre.last() == (pairs@[i as int].0@, pairs@[i as int].1@));
            assert(out@ =~= start + pairs_text(pre, escape));
        }
        i = i + 1;
    }
    assert(pairs@.subrange(0, i as int) =~= pairs@);
}

impl Node {
    /// Appends the text of this node to `out`.
    pub fn render_into(&self, out: &mut String, escape: bool)
        ensures
            final(out)@ == old(out)@ + node_text(*self, escape),
        decreases self,
    {
        match self {
            Node::Text(s) => write_text(out, s.as_str(), escape),
            Node::Number(i) => write_decimal(out, *i),
            Node::Raw(s) => out.append(s.as_str()),
            Node::Optional(o) => match o {
                Some(b) => b.render_into(out, escape),
                None => {
                    assert(out@ =~= old(out)@ + Seq::<char>::empty());
                },
            },
            Node::Sequence(v) => render_all(v, out, escape),
            Node::Tuple(v) => render_all(v, out, escape),
            Node::Doctype => {
                out.append("<!DOCTYPE html>");
                proof {
                    reveal_strlit("<!DOCTYPE html>");
                }
                assert(out@ =~= old(out)@ + doctype_text());
            },
            Node::Element { tag, attributes, children } => {
                let ghost start = out@;
                proof {
                    reveal_strlit("<");
                    reveal_strlit(">");
                    reveal_strlit("</");
                    reveal_strlit("/>");
                }
                out.append("<");
                out.append(tag.as_str());
                match attributes {
                    Some(pairs) => write_pairs(out, pairs, escape),
                    None => {},
                }
                let ghost opened = out@;
                assert(opened =~= start + (seq!['<'] + tag@ + attributes_text(*attributes, escape)));
                if children.len() > 0 {
                    out.append(">");
                    render_all(children, out, escape);
                    out.append("</");
                    out.append(tag.as_str());
                    out.append(">");
                } else {
                    out.append("/>");
                }
                assert(out@ =~= start + node_text(*self, escape));
            },
        }
    }

    /// The text of this node.
    pub fn render(&self, escape: bool) -> (r: String)
        ensures
            r@ == node_text(*self, escape),
    {
        let mut out = String::new();
        self.render_into(&mut out, escape);
        assert(out@ =~= node_text(*self, escape));
        out
    }
}

/// Appends the texts of `nodes`, in order.
pub fn render_all(nodes: &Vec<Node>, out: &mut String, escape: bool)
    ensures
        final(out)@ == old(out)@ + nodes_text(nodes@, escape),
    decreases nodes,
{
    let ghost start = out@;
    let mut i: usize = 0;
    while i < nodes.len()
        invariant
            i <= nodes@.len(),
            out@ == start + nodes_text(nodes@.subrange(0, i as int), escape),
        decreases nodes@.len() - i,
    {
        let n = &nodes[i];
        n.render_into(out, escape);
        proof {
            let pre = nodes@.subrange(0, i + 1);
            assert(pre.subrange(0, pre.len() - 1) =~= nodes@.subrange(0, i as int));
            assert(pre[pre.len() - 1] == nodes@[i as int]);
            assert(out@ =~= start + nodes_text(pre, escape));
        }
        i = i + 1;
    }
    assert(nodes@.subrange(0, i as int) =~= nodes@);
}

/// An absent optional renders as nothing; a present one as its content.
pub proof fn optional_renders_content(o: Option<Box<Node>>, escape: bool)
    ensures
        o is None ==> node_text(Node::Optional(o), escape) == Seq::<char>::empty(),
        o matches Some(b) ==> node_text(Node::Optional(o), escape) == node_text(*b, escape),
{
}

/// Rendering keeps no state between calls: two renders of one node with the
/// same escaping give the same text.
pub proof fn render_is_repeatable(n: Node, first: Seq<char>, second: Seq<char>, escape: bool)
    requires
        first == node_text(n, escape),
        second == node_text(n, escape),
    ensures
        first == second,
{
}

/// Nodes render in order: the text of two runs of nodes one after the other
/// is the text of the first run followed by that of the second.
pub proof fn nodes_text_append(s1: Seq<Node>, s2: Seq<Node>, escape: bool)
    ensures
        nodes_text(s1 + s2, escape) == nodes_text(s1, escape) + nodes_text(s2, escape),
    decreases s2.len(),
{
    if s2.len() == 0 {
        assert(s1 + s2 =~= s1);
        assert(nodes_text(s2, escape) =~= Seq::<char>::empty());
    } else {
        let s = s1 + s2;
        let shorter = s2.subrange(0, s2.len() - 1);
        nodes_text_append(s1, shorter, escape);
        assert(s.subrange(0, s.len() - 1) =~= s1 + shorter);
        assert(s[s.len() - 1] == s2[s2.len() - 1]);
        assert(nodes_text(s, escape) =~= nodes_text(s1, escape) + nodes_text(s2, escape));
    }
}

} // verus!
