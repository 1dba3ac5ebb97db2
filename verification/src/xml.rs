//! The XML documents the service exchanges, as trees, with a verified
//! parser and serializer.
//!
//! The service's documents use a small, regular XML subset: an element is
//! `<Name>` followed either by character data or by child elements, then
//! `</Name>`; there are no attributes, comments or processing instructions.
//! `Node` is such an element; `XmlNode` is its mathematical shape.  The
//! parser maps text to a tree, the serializer a tree back to text, and
//! `lemma_parse_ser_node` proves that parsing inverts serialization on every
//! well-formed tree — the foundation for the decoders' re-parse guarantee.

use vstd::prelude::*;
use crate::error::VueError;
use crate::numeric::{
    parse_u64_spec, parse_u8_spec, parse_u32_spec, parse_decimal_spec, parse_u64, parse_u8,
    parse_u32, parse_decimal, Decimal, DecimalV,
};

verus! {

/// The mathematical shape of an element: a tag name, the child elements,
/// and the character data.  An element carries either children or text,
/// never both.
pub struct XmlNode {
    pub name: Seq<char>,
    pub kids: Seq<XmlNode>,
    pub text: Seq<char>,
}

/// One parsed element.
#[derive(Debug, PartialEq)]
pub struct Node {
    pub name: String,
    pub kids: Vec<Node>,
    pub text: String,
}

/// The shapes of a sequence of elements, in order.
pub open spec fn nodes_view(ns: Seq<Node>) -> Seq<XmlNode>
    decreases ns,
{
    if ns.len() == 0 {
        Seq::<XmlNode>::empty()
    } else {
        seq![node_view(ns.first())] + nodes_view(ns.drop_first())
    }
}

/// The shape of one parsed element.
pub open spec fn node_view(n: Node) -> XmlNode
    decreases n,
{
    XmlNode { name: n.name@, kids: nodes_view(n.kids@), text: n.text@ }
}

pub broadcast proof fn lemma_nodes_view_len(ns: Seq<Node>)
    ensures
        #[trigger] nodes_view(ns).len() == ns.len(),
        forall|i: int| 0 <= i < ns.len() ==> nodes_view(ns)[i] == node_view(ns[i]),
    decreases ns.len(),
{
    if ns.len() > 0 {
        lemma_nodes_view_len(ns.drop_first());
    }
}

pub proof fn lemma_nodes_view_push(ns: Seq<Node>, n: Node)
    ensures
        nodes_view(ns.push(n)) == nodes_view(ns).push(node_view(n)),
    decreases ns.len(),
{
    if ns.len() == 0 {
        assert(ns.push(n).drop_first() =~= Seq::<Node>::empty());
        assert(nodes_view(Seq::<Node>::empty()) =~= Seq::<XmlNode>::empty());
        assert(nodes_view(ns.push(n)) =~= nodes_view(ns).push(node_view(n)));
    } else {
        assert(ns.push(n).drop_first() =~= ns.drop_first().push(n));
        lemma_nodes_view_push(ns.drop_first(), n);
        assert(nodes_view(ns.push(n)) =~= nodes_view(ns).push(node_view(n)));
    }
}

/// A character that may appear in a tag name.
pub open spec fn is_name_char(c: char) -> bool {
    c != '<' && c != '>' && c != '/'
}

/// A character that may appear in character data.
pub open spec fn is_text_char(c: char) -> bool {
    c != '<'
}

pub open spec fn wf_name(name: Seq<char>) -> bool {
    name.len() > 0 && forall|i: int| 0 <= i < name.len() ==> is_name_char(#[trigger] name[i])
}

pub open spec fn wf_text(t: Seq<char>) -> bool {
    forall|i: int| 0 <= i < t.len() ==> is_text_char(#[trigger] t[i])
}

/// A tree the serializer can render and the parser read back: names are
/// nonempty and markup-free, character data holds no `'<'`, and an element
/// with children carries no text of its own.
pub open spec fn wf_node(n: XmlNode) -> bool
    decreases n, 1int,
{
    wf_name(n.name) && wf_text(n.text) && (n.kids.len() > 0 ==> n.text.len() == 0) && wf_kids(
        n.kids,
    )
}

pub open spec fn wf_kids(ks: Seq<XmlNode>) -> bool
    decreases ks, 0int,
{
    if ks.len() == 0 {
        true
    } else {
        wf_node(ks.first()) && wf_kids(ks.drop_first())
    }
}

/// The exact text of an element: its body — the children in order, or the
/// character data — between the opening and closing tags.
pub open spec fn ser_node(n: XmlNode) -> Seq<char>
    decreases n, 1int,
{
    "<"@ + n.name + ">"@ + (if n.kids.len() > 0 {
        ser_kids(n.kids)
    } else {
        n.text
    }) + "</"@ + n.name + ">"@
}

pub open spec fn ser_kids(ks: Seq<XmlNode>) -> Seq<char>
    decreases ks, 0int,
{
    if ks.len() == 0 {
        Seq::<char>::empty()
    } else {
        ser_node(ks.first()) + ser_kids(ks.drop_first())
    }
}

pub proof fn lemma_ser_kids_push(ks: Seq<XmlNode>, k: XmlNode)
    ensures
        ser_kids(ks.push(k)) == ser_kids(ks) + ser_node(k),
    decreases ks.len(),
{
    if ks.len() == 0 {
        assert(ks.push(k).drop_first() =~= Seq::<XmlNode>::empty());
        assert(ser_kids(Seq::<XmlNode>::empty()) =~= Seq::<char>::empty());
        assert(ser_kids(ks.push(k)) =~= ser_kids(ks) + ser_node(k));
    } else {
        assert(ks.push(k).drop_first() =~= ks.drop_first().push(k));
        lemma_ser_kids_push(ks.drop_first(), k);
        assert(ser_kids(ks.push(k)) =~= ser_kids(ks) + ser_node(k));
    }
}

pub proof fn lemma_wf_kids_index(ks: Seq<XmlNode>)
    requires
        wf_kids(ks),
    ensures
        forall|i: int| 0 <= i < ks.len() ==> wf_node(#[trigger] ks[i]),
    decreases ks.len(),
{
    if ks.len() > 0 {
        lemma_wf_kids_index(ks.drop_first());
        assert forall|i: int| 0 <= i < ks.len() implies wf_node(#[trigger] ks[i]) by {
            if i > 0 {
                assert(ks[i] == ks.drop_first()[i - 1]);
            }
        }
    }
}

/// The opening tag of an element.
pub open spec fn open_tag(name: Seq<char>) -> Seq<char> {
    "<"@ + name + ">"@
}

/// The closing tag of an element.
pub open spec fn close_tag(name: Seq<char>) -> Seq<char> {
    "</"@ + name + ">"@
}

pub proof fn lemma_open_tag_index(name: Seq<char>)
    ensures
        open_tag(name).len() == name.len() + 2,
        open_tag(name)[0] == '<',
        open_tag(name)[name.len() as int + 1] == '>',
        forall|t: int| 0 <= t < name.len() ==> open_tag(name)[1 + t] == name[t],
{
    reveal_strlit("<");
    reveal_strlit(">");
}

pub proof fn lemma_close_tag_index(name: Seq<char>)
    ensures
        close_tag(name).len() == name.len() + 3,
        close_tag(name)[0] == '<',
        close_tag(name)[1] == '/',
        close_tag(name)[name.len() as int + 2] == '>',
        forall|t: int| 0 <= t < name.len() ==> close_tag(name)[2 + t] == name[t],
{
    reveal_strlit("</");
    reveal_strlit(">");
}

/// `ser_node` spelled over the tag helpers, with the body named.
pub proof fn lemma_ser_node_split(n: XmlNode)
    ensures
        ser_node(n) == open_tag(n.name) + (if n.kids.len() > 0 {
            ser_kids(n.kids)
        } else {
            n.text
        }) + close_tag(n.name),
{
    assert(ser_node(n) =~= open_tag(n.name) + (if n.kids.len() > 0 {
        ser_kids(n.kids)
    } else {
        n.text
    }) + close_tag(n.name));
}

/// First position at or after `i` that does not hold a name character.
pub open spec fn scan_name(s: Seq<char>, i: int) -> int
    decreases s.len() - i,
{
    if 0 <= i && i < s.len() && is_name_char(s[i]) {
        scan_name(s, i + 1)
    } else {
        i
    }
}

/// First position at or after `i` that does not hold a text character.
pub open spec fn scan_text(s: Seq<char>, i: int) -> int
    decreases s.len() - i,
{
    if 0 <= i && i < s.len() && is_text_char(s[i]) {
        scan_text(s, i + 1)
    } else {
        i
    }
}



/// Where a run of name characters is laid down at `i` with a non-name
/// character right after it, the scan stops exactly at its end.
pub proof fn lemma_scan_name_exact(s: Seq<char>, i: int, name: Seq<char>)
    requires
        0 <= i,
        i + name.len() < s.len(),
        forall|t: int| 0 <= t < name.len() ==> is_name_char(#[trigger] name[t]),
        forall|t: int| 0 <= t < name.len() ==> s[i + t] == name[t],
        !is_name_char(s[i + name.len()]),
    ensures
        scan_name(s, i) == i + name.len(),
    decreases name.len(),
{
    if name.len() == 0 {
    } else {
        assert(s[i] == name[0]);
        let rest = name.drop_first();
        assert(forall|t: int| 0 <= t < rest.len() ==> s[i + 1 + t] == rest[t]);
        lemma_scan_name_exact(s, i + 1, rest);
    }
}

pub proof fn lemma_scan_text_exact(s: Seq<char>, i: int, text: Seq<char>)
    requires
        0 <= i,
        i + text.len() < s.len(),
        forall|t: int| 0 <= t < text.len() ==> is_text_char(#[trigger] text[t]),
        forall|t: int| 0 <= t < text.len() ==> s[i + t] == text[t],
        !is_text_char(s[i + text.len()]),
    ensures
        scan_text(s, i) == i + text.len(),
    decreases text.len(),
{
    if text.len() == 0 {
    } else {
        assert(s[i] == text[0]);
        let rest = text.drop_first();
        assert(forall|t: int| 0 <= t < rest.len() ==> s[i + 1 + t] == rest[t]);
        lemma_scan_text_exact(s, i + 1, rest);
    }
}

/// Reads the closing tag `</name>` at `c` and finishes the element.
pub open spec fn parse_close(
    s: Seq<char>,
    c: int,
    name: Seq<char>,
    kids: Seq<XmlNode>,
    text: Seq<char>,
) -> Option<(XmlNode, int)> {
    let e = c + 2 + name.len();
    if 0 <= c && c + 1 < s.len() && s[c] == '<' && s[c + 1] == '/' && e < s.len() && s.subrange(
        c + 2,
        e,
    ) == name && s[e] == '>' {
        Some((XmlNode { name, kids, text }, e + 1))
    } else {
        None
    }
}

/// Reads one element at `i`: `<Name>`, then character data, child elements
/// or nothing, then `</Name>` with the same name.  Yields the element and
/// the position just past it.
pub open spec fn spec_parse_node(s: Seq<char>, i: int) -> Option<(XmlNode, int)>
    decreases s.len() - i, 0int,
{
    if !(0 <= i && i < s.len() && s[i] == '<') {
        None
    } else {
        let j = scan_name(s, i + 1);
        if !(i + 1 < j && j < s.len() && s[j] == '>') {
            None
        } else {
            let name = s.subrange(i + 1, j);
            let k = j + 1;
            if k + 1 < s.len() && s[k] == '<' && s[k + 1] == '/' {
                parse_close(s, k, name, Seq::<XmlNode>::empty(), Seq::<char>::empty())
            } else if k < s.len() && s[k] == '<' {
                match spec_parse_kids(s, k) {
                    Some((kids, c)) => parse_close(s, c, name, kids, Seq::<char>::empty()),
                    None => None,
                }
            } else {
                let m = scan_text(s, k);
                parse_close(s, m, name, Seq::<XmlNode>::empty(), s.subrange(k, m))
            }
        }
    }
}

/// Reads a run of sibling elements at `i`, ending where a closing tag
/// follows.  Yields the siblings in document order.
pub open spec fn spec_parse_kids(s: Seq<char>, i: int) -> Option<(Seq<XmlNode>, int)>
    decreases s.len() - i, 1int,
{
    match spec_parse_node(s, i) {
        Some((n, j)) => {
            if !(i < j && j <= s.len()) {
                None
            } else if j + 1 < s.len() && s[j] == '<' && s[j + 1] == '/' {
                Some((seq![n], j))
            } else if j < s.len() && s[j] == '<' {
                match spec_parse_kids(s, j) {
                    Some((rest, c)) => Some((seq![n].add(rest), c)),
                    None => None,
                }
            } else {
                None
            }
        },
        None => None,
    }
}

/// Reads a whole document: one root element spanning the entire text.
pub open spec fn spec_parse_document(s: Seq<char>) -> Option<XmlNode> {
    match spec_parse_node(s, 0) {
        Some((n, j)) => if j == s.len() {
            Some(n)
        } else {
            None
        },
        None => None,
    }
}

/// The serialized form of a well-formed element opens with `'<'` and a name
/// character, and is at least four characters long.
pub proof fn lemma_ser_node_head(n: XmlNode)
    requires
        wf_node(n),
    ensures
        ser_node(n).len() >= n.name.len() * 2 + 5,
        ser_node(n)[0] == '<',
        ser_node(n)[1] == n.name[0],
        is_name_char(n.name[0]),
{
    lemma_ser_node_split(n);
    lemma_open_tag_index(n.name);
    let body = if n.kids.len() > 0 {
        ser_kids(n.kids)
    } else {
        n.text
    };
    lemma_close_tag_index(n.name);
    assert(ser_node(n).len() == open_tag(n.name).len() + body.len() + close_tag(n.name).len());
    assert(ser_node(n)[0] == open_tag(n.name)[0]);
    assert(ser_node(n)[1] == open_tag(n.name)[1]);
    assert(open_tag(n.name)[1] == n.name[0]);
}

/// Parsing inverts serialization: a well-formed element's serialized text,
/// laid down anywhere inside a larger text, reads back as exactly that
/// element, consuming exactly its own span.
pub proof fn lemma_parse_ser_node(n: XmlNode, s: Seq<char>, i: int)
    requires
        wf_node(n),
        0 <= i,
        i + ser_node(n).len() <= s.len(),
        s.subrange(i, i + ser_node(n).len() as int) == ser_node(n),
    ensures
        spec_parse_node(s, i) == Some((n, i + ser_node(n).len() as int)),
    decreases n, 1int,
{
    reveal_strlit("<");
    reveal_strlit(">");
    reveal_strlit("</");
    let name = n.name;
    let ghost ll: int = name.len() as int;
    let body = if n.kids.len() > 0 {
        ser_kids(n.kids)
    } else {
        n.text
    };
    let ghost bl: int = body.len() as int;
    let w = ser_node(n);
    let ghost wl: int = w.len() as int;
    lemma_ser_node_split(n);
    lemma_open_tag_index(name);
    lemma_close_tag_index(name);
    assert(wl == ll + 2 + bl + ll + 3);
    assert forall|t: int| 0 <= t < wl implies s[i + t] == w[t] by {
        assert(w[t] == s.subrange(i, i + wl)[t]);
    }
    // the opening tag
    assert(s[i + 0] == w[0]);
    assert(w[0] == open_tag(name)[0]);
    assert(s[i] == '<');
    assert forall|t: int| 0 <= t < ll implies s[i + 1 + t] == name[t] by {
        assert(s[i + (1 + t)] == w[1 + t]);
        assert(w[1 + t] == open_tag(name)[1 + t]);
    }
    assert(s[i + (1 + ll)] == w[1 + ll]);
    assert(w[1 + ll] == open_tag(name)[1 + ll]);
    assert(s[i + 1 + ll] == '>');
    lemma_scan_name_exact(s, i + 1, name);
    let j = scan_name(s, i + 1);
    assert(j == i + 1 + ll);
    assert(s.subrange(i + 1, j) =~= name);
    let k = j + 1;
    // the closing tag, at position `ce`
    let ce = k + bl;
    assert forall|t: int| 0 <= t < ll + 3 implies s[ce + t] == close_tag(name)[t] by {
        assert(s[i + (2 + ll + bl + t)] == w[2 + ll + bl + t]);
        assert(w[2 + ll + bl + t] == close_tag(name)[t]);
    }
    assert(s[ce] == '<');
    assert(s[ce + 1] == '/');
    assert(s.subrange(ce + 2, ce + 2 + ll) =~= name);
    assert(s[ce + 2 + ll] == '>');
    // the body
    assert forall|t: int| 0 <= t < bl implies s[k + t] == body[t] by {
        assert(s[i + (2 + ll + t)] == w[2 + ll + t]);
        assert(w[2 + ll + t] == body[t]);
    }
    if n.kids.len() > 0 {
        assert(body == ser_kids(n.kids));
        lemma_wf_kids_index(n.kids);
        lemma_ser_node_head(n.kids.first());
        assert(ser_kids(n.kids) == ser_node(n.kids.first()) + ser_kids(n.kids.drop_first()));
        assert(body[0] == '<');
        assert(body[1] == n.kids.first().name[0]);
        assert(bl >= 2);
        assert(s[k] == '<');
        assert(s[k + 1] != '/');
        assert(s.subrange(k, k + bl) =~= body);
        lemma_parse_ser_kids(n.kids, s, k);
        assert(spec_parse_kids(s, k) == Some((n.kids, ce)));
        assert(parse_close(s, ce, name, n.kids, Seq::<char>::empty()) == Some(
            (XmlNode { name, kids: n.kids, text: Seq::<char>::empty() }, ce + 2 + ll + 1),
        ));
        assert(n.text =~= Seq::<char>::empty());
        assert(XmlNode { name, kids: n.kids, text: Seq::<char>::empty() } == n);
        assert(ce + 2 + ll + 1 == i + wl);
    } else {
        assert(body == n.text);
        if bl == 0 {
            assert(s[k] == '<' && s[k + 1] == '/');
            assert(n.kids =~= Seq::<XmlNode>::empty());
            assert(n.text =~= Seq::<char>::empty());
            assert(parse_close(s, k, name, Seq::<XmlNode>::empty(), Seq::<char>::empty())
                == Some((XmlNode { name, kids: n.kids, text: n.text }, k + 2 + ll + 1)));
        } else {
            assert(s[k] == body[0]);
            assert(is_text_char(body[0]));
            assert(s[k] != '<');
            lemma_scan_text_exact(s, k, n.text);
            let m = scan_text(s, k);
            assert(m == ce);
            assert(s.subrange(k, m) =~= n.text);
            assert(n.kids =~= Seq::<XmlNode>::empty());
            assert(parse_close(s, m, name, Seq::<XmlNode>::empty(), s.subrange(k, m)) == Some(
                (XmlNode { name, kids: n.kids, text: n.text }, ce + 2 + ll + 1),
            ));
        }
    }
}

/// Parsing inverts serialization for a run of siblings followed by a
/// closing tag.
pub proof fn lemma_parse_ser_kids(ks: Seq<XmlNode>, s: Seq<char>, i: int)
    requires
        wf_kids(ks),
        ks.len() > 0,
        0 <= i,
        i + ser_kids(ks).len() + 2 <= s.len(),
        s.subrange(i, i + ser_kids(ks).len() as int) == ser_kids(ks),
        s[i + ser_kids(ks).len()] == '<',
        s[i + ser_kids(ks).len() + 1] == '/',
    ensures
        spec_parse_kids(s, i) == Some((ks, i + ser_kids(ks).len() as int)),
    decreases ks, 0int,
{
    let first = ks.first();
    let rest = ks.drop_first();
    let w = ser_kids(ks);
    let ghost wl: int = w.len() as int;
    assert(w == ser_node(first) + ser_kids(rest));
    let ghost fl: int = ser_node(first).len() as int;
    let ghost rl: int = ser_kids(rest).len() as int;
    assert forall|t: int| 0 <= t < wl implies s[i + t] == w[t] by {
        assert(w[t] == s.subrange(i, i + wl)[t]);
    }
    assert(s.subrange(i, i + fl) =~= ser_node(first)) by {
        assert forall|t: int| 0 <= t < fl implies s.subrange(i, i + fl)[t] == ser_node(first)[t]
            by {
            assert(w[t] == ser_node(first)[t]);
        }
    }
    lemma_parse_ser_node(first, s, i);
    let j = i + fl;
    lemma_ser_node_head(first);
    assert(i < j);
    if rest.len() == 0 {
        assert(rl == 0);
        assert(j == i + wl);
        assert(s[j] == '<' && s[j + 1] == '/');
        assert(seq![first] =~= ks);
    } else {
        assert(wf_node(rest.first())) by {
            lemma_wf_kids_index(ks);
            assert(rest.first() == ks[1]);
        }
        lemma_ser_node_head(rest.first());
        assert(ser_kids(rest) == ser_node(rest.first()) + ser_kids(rest.drop_first()));
        assert(ser_kids(rest)[0] == '<');
        assert(ser_kids(rest)[1] == rest.first().name[0]);
        assert(is_name_char(rest.first().name[0]));
        assert(s[i + fl] == w[fl]);
        assert(w[fl] == ser_kids(rest)[0]);
        assert(s[j] == '<');
        assert(s[i + (fl + 1)] == w[fl + 1]);
        assert(w[fl + 1] == ser_kids(rest)[1]);
        assert(s[j + 1] == ser_kids(rest)[1]);
        assert(s[j + 1] != '/');
        assert(s.subrange(j, j + rl) =~= ser_kids(rest)) by {
            assert forall|t: int| 0 <= t < rl implies s.subrange(j, j + rl)[t] == ser_kids(
                rest,
            )[t] by {
                assert(w[fl + t] == ser_kids(rest)[t]);
            }
        }
        lemma_parse_ser_kids(rest, s, j);
        assert(spec_parse_kids(s, j) == Some((rest, j + rl)));
        assert(seq![first].add(rest) =~= ks);
        assert(j + rl == i + wl);
    }
}

fn scan_name_at(s: &str, i: usize) -> (r: usize)
    requires
        i <= s@.len(),
    ensures
        r == scan_name(s@, i as int),
        i <= r <= s@.len(),
{
    let len = s.unicode_len();
    let mut j = i;
    while j < len
        invariant
            i <= j <= len,
            len == s@.len(),
            scan_name(s@, i as int) == scan_name(s@, j as int),
        decreases len - j,
    {
        let c = s.get_char(j);
        if c == '<' || c == '>' || c == '/' {
            assert(!is_name_char(s@[j as int]));
            return j;
        }
        assert(is_name_char(s@[j as int]));
        j = j + 1;
    }
    j
}

fn scan_text_at(s: &str, i: usize) -> (r: usize)
    requires
        i <= s@.len(),
    ensures
        r == scan_text(s@, i as int),
        i <= r <= s@.len(),
{
    let len = s.unicode_len();
    let mut j = i;
    while j < len
        invariant
            i <= j <= len,
            len == s@.len(),
            scan_text(s@, i as int) == scan_text(s@, j as int),
        decreases len - j,
    {
        let c = s.get_char(j);
        if c == '<' {
            assert(!is_text_char(s@[j as int]));
            return j;
        }
        assert(is_text_char(s@[j as int]));
        j = j + 1;
    }
    j
}

/// Reads the closing tag `</name>` at `c` and finishes the element, exactly
/// as `parse_close` states.
fn parse_close_at(s: &str, c: usize, name: &String, kids: Vec<Node>, text: String) -> (r: Option<
    (Node, usize),
>)
    requires
        c <= s@.len(),
    ensures
        match parse_close(s@, c as int, name@, nodes_view(kids@), text@) {
            Some(q) => r matches Some(p) && node_view(p.0) == q.0 && p.1 == q.1 && c < p.1
                <= s@.len(),
            None => r is None,
        },
{
    let len = s.unicode_len();
    if !(c < len && len - c > 1) {
        return None;
    }
    if s.get_char(c) != '<' || s.get_char(c + 1) != '/' {
        return None;
    }
    let nl = name.as_str().unicode_len();
    if nl >= len - (c + 2) {
        return None;
    }
    let e = c + 2 + nl;
    let mut t: usize = 0;
    while t < nl
        invariant
            0 <= t <= nl,
            nl == name@.len(),
            len == s@.len(),
            c + 2 + nl < len,
            e == c + 2 + nl,
            forall|u: int| 0 <= u < t ==> s@[c + 2 + u] == name@[u],
        decreases nl - t,
    {
        if s.get_char(c + 2 + t) != name.as_str().get_char(t) {
            proof {
                let sub = s@.subrange(c as int + 2, e as int);
                assert(sub[t as int] == s@[c + 2 + t as int]);
                assert(sub != name@);
            }
            return None;
        }
        t = t + 1;
    }
    proof {
        let sub = s@.subrange(c as int + 2, e as int);
        assert forall|u: int| 0 <= u < nl implies sub[u] == name@[u] by {
            assert(sub[u] == s@[c + 2 + u]);
        }
        assert(sub =~= name@);
    }
    if s.get_char(e) != '>' {
        return None;
    }
    Some((Node { name: name.clone(), kids, text }, e + 1))
}

/// Reads one element at `i`, exactly as `spec_parse_node` states.
pub fn parse_node_at(s: &str, i: usize) -> (r: Option<(Node, usize)>)
    requires
        i <= s@.len(),
    ensures
        match spec_parse_node(s@, i as int) {
            Some(q) => r matches Some(p) && node_view(p.0) == q.0 && p.1 == q.1 && i < p.1
                <= s@.len(),
            None => r is None,
        },
    decreases s@.len() - i, 0int,
{
    let len = s.unicode_len();
    if !(i < len) {
        return None;
    }
    if s.get_char(i) != '<' {
        return None;
    }
    let j = scan_name_at(s, i + 1);
    if !(i + 1 < j) {
        return None;
    }
    if !(j < len) {
        return None;
    }
    if s.get_char(j) != '>' {
        return None;
    }
    let name: String = s.substring_char(i + 1, j).to_owned();
    let k = j + 1;
    let ghost namev = s@.subrange(i as int + 1, j as int);
    assert(name@ == namev);
    if k < len && len - k > 1 && s.get_char(k) == '<' && s.get_char(k + 1) == '/' {
        let no_kids: Vec<Node> = Vec::new();
        let no_text = String::new();
        proof {
            assert(nodes_view(no_kids@) =~= Seq::<XmlNode>::empty());
        }
        parse_close_at(s, k, &name, no_kids, no_text)
    } else if k < len && s.get_char(k) == '<' {
        match parse_kids_at(s, k) {
            Some((kids, c)) => {
                let no_text = String::new();
                parse_close_at(s, c, &name, kids, no_text)
            },
            None => None,
        }
    } else {
        let m = scan_text_at(s, k);
        let text = s.substring_char(k, m).to_owned();
        let no_kids: Vec<Node> = Vec::new();
        proof {
            assert(nodes_view(no_kids@) =~= Seq::<XmlNode>::empty());
        }
        parse_close_at(s, m, &name, no_kids, text)
    }
}

/// Reads a run of sibling elements at `i`, exactly as `spec_parse_kids`
/// states.
pub fn parse_kids_at(s: &str, i: usize) -> (r: Option<(Vec<Node>, usize)>)
    requires
        i <= s@.len(),
    ensures
        match spec_parse_kids(s@, i as int) {
            Some(q) => r matches Some(p) && nodes_view(p.0@) == q.0 && p.1 == q.1 && i < p.1
                <= s@.len(),
            None => r is None,
        },
    decreases s@.len() - i, 1int,
{
    let len = s.unicode_len();
    match parse_node_at(s, i) {
        Some((n, j)) => {
            if j < len && len - j > 1 && s.get_char(j) == '<' && s.get_char(j + 1) == '/' {
                let mut v: Vec<Node> = Vec::new();
                v.push(n);
                proof {
                    assert(v@.drop_first() =~= Seq::<Node>::empty());
                    assert(nodes_view(Seq::<Node>::empty()) =~= Seq::<XmlNode>::empty());
                    let ghost q = spec_parse_node(s@, i as int).unwrap();
                    assert(nodes_view(v@) =~= seq![q.0]);
                }
                Some((v, j))
            } else if j < len && s.get_char(j) == '<' {
                match parse_kids_at(s, j) {
                    Some((rest, c)) => {
                        let mut v = rest;
                        let ghost restv = v@;
                        v.insert(0, n);
                        proof {
                            assert(v@ =~= seq![n] + restv);
                            assert(v@.first() == n);
                            assert(v@.drop_first() =~= restv);
                            assert(nodes_view(v@) == seq![node_view(n)] + nodes_view(restv));
                        }
                        Some((v, c))
                    },
                    None => None,
                }
            } else {
                None
            }
        },
        None => None,
    }
}

/// Renders one element exactly as `ser_node` states.
pub fn node_to_string(n: &Node) -> (r: String)
    ensures
        r@ == ser_node(node_view(*n)),
    decreases *n,
{
    proof {
        reveal_strlit("<");
        reveal_strlit(">");
        reveal_strlit("</");
    }
    let mut out = "<".to_owned();
    out.append(n.name.as_str());
    out.append(">");
    if n.kids.len() > 0 {
        let ghost head = "<"@ + n.name@ + ">"@;
        let mut i: usize = 0;
        while i < n.kids.len()
            invariant
                0 <= i <= n.kids@.len(),
                out@ == head + ser_kids(nodes_view(n.kids@.subrange(0, i as int))),
            decreases n.kids@.len() - i,
        {
            let part = node_to_string(&n.kids[i]);
            out.append(part.as_str());
            proof {
                let pre = n.kids@.subrange(0, i as int);
                let cur = n.kids@.subrange(0, i as int + 1);
                assert(cur =~= pre.push(n.kids@[i as int]));
                lemma_nodes_view_push(pre, n.kids@[i as int]);
                lemma_ser_kids_push(nodes_view(pre), node_view(n.kids@[i as int]));
            }
            i = i + 1;
        }
        proof {
            assert(n.kids@.subrange(0, n.kids@.len() as int) =~= n.kids@);
            broadcast use lemma_nodes_view_len;

            assert(nodes_view(n.kids@).len() > 0);
        }
    } else {
        out.append(n.text.as_str());
        proof {
            assert(nodes_view(n.kids@).len() == 0);
        }
    }
    out.append("</");
    out.append(n.name.as_str());
    out.append(">");
    out
}

/// Reads a whole document: one root element spanning the entire text,
/// exactly as `spec_parse_document` states.
pub fn parse_document(s: &str) -> (r: Option<Node>)
    ensures
        match spec_parse_document(s@) {
            Some(x) => r matches Some(nd) && node_view(nd) == x,
            None => r is None,
        },
{
    let len = s.unicode_len();
    match parse_node_at(s, 0) {
        Some((n, j)) => if j == len {
            Some(n)
        } else {
            None
        },
        None => None,
    }
}

/// The first child of that name, in document order.
pub open spec fn find_kid(ks: Seq<XmlNode>, name: Seq<char>) -> Option<XmlNode>
    decreases ks,
{
    if ks.len() == 0 {
        None
    } else if ks.first().name == name {
        Some(ks.first())
    } else {
        find_kid(ks.drop_first(), name)
    }
}

/// The character data of the first child of that name: the field's raw
/// text, or `None` where the document has no such field.
pub open spec fn kid_text(n: XmlNode, name: Seq<char>) -> Option<Seq<char>> {
    match find_kid(n.kids, name) {
        Some(k) => Some(k.text),
        None => None,
    }
}

pub open spec fn kid_u64(n: XmlNode, name: Seq<char>) -> Option<u64> {
    match kid_text(n, name) {
        Some(t) => parse_u64_spec(t),
        None => None,
    }
}

pub open spec fn kid_u8(n: XmlNode, name: Seq<char>) -> Option<u8> {
    match kid_text(n, name) {
        Some(t) => parse_u8_spec(t),
        None => None,
    }
}

pub open spec fn kid_u32(n: XmlNode, name: Seq<char>) -> Option<u32> {
    match kid_text(n, name) {
        Some(t) => parse_u32_spec(t),
        None => None,
    }
}

/// A single-character field: exactly one character, never a truncation.
pub open spec fn kid_char(n: XmlNode, name: Seq<char>) -> Option<char> {
    match kid_text(n, name) {
        Some(t) => if t.len() == 1 {
            Some(t[0])
        } else {
            None
        },
        None => None,
    }
}

pub open spec fn kid_decimal(n: XmlNode, name: Seq<char>) -> Option<DecimalV> {
    match kid_text(n, name) {
        Some(t) => parse_decimal_spec(t),
        None => None,
    }
}

pub(crate) fn string_eq_str(a: &String, b: &str) -> (r: bool)
    ensures
        r == (a@ == b@),
{
    let bo: String = b.to_owned();
    a.eq(&bo)
}

/// Finds the first child of that name, exactly as `find_kid` states.
pub fn find_kid_exec<'a>(n: &'a Node, name: &str) -> (r: Option<&'a Node>)
    ensures
        match find_kid(node_view(*n).kids, name@) {
            Some(k) => r matches Some(c) && node_view(*c) == k,
            None => r is None,
        },
{
    proof {
        assert(n.kids@.skip(0) =~= n.kids@);
    }
    let mut i: usize = 0;
    while i < n.kids.len()
        invariant
            0 <= i <= n.kids@.len(),
            find_kid(node_view(*n).kids, name@) == find_kid(
                nodes_view(n.kids@.skip(i as int)),
                name@,
            ),
        decreases n.kids@.len() - i,
    {
        proof {
            let suf = n.kids@.skip(i as int);
            assert(suf.first() == n.kids@[i as int]);
            assert(suf.drop_first() =~= n.kids@.skip(i as int + 1));
            assert(nodes_view(suf).first() == node_view(n.kids@[i as int]));
            assert(nodes_view(suf).drop_first() =~= nodes_view(n.kids@.skip(i as int + 1)));
        }
        if string_eq_str(&n.kids[i].name, name) {
            return Some(&n.kids[i]);
        }
        i = i + 1;
    }
    proof {
        assert(n.kids@.skip(n.kids@.len() as int) =~= Seq::<Node>::empty());
    }
    None
}

/// The message mentions the field: its name occurs inside the text.
pub open spec fn names_field(msg: Seq<char>, field: Seq<char>) -> bool {
    exists|k: int|
        0 <= k && k + field.len() <= msg.len() && #[trigger] msg.subrange(k, k + field.len())
            == field
}

/// A decoding error naming the field concerned.
pub(crate) fn field_error(kind: &str, name: &str) -> (r: VueError)
    ensures
        r matches VueError::Xml(m) && names_field(m@, name@),
{
    let mut m = kind.to_owned();
    m.append(name);
    proof {
        let msg = kind@ + name@;
        assert(msg.subrange(kind@.len() as int, kind@.len() + name@.len() as int) =~= name@);
        assert(names_field(msg, name@));
    }
    VueError::Xml(m)
}

/// Reads a required text field: the named child's character data, or a
/// decoding error naming the field where the document has no such child.
pub fn get_text(n: &Node, name: &str) -> (r: Result<String, VueError>)
    ensures
        match kid_text(node_view(*n), name@) {
            Some(t) => r matches Ok(s) && s@ == t,
            None => r matches Err(VueError::Xml(m)) && names_field(m@, name@),
        },
{
    match find_kid_exec(n, name) {
        Some(k) => Ok(k.text.clone()),
        None => Err(field_error("missing required field: ", name)),
    }
}

/// Reads an optional text field: `None` is the explicit absent state, never
/// an error and never an empty default.
pub fn get_opt_text(n: &Node, name: &str) -> (r: Option<String>)
    ensures
        match kid_text(node_view(*n), name@) {
            Some(t) => r matches Some(s) && s@ == t,
            None => r is None,
        },
{
    match find_kid_exec(n, name) {
        Some(k) => Some(k.text.clone()),
        None => None,
    }
}

/// Reads a required unsigned field; non-numeric content is an error, never
/// a default of zero.
pub fn get_u64(n: &Node, name: &str) -> (r: Result<u64, VueError>)
    ensures
        match kid_u64(node_view(*n), name@) {
            Some(v) => r matches Ok(x) && x == v,
            None => r matches Err(VueError::Xml(m)) && names_field(m@, name@),
        },
{
    match find_kid_exec(n, name) {
        Some(k) => match parse_u64(k.text.as_str()) {
            Some(v) => Ok(v),
            None => Err(field_error("invalid numeric field: ", name)),
        },
        None => Err(field_error("missing required field: ", name)),
    }
}

/// Reads a required unsigned field that must fit in a `u8`.
pub fn get_u8(n: &Node, name: &str) -> (r: Result<u8, VueError>)
    ensures
        match kid_u8(node_view(*n), name@) {
            Some(v) => r matches Ok(x) && x == v,
            None => r matches Err(VueError::Xml(m)) && names_field(m@, name@),
        },
{
    match find_kid_exec(n, name) {
        Some(k) => match parse_u8(k.text.as_str()) {
            Some(v) => Ok(v),
            None => Err(field_error("invalid numeric field: ", name)),
        },
        None => Err(field_error("missing required field: ", name)),
    }
}

/// Reads a required unsigned field that must fit in a `u32`.
pub fn get_u32(n: &Node, name: &str) -> (r: Result<u32, VueError>)
    ensures
        match kid_u32(node_view(*n), name@) {
            Some(v) => r matches Ok(x) && x == v,
            None => r matches Err(VueError::Xml(m)) && names_field(m@, name@),
        },
{
    match find_kid_exec(n, name) {
        Some(k) => match parse_u32(k.text.as_str()) {
            Some(v) => Ok(v),
            None => Err(field_error("invalid numeric field: ", name)),
        },
        None => Err(field_error("missing required field: ", name)),
    }
}

/// Reads a required single-character field; longer content is a structural
/// error, never a truncation.
pub fn get_char_field(n: &Node, name: &str) -> (r: Result<char, VueError>)
    ensures
        match kid_char(node_view(*n), name@) {
            Some(v) => r matches Ok(x) && x == v,
            None => r matches Err(VueError::Xml(m)) && names_field(m@, name@),
        },
{
    match find_kid_exec(n, name) {
        Some(k) => {
            if k.text.as_str().unicode_len() == 1 {
                Ok(k.text.as_str().get_char(0))
            } else {
                Err(field_error("field must hold exactly one character: ", name))
            }
        },
        None => Err(field_error("missing required field: ", name)),
    }
}

/// Reads a required fractional numeric field.
pub fn get_decimal(n: &Node, name: &str) -> (r: Result<Decimal, VueError>)
    ensures
        match kid_decimal(node_view(*n), name@) {
            Some(v) => r matches Ok(x) && x@ == v,
            None => r matches Err(VueError::Xml(m)) && names_field(m@, name@),
        },
{
    match find_kid_exec(n, name) {
        Some(k) => match parse_decimal(k.text.as_str()) {
            Some(v) => Ok(v),
            None => Err(field_error("invalid numeric field: ", name)),
        },
        None => Err(field_error("missing required field: ", name)),
    }
}

/// A leaf element: a name and character data, no children.
pub open spec fn text_node(name: Seq<char>, text: Seq<char>) -> XmlNode {
    XmlNode { name, kids: Seq::<XmlNode>::empty(), text }
}

/// Builds a leaf element.
pub fn text_node_exec(name: &str, text: String) -> (r: Node)
    ensures
        node_view(r) == text_node(name@, text@),
{
    let kids: Vec<Node> = Vec::new();
    proof {
        assert(nodes_view(kids@) =~= Seq::<XmlNode>::empty());
    }
    Node { name: name.to_owned(), kids, text }
}

/// A leaf element is well formed whenever its name and text are.
pub proof fn lemma_text_node_wf(name: Seq<char>, text: Seq<char>)
    requires
        wf_name(name),
        wf_text(text),
    ensures
        wf_node(text_node(name, text)),
{
}

/// Relies on String::push: appends exactly the given character.
#[verifier::external_body]
pub fn push_char(s: &mut String, c: char)
    ensures
        final(s)@ == old(s)@.push(c),
{
    s.push(c);
}

/// Digit runs are markup-free character data.
pub proof fn lemma_digits_text(s: Seq<char>)
    requires
        crate::numeric::all_digits(s),
    ensures
        wf_text(s),
{
    assert forall|i: int| 0 <= i < s.len() implies is_text_char(#[trigger] s[i]) by {
        assert(crate::numeric::is_digit(s[i]));
        assert(s[i] as u32 <= 57);
        assert('<' as u32 == 60);
    }
}

/// A rendered decimal is markup-free character data.
pub proof fn lemma_decimal_text(d: DecimalV)
    requires
        crate::numeric::wf_decimal(d),
    ensures
        wf_text(crate::numeric::ser_decimal(d)),
{
    crate::numeric::lemma_dec_str_val(d.whole as nat);
    let w = crate::numeric::dec_str(d.whole as nat);
    lemma_digits_text(w);
    let r = crate::numeric::ser_decimal(d);
    if d.frac.len() == 0 {
        assert(r == w);
    } else {
        lemma_digits_text(d.frac);
        assert(r == w + seq!['.'] + d.frac);
        assert forall|i: int| 0 <= i < r.len() implies is_text_char(#[trigger] r[i]) by {
            if i < w.len() {
                assert(r[i] == w[i]);
            } else if i == w.len() {
                assert(r[i] == '.');
            } else {
                assert(r[i] == d.frac[i - w.len() - 1]);
            }
        }
    }
}

/// The transport hands the decoder literal XML: the service double-encodes
/// angle brackets, so `&lt;` and `&gt;` become `<` and `>`, scanning left
/// to right; every other character passes through unchanged.
pub open spec fn unescape_spec(s: Seq<char>) -> Seq<char>
    decreases s.len(),
{
    if s.len() == 0 {
        Seq::<char>::empty()
    } else if s.len() >= 4 && s.subrange(0, 4) == "&lt;"@ {
        seq!['<'] + unescape_spec(s.skip(4))
    } else if s.len() >= 4 && s.subrange(0, 4) == "&gt;"@ {
        seq!['>'] + unescape_spec(s.skip(4))
    } else {
        seq![s[0]] + unescape_spec(s.skip(1))
    }
}

/// Undoes the service's angle-bracket escaping, exactly as `unescape_spec`
/// states.
pub fn unescape_entities(s: &str) -> (r: String)
    ensures
        r@ == unescape_spec(s@),
{
    proof {
        reveal_strlit("&lt;");
        reveal_strlit("&gt;");
    }
    let len = s.unicode_len();
    let mut out = String::new();
    proof {
        assert(s@.skip(0) =~= s@);
        assert(Seq::<char>::empty() + unescape_spec(s@) =~= unescape_spec(s@));
    }
    let mut i: usize = 0;
    while i < len
        invariant
            0 <= i <= len,
            len == s@.len(),
            unescape_spec(s@) == out@ + unescape_spec(s@.skip(i as int)),
        decreases len - i,
    {
        proof {
            reveal_strlit("&lt;");
            reveal_strlit("&gt;");
        }
        let ghost suf = s@.skip(i as int);
        let c0 = s.get_char(i);
        let four = len - i >= 4;
        let is_lt = four && c0 == '&' && s.get_char(i + 1) == 'l' && s.get_char(i + 2) == 't'
            && s.get_char(i + 3) == ';';
        let is_gt = four && c0 == '&' && s.get_char(i + 1) == 'g' && s.get_char(i + 2) == 't'
            && s.get_char(i + 3) == ';';
        if is_lt {
            let ghost preout = out@;
            push_char(&mut out, '<');
            proof {
                assert(suf.subrange(0, 4) =~= "&lt;"@);
                assert(suf.skip(4) =~= s@.skip(i as int + 4));
                assert(unescape_spec(suf) == seq!['<'] + unescape_spec(suf.skip(4)));
                assert(preout + unescape_spec(suf) =~= out@ + unescape_spec(
                    s@.skip(i as int + 4),
                ));
            }
            i = i + 4;
        } else if is_gt {
            let ghost preout = out@;
            push_char(&mut out, '>');
            proof {
                assert(suf.subrange(0, 4) =~= "&gt;"@);
                assert(suf.skip(4) =~= s@.skip(i as int + 4));
                assert(suf.subrange(0, 4) != "&lt;"@) by {
                    assert(suf.subrange(0, 4)[1] == 'g');
                    assert("&lt;"@[1] == 'l');
                }
                assert(unescape_spec(suf) == seq!['>'] + unescape_spec(suf.skip(4)));
                assert(preout + unescape_spec(suf) =~= out@ + unescape_spec(
                    s@.skip(i as int + 4),
                ));
            }
            i = i + 4;
        } else {
            let ghost preout = out@;
            push_char(&mut out, c0);
            proof {
                if suf.len() >= 4 && suf.subrange(0, 4) == "&lt;"@ {
                    assert(suf[0] == '&' && suf[1] == 'l' && suf[2] == 't' && suf[3] == ';') by {
                        assert(suf.subrange(0, 4)[0] == suf[0]);
                        assert(suf.subrange(0, 4)[1] == suf[1]);
                        assert(suf.subrange(0, 4)[2] == suf[2]);
                        assert(suf.subrange(0, 4)[3] == suf[3]);
                    }
                    assert(false);
                }
                if suf.len() >= 4 && suf.subrange(0, 4) == "&gt;"@ {
                    assert(suf[0] == '&' && suf[1] == 'g' && suf[2] == 't' && suf[3] == ';') by {
                        assert(suf.subrange(0, 4)[0] == suf[0]);
                        assert(suf.subrange(0, 4)[1] == suf[1]);
                        assert(suf.subrange(0, 4)[2] == suf[2]);
                        assert(suf.subrange(0, 4)[3] == suf[3]);
                    }
                    assert(false);
                }
                assert(suf.skip(1) =~= s@.skip(i as int + 1));
                assert(suf[0] == c0);
                assert(unescape_spec(suf) == seq![suf[0]] + unescape_spec(suf.skip(1)));
                assert(preout + unescape_spec(suf) =~= out@ + unescape_spec(
                    s@.skip(i as int + 1),
                ));
            }
            i = i + 1;
        }
    }
    proof {
        assert(s@.skip(len as int) =~= Seq::<char>::empty());
        assert(unescape_spec(Seq::<char>::empty()) =~= Seq::<char>::empty());
        assert(out@ + Seq::<char>::empty() =~= out@);
    }
    out
}

/// A concatenation's prefix reads back as its first part.
pub proof fn lemma_concat_prefix(s: Seq<char>, a: Seq<char>, tail: Seq<char>)
    requires
        s == a + tail,
    ensures
        s.subrange(0, a.len() as int) == a,
{
    assert(s.subrange(0, a.len() as int) =~= a);
}

/// Cancelling an equal head leaves equal tails.
pub proof fn lemma_concat_cancel(a: Seq<char>, r1: Seq<char>, r2: Seq<char>)
    requires
        a + r1 == a + r2,
    ensures
        r1 == r2,
{
    assert((a + r1).len() == a.len() + r1.len());
    assert((a + r2).len() == a.len() + r2.len());
    assert(r1.len() == r2.len());
    assert(r1 =~= r2) by {
        assert forall|t: int| 0 <= t < r1.len() implies r1[t] == r2[t] by {
            assert((a + r1)[a.len() + t] == r1[t]);
            assert((a + r2)[a.len() + t] == r2[t]);
        }
    }
}

} // verus!
