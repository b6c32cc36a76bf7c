//! A read-only tree of XML elements, as the discovery logic reads it.
use vstd::prelude::*;

verus! {

/// One XML element: its local name (without prefix), its text, its `name`
/// attribute, and its child elements.
#[derive(Debug)]
pub struct XmlNode {
    pub name: String,
    pub text: String,
    pub name_attr: Option<String>,
    pub children: Vec<XmlNode>,
}

#[verifier::external_type_specification]
#[verifier::external_body]
pub struct ExElement(minidom::Element);

/// Relies on minidom's `Element::name`, `Element::text`, `Element::attr` and
/// `Element::children`: copies the element tree into plain values, child for
/// child.
#[verifier::external_body]
fn element_tree(e: &minidom::Element) -> (r: XmlNode) {
    XmlNode {
        name: e.name().to_string(),
        text: e.text(),
        name_attr: e.attr("name").map(|a| a.to_string()),
        children: e.children().map(element_tree).collect(),
    }
}

/// The tree that a text stands for as an XML document; `None` where it is
/// not well formed.
pub uninterp spec fn parsed_xml(text: Seq<char>) -> Option<XmlNode>;

/// Relies on minidom's `FromStr` for `Element` to read a whole XML document,
/// then on `element_tree` to hold it as plain values.
#[verifier::external_body]
fn read_xml(text: &str) -> (r: Option<XmlNode>)
    ensures
        r == parsed_xml(text@),
{
    text.parse::<minidom::Element>().ok().map(|e| element_tree(&e))
}

/// Reads an XML document; `None` where it is not well formed.
pub fn parse_document(text: &str) -> (r: Option<XmlNode>)
    ensures
        r == parsed_xml(text@),
{
    read_xml(text)
}

/// The first element named `name` in a pre-order walk of `n`, `n` included.
pub open spec fn first_named(n: XmlNode, name: Seq<char>) -> Option<XmlNode>
    decreases n, 0int,
{
    if n.name@ == name {
        Some(n)
    } else {
        proof {
            assert(decreases_to!(n => n.children));
        }
        first_named_from(n.children@, 0, name)
    }
}

/// The first element named `name` in pre-order walks of `s[i]`, `s[i + 1]`, ...
pub open spec fn first_named_from(s: Seq<XmlNode>, i: int, name: Seq<char>) -> Option<XmlNode>
    decreases s, s.len() - i,
{
    if 0 <= i < s.len() {
        match first_named(s[i], name) {
            Some(x) => Some(x),
            None => first_named_from(s, i + 1, name),
        }
    } else {
        None
    }
}

/// The elements named `name` below `s[i]`, `s[i + 1]`, ... in pre-order, not
/// looking inside an element once it is found.
pub open spec fn all_named_from(s: Seq<XmlNode>, i: int, name: Seq<char>) -> Seq<XmlNode>
    decreases s, s.len() - i,
{
    if 0 <= i < s.len() {
        let here = if s[i].name@ == name {
            seq![s[i]]
        } else {
            all_named_from(s[i].children@, 0, name)
        };
        here + all_named_from(s, i + 1, name)
    } else {
        Seq::empty()
    }
}

/// Whether two strings hold the same characters.
pub fn same_text(a: &str, b: &str) -> (r: bool)
    ensures
        r == (a@ == b@),
{
    a.to_owned() == b.to_owned()
}

/// The elements that a sequence of references points to.
pub open spec fn derefs(s: Seq<&XmlNode>) -> Seq<XmlNode> {
    s.map_values(|x: &XmlNode| *x)
}

/// The element itself if it has that name, else the first descendant with it.
pub fn find_elem<'a>(n: &'a XmlNode, name: &str) -> (r: Option<&'a XmlNode>)
    ensures
        match r {
            Some(x) => first_named(*n, name@) == Some(*x),
            None => first_named(*n, name@) is None,
        },
    decreases n, 0int,
{
    if same_text(n.name.as_str(), name) {
        return Some(n);
    }
    find_elem_from(&n.children, 0, name)
}

fn find_elem_from<'a>(s: &'a Vec<XmlNode>, i: usize, name: &str) -> (r: Option<&'a XmlNode>)
    requires
        i <= s.len(),
    ensures
        match r {
            Some(x) => first_named_from(s@, i as int, name@) == Some(*x),
            None => first_named_from(s@, i as int, name@) is None,
        },
    decreases s@, s.len() - i,
{
    if i >= s.len() {
        return None;
    }
    match find_elem(&s[i], name) {
        Some(x) => Some(x),
        None => find_elem_from(s, i + 1, name),
    }
}

/// The descendants named `name` (not counting `n` itself), in document order,
/// not looking inside one once it is found.
pub fn find_elems<'a>(n: &'a XmlNode, name: &str) -> (r: Vec<&'a XmlNode>)
    ensures
        derefs(r@) == all_named_from(n.children@, 0, name@),
{
    let mut out: Vec<&'a XmlNode> = Vec::new();
    assert(derefs(out@) =~= Seq::<XmlNode>::empty());
    collect_named(&n.children, 0, name, &mut out);
    assert(derefs(out@) =~= Seq::<XmlNode>::empty() + all_named_from(n.children@, 0, name@));
    out
}

fn collect_named<'a>(s: &'a Vec<XmlNode>, i: usize, name: &str, out: &mut Vec<&'a XmlNode>)
    requires
        i <= s.len(),
    ensures
        derefs(final(out)@) == derefs(old(out)@) + all_named_from(s@, i as int, name@),
    decreases s@, s.len() - i,
{
    if i >= s.len() {
        assert(derefs(old(out)@) + all_named_from(s@, i as int, name@) =~= derefs(old(out)@));
        return;
    }
    let ghost before = derefs(out@);
    if same_text(s[i].name.as_str(), name) {
        out.push(&s[i]);
        assert(derefs(out@) =~= before + seq![s@[i as int]]);
    } else {
        collect_named(&s[i].children, 0, name, out);
    }
    collect_named(s, i + 1, name, out);
    proof {
        let here = if s@[i as int].name@ == name@ {
            seq![s@[i as int]]
        } else {
            all_named_from(s@[i as int].children@, 0, name@)
        };
        assert(before + (here + all_named_from(s@, i + 1, name@)) =~= (before + here) + all_named_from(
            s@,
            i + 1,
            name@,
        ));
    }
}

} // verus!
