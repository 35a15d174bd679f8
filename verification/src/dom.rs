//! The document tree: element and text nodes with attributes.

use vstd::prelude::*;
use crate::table::Table;

verus! {

pub type AttrMap = Table<String>;

#[derive(Debug)]
pub struct ElementData {
    pub tag_name: String,
    pub attributes: AttrMap,
}

#[derive(Debug)]
pub enum NodeType {
    Text(String),
    Element(ElementData),
}

#[derive(Debug)]
pub struct Node {
    pub children: Vec<Node>,
    pub node_type: NodeType,
}

/// A text node.
pub fn text(data: String) -> (n: Node)
    ensures
        n.children@.len() == 0,
        n.node_type == NodeType::Text(data),
{
    Node { children: Vec::new(), node_type: NodeType::Text(data) }
}

/// An element node.
pub fn elem(name: String, attrs: AttrMap, children: Vec<Node>) -> (n: Node)
    ensures
        n.children == children,
        n.node_type == NodeType::Element(ElementData { tag_name: name, attributes: attrs }),
{
    Node {
        children,
        node_type: NodeType::Element(ElementData { tag_name: name, attributes: attrs }),
    }
}

/// Whether the word `class` starts at position `i` of `list` and fills a
/// whole space-separated field there.
pub open spec fn field_at(list: Seq<char>, class: Seq<char>, i: int) -> bool {
    &&& 0 <= i
    &&& i + class.len() <= list.len()
    &&& (i == 0 || list[i - 1] == ' ')
    &&& (i + class.len() == list.len() || list[i + class.len()] == ' ')
    &&& list.subrange(i, i + class.len()) == class
}

/// Whether `class` is one of the fields that single spaces cut `list` into.
pub open spec fn has_field(list: Seq<char>, class: Seq<char>) -> bool {
    !class.contains(' ') && exists|i: int| field_at(list, class, i)
}

/// Tells whether `class` fills a whole field of `list` at position `i`.
fn field_here(list: &str, class: &str, i: usize, n: usize, m: usize) -> (r: bool)
    requires
        n == list@.len(),
        m == class@.len(),
        i + m <= n,
    ensures
        r == field_at(list@, class@, i as int),
{
    if i > 0 && list.get_char(i - 1) != ' ' {
        return false;
    }
    if i + m < n && list.get_char(i + m) != ' ' {
        return false;
    }
    let mut k: usize = 0;
    while k < m
        invariant
            k <= m,
            n == list@.len(),
            m == class@.len(),
            i + m <= n,
            forall|j: int| 0 <= j < k ==> list@[i + j] == class@[j],
        decreases m - k,
    {
        if list.get_char(i + k) != class.get_char(k) {
            proof {
                assert(list@.subrange(i as int, i + m)[k as int] == list@[i + k]);
            }
            return false;
        }
        k = k + 1;
    }
    proof {
        assert(list@.subrange(i as int, i + m) =~= class@);
    }
    true
}

/// Tells whether `class` is one of the space-separated fields of `list`.
pub fn holds_field(list: &str, class: &str) -> (r: bool)
    ensures
        r == has_field(list@, class@),
{
    let n: usize = list.unicode_len();
    let m: usize = class.unicode_len();
    let mut k: usize = 0;
    while k < m
        invariant
            k <= m,
            m == class@.len(),
            forall|j: int| 0 <= j < k ==> class@[j] != ' ',
        decreases m - k,
    {
        if class.get_char(k) == ' ' {
            return false;
        }
        k = k + 1;
    }
    if m > n {
        return false;
    }
    let last: usize = n - m;
    let mut i: usize = 0;
    while i < last
        invariant
            i <= last,
            last == n - m,
            m <= n,
            n == list@.len(),
            m == class@.len(),
            !class@.contains(' '),
            forall|j: int| 0 <= j < i ==> !field_at(list@, class@, j),
        decreases last - i,
    {
        if field_here(list, class, i, n, m) {
            return true;
        }
        i = i + 1;
    }
    field_here(list, class, last, n, m)
}

impl ElementData {
    /// The text of the `id` attribute, where there is one.
    pub open spec fn id_text(&self) -> Option<Seq<char>> {
        if self.attributes@.contains_key("id"@) {
            Some(self.attributes@["id"@]@)
        } else {
            None
        }
    }

    /// Whether the element has a `class` attribute that lists `class`.
    pub open spec fn in_class(&self, class: Seq<char>) -> bool {
        self.attributes@.contains_key("class"@) && has_field(
            self.attributes@["class"@]@,
            class,
        )
    }

    /// Tells whether `class` is one of the element's classes.
    pub fn has_class(&self, class: &str) -> (r: bool)
        ensures
            r == self.in_class(class@),
    {
        match self.attributes.get("class") {
            None => false,
            Some(list) => holds_field(list.as_str(), class),
        }
    }

    /// The element's id.
    pub fn id(&self) -> (r: Option<&String>)
        ensures
            match r {
                Some(s) => self.id_text() == Some(s@),
                None => self.id_text().is_none(),
            },
    {
        self.attributes.get("id")
    }
}

} // verus!
