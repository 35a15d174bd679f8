//! A reader for a small subset of HTML: balanced tags, quoted attributes
//! and text.

use vstd::prelude::*;
use crate::dom::{elem, text, AttrMap, Node};
use crate::table::Table;

verus! {

/// What `char::is_whitespace` says of a character.
pub uninterp spec fn is_space(c: char) -> bool;

/// Calls `char::is_whitespace`, which tells whether the character has the
/// Unicode property White_Space: a function of the character alone.
#[verifier::external_body]
fn whitespace(c: char) -> (r: bool)
    ensures
        r == is_space(c),
{
    c.is_whitespace()
}

/// The sets of characters that the reader consumes runs of.
#[derive(Clone, Copy, Debug, PartialEq, Eq)]
pub enum CharClass {
    /// White space.
    Space,
    /// The characters of tag and attribute names.
    Name,
    /// Every character but the given one.
    Not(char),
}

/// Whether `c` may stand in a tag or attribute name: `a` to `y`, `A` to
/// `Y`, `0` to `8`.
pub open spec fn is_name_char(c: char) -> bool {
    ('a' <= c && c < 'z') || ('A' <= c && c < 'Z') || ('0' <= c && c < '9')
}

/// Whether `c` belongs to the class.
pub open spec fn in_class(class: CharClass, c: char) -> bool {
    match class {
        CharClass::Space => is_space(c),
        CharClass::Name => is_name_char(c),
        CharClass::Not(x) => c != x,
    }
}

/// Where the run of characters of `class` that starts at `from` ends.
pub open spec fn run_end(input: Seq<char>, class: CharClass, from: int) -> int
    decreases input.len() - from,
{
    if 0 <= from < input.len() && in_class(class, input[from]) {
        run_end(input, class, from + 1)
    } else {
        from
    }
}

/// The attribute that stands at `at`: its name, its value and where it
/// ends. An attribute is a name, `=`, a quote, single or double, the value
/// up to the next quote of that kind, and that quote.
pub open spec fn attr_at(input: Seq<char>, at: int) -> Option<(Seq<char>, Seq<char>, int)> {
    let eq = run_end(input, CharClass::Name, at);
    if 0 <= at && eq + 1 < input.len() && input[eq] == '=' && (input[eq + 1] == '"' || input[eq
        + 1] == '\'') {
        let end = run_end(input, CharClass::Not(input[eq + 1]), eq + 2);
        if end < input.len() {
            Some((input.subrange(at, eq), input.subrange(eq + 2, end), end + 1))
        } else {
            None
        }
    } else {
        None
    }
}

/// The attributes that stand from `pos` up to the `>` that ends the tag,
/// added to `acc` in order, and the position of that `>`. `None` where
/// something else than an attribute stands before the `>`, or no `>`.
pub open spec fn attrs_from(input: Seq<char>, pos: int, acc: Map<Seq<char>, Seq<char>>) -> Option<
    (Map<Seq<char>, Seq<char>>, int),
>
    decreases input.len() - pos,
{
    let p = run_end(input, CharClass::Space, pos);
    if pos < 0 || p >= input.len() {
        None
    } else if input[p] == '>' {
        Some((acc, p))
    } else {
        match attr_at(input, p) {
            Some((name, value, next)) => if next > pos {
                attrs_from(input, next, acc.insert(name, value))
            } else {
                None
            },
            None => None,
        }
    }
}

/// The texts of a table of strings.
pub open spec fn texts(m: Map<Seq<char>, String>) -> Map<Seq<char>, Seq<char>> {
    Map::new(|k: Seq<char>| m.contains_key(k), |k: Seq<char>| m[k]@)
}

/// Where the text of `node` ends that starts at `from`; `None` where the
/// text at `from` is not that of `node`.
///
/// Text runs up to the next `<` and is not empty. An element is `<`, its
/// name, its attributes, `>`, its children, and after white space `</`,
/// its name again and `>`.
pub open spec fn node_end(input: Seq<char>, from: int, node: &Node) -> Option<int>
    decreases node, 0int,
{
    if !(0 <= from < input.len()) {
        None
    } else {
        match &node.node_type {
            crate::dom::NodeType::Text(t) => {
                let to = run_end(input, CharClass::Not('<'), from);
                if input[from] != '<' && t@ == input.subrange(from, to) && node.children@.len() == 0 {
                    Some(to)
                } else {
                    None
                }
            },
            crate::dom::NodeType::Element(e) => {
                let name_end = run_end(input, CharClass::Name, from + 1);
                match attrs_from(input, name_end, Map::empty()) {
                    Some((attrs, gt)) => if input[from] == '<' && e.tag_name@ == input.subrange(
                        from + 1,
                        name_end,
                    ) && texts(e.attributes@) == attrs {
                        match row_end(input, gt + 1, node.children@) {
                            Some(p) => closing_end(
                                input,
                                run_end(input, CharClass::Space, p),
                                e.tag_name@,
                            ),
                            None => None,
                        }
                    } else {
                        None
                    },
                    None => None,
                }
            },
        }
    }
}

/// Where the closing tag of `name` ends that starts at `at`.
pub open spec fn closing_end(input: Seq<char>, at: int, name: Seq<char>) -> Option<int> {
    let name_end = run_end(input, CharClass::Name, at + 2);
    if 0 <= at && at + 1 < input.len() && input[at] == '<' && input[at + 1] == '/' && name_end
        < input.len() && input.subrange(at + 2, name_end) == name && input[name_end] == '>' {
        Some(name_end + 1)
    } else {
        None
    }
}

/// Whether a row of nodes stops at `at`: at the end of the text or before
/// a closing tag.
pub open spec fn row_stops(input: Seq<char>, at: int) -> bool {
    at >= input.len() || (at + 1 < input.len() && input[at] == '<' && input[at + 1] == '/')
}

/// Where the text of the nodes `kids` ends that starts at `from`, each
/// node after white space; `None` where the text is not theirs.
pub open spec fn row_end(input: Seq<char>, from: int, kids: Seq<Node>) -> Option<int>
    decreases kids, 1int,
{
    if kids.len() == 0 {
        Some(from)
    } else {
        match row_end(input, from, kids.drop_last()) {
            Some(p) => {
                let s = run_end(input, CharClass::Space, p);
                if row_stops(input, s) {
                    None
                } else {
                    node_end(input, s, &kids.last())
                }
            },
            None => None,
        }
    }
}

/// Where the node ends that starts at `from`, as far as the text alone
/// tells; `None` where no well-formed node starts there.
///
/// Anything but `<` starts text, which runs up to the next `<`. A `<`
/// starts an element: its name, its attributes, `>`, a row of nodes, and
/// the closing tag with the same name.
pub open spec fn node_stop(input: Seq<char>, from: int) -> Option<int>
    decreases input.len() - from, 0int,
{
    if !(0 <= from < input.len()) {
        None
    } else if input[from] != '<' {
        Some(run_end(input, CharClass::Not('<'), from))
    } else {
        let name_end = run_end(input, CharClass::Name, from + 1);
        match attrs_from(input, name_end, Map::empty()) {
            Some((_, gt)) => if from < gt < input.len() {
                match row_stop(input, gt + 1) {
                    Some(p) => closing_end(input, p, input.subrange(from + 1, name_end)),
                    None => None,
                }
            } else {
                None
            },
            None => None,
        }
    }
}

/// Where the row of nodes stops that starts at `from`, as far as the text
/// alone tells: after the white space behind its last node, at the end of
/// the text or before a closing tag. `None` where a node of the row is
/// malformed.
pub open spec fn row_stop(input: Seq<char>, from: int) -> Option<int>
    decreases input.len() - from, 1int,
{
    let s = run_end(input, CharClass::Space, from);
    if from < 0 || s < from {
        None
    } else if row_stops(input, s) {
        Some(s)
    } else {
        match node_stop(input, s) {
            Some(to) => if from < to <= input.len() {
                row_stop(input, to)
            } else {
                None
            },
            None => None,
        }
    }
}

/// Whether `root` is the document that `input` holds: the nodes at its
/// start, up to the end or a stray closing tag; the one node itself, or
/// an `html` element without attributes around any other number of them.
pub open spec fn reads_document(input: Seq<char>, root: &Node) -> bool {
    ||| (row_end(input, 0, seq![*root]) matches Some(p) && row_stops(
        input,
        run_end(input, CharClass::Space, p),
    ))
    ||| (root.children@.len() != 1 && (root.node_type matches crate::dom::NodeType::Element(e)
        && e.tag_name@ == "html"@ && e.attributes@ == Map::<Seq<char>, String>::empty()) && (
    row_end(input, 0, root.children@) matches Some(p) && row_stops(
        input,
        run_end(input, CharClass::Space, p),
    )))
}

/// Tells whether `c` belongs to the class.
pub fn class_has(class: CharClass, c: char) -> (r: bool)
    ensures
        r == in_class(class, c),
{
    match class {
        CharClass::Space => whitespace(c),
        CharClass::Name => ('a' <= c && c < 'z') || ('A' <= c && c < 'Z') || ('0' <= c && c < '9'),
        CharClass::Not(x) => c != x,
    }
}

/// A position in a text that is being read. Positions count characters.
pub struct Parser {
    pub pos: usize,
    pub input: String,
    pub len: usize,
}

impl Parser {
    /// The position is inside the text or at its end, and `len` is the
    /// number of its characters.
    pub open spec fn wf(&self) -> bool {
        self.len == self.input@.len() && self.pos <= self.len
    }

    /// A reader at the start of `input`.
    pub fn new(input: String) -> (p: Parser)
        ensures
            p.wf(),
            p.pos == 0,
            p.input@ == input@,
    {
        let len = input.as_str().unicode_len();
        Parser { pos: 0, input, len }
    }

    /// The character at the position.
    pub fn next_char(&self) -> (c: char)
        requires
            self.wf(),
            self.pos < self.len,
        ensures
            c == self.input@[self.pos as int],
    {
        self.input.as_str().get_char(self.pos)
    }

    /// Tells whether the text goes on with `s` at the position.
    pub fn starts_with(&self, s: &str) -> (r: bool)
        requires
            self.wf(),
        ensures
            r == (self.pos + s@.len() <= self.len && self.input@.subrange(
                self.pos as int,
                self.pos + s@.len(),
            ) == s@),
    {
        let n: usize = s.unicode_len();
        if n > self.len - self.pos {
            return false;
        }
        let mut k: usize = 0;
        while k < n
            invariant
                self.wf(),
                k <= n,
                n == s@.len(),
                self.pos + n <= self.len,
                forall|j: int| 0 <= j < k ==> self.input@[self.pos + j] == s@[j],
            decreases n - k,
        {
            if self.input.as_str().get_char(self.pos + k) != s.get_char(k) {
                proof {
                    assert(self.input@.subrange(self.pos as int, self.pos + n)[k as int]
                        == self.input@[self.pos + k]);
                }
                return false;
            }
            k = k + 1;
        }
        proof {
            assert(self.input@.subrange(self.pos as int, self.pos + n) =~= s@);
        }
        true
    }

    /// Tells whether the whole text is consumed.
    pub fn eof(&self) -> (r: bool)
        ensures
            r == (self.pos >= self.len),
    {
        self.pos >= self.len
    }

    /// Steps over the character at the position and returns it; `None` at
    /// the end of the text.
    pub fn consume_char(&mut self) -> (r: Option<char>)
        requires
            old(self).wf(),
        ensures
            final(self).wf(),
            final(self).input == old(self).input,
            match r {
                Some(c) => old(self).pos < old(self).len && c == old(self).input@[old(self).pos as int] && final(self).pos == old(self).pos + 1,
                None => old(self).pos == old(self).len && final(self).pos == old(self).pos,
            },
    {
        if self.pos < self.len {
            let c = self.input.as_str().get_char(self.pos);
            self.pos = self.pos + 1;
            Some(c)
        } else {
            None
        }
    }

    /// Steps over the character at the position if it is `c`, and tells
    /// whether it did.
    pub fn expect(&mut self, c: char) -> (r: bool)
        requires
            old(self).wf(),
        ensures
            final(self).wf(),
            final(self).input == old(self).input,
            r == (old(self).pos < old(self).len && old(self).input@[old(self).pos as int] == c),
            final(self).pos == if r { old(self).pos + 1 } else { old(self).pos as int },
    {
        if self.pos < self.len && self.input.as_str().get_char(self.pos) == c {
            self.pos = self.pos + 1;
            true
        } else {
            false
        }
    }

    /// Consumes the longest run of characters of `class` at the position
    /// and returns it.
    pub fn consume_while(&mut self, class: CharClass) -> (r: String)
        requires
            old(self).wf(),
        ensures
            final(self).wf(),
            final(self).input == old(self).input,
            final(self).pos == run_end(old(self).input@, class, old(self).pos as int),
            old(self).pos <= final(self).pos,
            r@ == old(self).input@.subrange(old(self).pos as int, final(self).pos as int),
    {
        let start = self.pos;
        while self.pos < self.len && class_has(class, self.input.as_str().get_char(self.pos))
            invariant
                self.wf(),
                self.input == old(self).input,
                start == old(self).pos,
                start <= self.pos,
                run_end(self.input@, class, start as int) == run_end(
                    self.input@,
                    class,
                    self.pos as int,
                ),
            decreases self.len - self.pos,
        {
            self.pos = self.pos + 1;
        }
        let s = self.input.as_str().substring_char(start, self.pos);
        String::from_str(s)
    }

    /// Consumes white space at the position.
    pub fn consume_whitespace(&mut self)
        requires
            old(self).wf(),
        ensures
            final(self).wf(),
            final(self).input == old(self).input,
            final(self).pos == run_end(old(self).input@, CharClass::Space, old(self).pos as int),
            old(self).pos <= final(self).pos,
    {
        let _ = self.consume_while(CharClass::Space);
    }

    /// Consumes a tag or attribute name, which may be empty.
    pub fn parse_tag_name(&mut self) -> (r: String)
        requires
            old(self).wf(),
        ensures
            final(self).wf(),
            final(self).input == old(self).input,
            final(self).pos == run_end(old(self).input@, CharClass::Name, old(self).pos as int),
            old(self).pos <= final(self).pos,
            r@ == old(self).input@.subrange(old(self).pos as int, final(self).pos as int),
    {
        self.consume_while(CharClass::Name)
    }

    /// Consumes a quoted value: a quote, single or double, everything up to
    /// the next quote of that kind, and that quote. `None` where the
    /// position holds no quote or the value is not closed.
    pub fn parse_attr_value(&mut self) -> (r: Option<String>)
        requires
            old(self).wf(),
        ensures
            final(self).wf(),
            final(self).input == old(self).input,
            old(self).pos <= final(self).pos,
            ({
                let input = old(self).input@;
                let at = old(self).pos as int;
                let quoted = at < input.len() && (input[at] == '"' || input[at] == '\'');
                let end = run_end(input, CharClass::Not(input[at]), at + 1);
                match r {
                    Some(v) => quoted && end < input.len() && v@ == input.subrange(at + 1, end)
                        && final(self).pos == end + 1,
                    None => !quoted || end >= input.len(),
                }
            }),
    {
        let open_quote = match self.consume_char() {
            Some(c) => c,
            None => {
                return None;
            },
        };
        if !(open_quote == '"' || open_quote == '\'') {
            return None;
        }
        let value = self.consume_while(CharClass::Not(open_quote));
        if !self.expect(open_quote) {
            proof {
                run_stops(self.input@, CharClass::Not(open_quote), old(self).pos + 1);
            }
            return None;
        }
        Some(value)
    }

    /// Consumes one attribute: a name, `=`, and a quoted value.
    pub fn parse_attr(&mut self) -> (r: Option<(String, String)>)
        requires
            old(self).wf(),
        ensures
            final(self).wf(),
            final(self).input == old(self).input,
            old(self).pos <= final(self).pos,
            match r {
                Some((name, value)) => attr_at(old(self).input@, old(self).pos as int) == Some(
                    (name@, value@, final(self).pos as int),
                ) && old(self).pos < final(self).pos,
                None => attr_at(old(self).input@, old(self).pos as int) is None,
            },
    {
        proof {
            run_stops(self.input@, CharClass::Name, self.pos as int);
        }
        let name = self.parse_tag_name();
        if !self.expect('=') {
            return None;
        }
        match self.parse_attr_value() {
            Some(value) => Some((name, value)),
            None => None,
        }
    }

    /// Consumes attributes, separated by white space, up to the `>` that
    /// ends the tag; the `>` stays. A later attribute replaces an earlier
    /// one of the same name.
    pub fn parse_attributes(&mut self) -> (r: Option<AttrMap>)
        requires
            old(self).wf(),
        ensures
            final(self).wf(),
            final(self).input == old(self).input,
            old(self).pos <= final(self).pos,
            match r {
                Some(m) => attrs_from(old(self).input@, old(self).pos as int, Map::empty()) == Some(
                    (texts(m@), final(self).pos as int),
                ) && final(self).pos < final(self).len && final(self).input@[final(self).pos as int]
                    == '>',
                None => attrs_from(old(self).input@, old(self).pos as int, Map::empty()) is None,
            },
    {
        let mut attributes: AttrMap = Table::new();
        proof {
            assert(texts(attributes@) =~= Map::<Seq<char>, Seq<char>>::empty());
        }
        loop
            invariant
                self.wf(),
                self.input == old(self).input,
                old(self).pos <= self.pos,
                attrs_from(old(self).input@, old(self).pos as int, Map::empty()) == attrs_from(
                    self.input@,
                    self.pos as int,
                    texts(attributes@),
                ),
            ensures
                self.wf(),
                self.input == old(self).input,
                old(self).pos <= self.pos,
                self.pos < self.len && self.input@[self.pos as int] == '>',
                attrs_from(old(self).input@, old(self).pos as int, Map::empty()) == Some(
                    (texts(attributes@), self.pos as int),
                ),
            decreases self.len - self.pos,
        {
            let ghost at = self.pos as int;
            let ghost held = attributes@;
            proof {
                run_stops(self.input@, CharClass::Space, at);
            }
            self.consume_whitespace();
            if self.eof() {
                return None;
            }
            if self.next_char() == '>' {
                break ;
            }
            match self.parse_attr() {
                Some((name, value)) => {
                    attributes.insert(name, value);
                    proof {
                        assert(texts(attributes@) =~= texts(held).insert(name@, value@));
                    }
                },
                None => {
                    return None;
                },
            }
        }
        Some(attributes)
    }

    /// Consumes text up to the next `<`.
    pub fn parse_text(&mut self) -> (r: Node)
        requires
            old(self).wf(),
        ensures
            final(self).wf(),
            final(self).input == old(self).input,
            final(self).pos == run_end(old(self).input@, CharClass::Not('<'), old(self).pos as int),
            r.children@.len() == 0,
            r.node_type matches crate::dom::NodeType::Text(t) && t@ == old(self).input@.subrange(
                old(self).pos as int,
                final(self).pos as int,
            ),
    {
        text(self.consume_while(CharClass::Not('<')))
    }
}

/// A run ends at the end of the text or before a character that is not of
/// the class.
pub proof fn run_stops(input: Seq<char>, class: CharClass, from: int)
    requires
        0 <= from <= input.len(),
    ensures
        from <= run_end(input, class, from) <= input.len(),
        run_end(input, class, from) < input.len() ==> !in_class(
            class,
            input[run_end(input, class, from)],
        ),
        forall|k: int| from <= k < run_end(input, class, from) ==> in_class(class, #[trigger] input[k]),
    decreases input.len() - from,
{
    if from < input.len() && in_class(class, input[from]) {
        run_stops(input, class, from + 1);
    }
}

impl Parser {
    /// Consumes sibling nodes up to the end of the text or a closing tag.
    /// `None` where one of them is malformed.
    pub fn parse_nodes(&mut self) -> (r: Option<Vec<Node>>)
        requires
            old(self).wf(),
        ensures
            final(self).wf(),
            final(self).input == old(self).input,
            old(self).pos <= final(self).pos,
            match r {
                Some(nodes) => {
                    &&& row_stop(old(self).input@, old(self).pos as int) == Some(
                        final(self).pos as int,
                    )
                    &&& row_stops(final(self).input@, final(self).pos as int)
                    &&& row_end(old(self).input@, old(self).pos as int, nodes@) matches Some(p)
                        && final(self).pos == run_end(old(self).input@, CharClass::Space, p)
                },
                None => row_stop(old(self).input@, old(self).pos as int) is None,
            },
        decreases old(self).len - old(self).pos, 2int,
    {
        let mut nodes: Vec<Node> = Vec::new();
        let ghost mut reached: int = self.pos as int;
        loop
            invariant_except_break
                reached == self.pos,
            invariant
                self.wf(),
                self.input == old(self).input,
                old(self).pos <= self.pos,
                self.len == old(self).len,
                row_end(self.input@, old(self).pos as int, nodes@) == Some(reached),
                row_stop(self.input@, old(self).pos as int) == row_stop(self.input@, reached),
            ensures
                self.wf(),
                self.input == old(self).input,
                old(self).pos <= self.pos,
                row_stop(self.input@, old(self).pos as int) == Some(self.pos as int),
                row_end(self.input@, old(self).pos as int, nodes@) == Some(reached),
                self.pos == run_end(self.input@, CharClass::Space, reached),
                row_stops(self.input@, self.pos as int),
            decreases self.len - self.pos,
        {
            proof {
                run_stops(self.input@, CharClass::Space, self.pos as int);
            }
            self.consume_whitespace();
            proof {
                reveal_strlit("</");
                let at = self.pos as int;
                if at + 2 <= self.len {
                    let here = self.input@.subrange(at, at + 2);
                    assert(here[0] == self.input@[at] && here[1] == self.input@[at + 1]);
                    if self.input@[at] == '<' && self.input@[at + 1] == '/' {
                        assert(here =~= "</"@);
                    }
                }
            }
            if self.eof() || self.starts_with("</") {
                break ;
            }
            let ghost held = nodes@;
            match self.parse_node() {
                Some(node) => {
                    nodes.push(node);
                    proof {
                        assert(nodes@.drop_last() == held);
                        reached = self.pos as int;
                    }
                },
                None => {
                    return None;
                },
            }
        }
        Some(nodes)
    }

    /// Consumes one node: an element where the position holds `<`, text
    /// otherwise.
    pub fn parse_node(&mut self) -> (r: Option<Node>)
        requires
            old(self).wf(),
            old(self).pos < old(self).len,
        ensures
            final(self).wf(),
            final(self).input == old(self).input,
            old(self).pos <= final(self).pos,
            r is Some ==> old(self).pos < final(self).pos,
            match r {
                Some(node) => node_end(old(self).input@, old(self).pos as int, &node) == Some(
                    final(self).pos as int,
                ) && node_stop(old(self).input@, old(self).pos as int) == Some(
                    final(self).pos as int,
                ),
                None => node_stop(old(self).input@, old(self).pos as int) is None,
            },
        decreases old(self).len - old(self).pos, 1int,
    {
        if self.next_char() == '<' {
            self.parse_element()
        } else {
            proof {
                run_stops(self.input@, CharClass::Not('<'), self.pos + 1);
            }
            Some(self.parse_text())
        }
    }

    /// Consumes an element: an opening tag with its attributes, the nodes
    /// inside, and the closing tag of the same name. `None` where any of
    /// these is missing or the names differ.
    pub fn parse_element(&mut self) -> (r: Option<Node>)
        requires
            old(self).wf(),
        ensures
            final(self).wf(),
            final(self).input == old(self).input,
            old(self).pos <= final(self).pos,
            r is Some ==> old(self).pos < final(self).pos,
            match r {
                Some(node) => {
                    &&& node.node_type is Element
                    &&& node_end(old(self).input@, old(self).pos as int, &node) == Some(
                        final(self).pos as int,
                    )
                    &&& node_stop(old(self).input@, old(self).pos as int) == Some(
                        final(self).pos as int,
                    )
                },
                None => !(old(self).pos < old(self).len && old(self).input@[old(self).pos as int]
                    == '<') || node_stop(old(self).input@, old(self).pos as int) is None,
            },
        decreases old(self).len - old(self).pos, 0int,
    {
        // Opening tag.
        if !self.expect('<') {
            return None;
        }
        proof {
            run_stops(self.input@, CharClass::Name, self.pos as int);
        }
        let tag_name = self.parse_tag_name();
        let attrs = match self.parse_attributes() {
            Some(attrs) => attrs,
            None => {
                return None;
            },
        };
        if !self.expect('>') {
            return None;
        }
        // Contents.

        let children = match self.parse_nodes() {
            Some(children) => children,
            None => {
                return None;
            },
        };

        // Closing tag.
        let ghost close = self.pos as int;
        if !self.expect('<') {
            return None;
        }
        if !self.expect('/') {
            return None;
        }
        let closing = self.parse_tag_name();
        if !(closing == tag_name) {
            return None;
        }
        if !self.expect('>') {
            return None;
        }
        let node = elem(tag_name, attrs, children);
        proof {
            assert(closing_end(self.input@, close, tag_name@) == Some(self.pos as int));
        }
        Some(node)
    }
}

/// The root of a document: the one node where there is exactly one, else
/// an `html` element without attributes around all of them.
pub fn document_root(nodes: Vec<Node>) -> (root: Node)
    ensures
        nodes@.len() == 1 ==> root == nodes@[0],
        nodes@.len() != 1 ==> root.children == nodes && (root.node_type matches crate::dom::NodeType::Element(
            e,
        ) && e.tag_name@ == "html"@ && e.attributes@ == Map::<Seq<char>, String>::empty()),
{
    let mut nodes = nodes;
    if nodes.len() == 1 {
        nodes.remove(0)
    } else {
        elem(String::from_str("html"), Table::new(), nodes)
    }
}

/// Reads a document and returns its root. `None` where the text is
/// malformed: a tag that is not closed by its own name, an attribute
/// without `=` or quotes. Reading stops at a closing tag that closes
/// nothing; what follows it is passed over.
pub fn parse(source: String) -> (r: Option<Node>)
    ensures
        match r {
            Some(root) => row_stop(source@, 0) is Some && reads_document(source@, &root),
            None => row_stop(source@, 0) is None,
        },
{
    let mut parser = Parser::new(source);
    match parser.parse_nodes() {
        Some(nodes) => {
            let ghost row = nodes@;
            let root = document_root(nodes);
            proof {
                if row.len() == 1 {
                    assert(seq![root] =~= row);
                }
            }
            Some(root)
        },
        None => None,
    }
}

/// Attributes end at a `>` inside the text, at or behind where they start.
pub proof fn attrs_reach_the_tag_end(input: Seq<char>, pos: int, acc: Map<Seq<char>, Seq<char>>)
    requires
        0 <= pos <= input.len(),
        attrs_from(input, pos, acc) is Some,
    ensures
        pos <= attrs_from(input, pos, acc)->Some_0.1 < input.len(),
        input[attrs_from(input, pos, acc)->Some_0.1] == '>',
    decreases input.len() - pos,
{
    let p = run_end(input, CharClass::Space, pos);
    run_stops(input, CharClass::Space, pos);
    if input[p] != '>' {
        let a = attr_at(input, p)->Some_0;
        attrs_reach_the_tag_end(input, a.2, acc.insert(a.0, a.1));
    }
}

/// A node can be read from a text in one way only: where `node` is what
/// stands at `from`, it ends where the text alone says that a node ends,
/// and it is not empty.
pub proof fn node_reading_follows_the_text(input: Seq<char>, from: int, node: &Node)
    requires
        node_end(input, from, node) is Some,
    ensures
        node_stop(input, from) == node_end(input, from, node),
        from < node_end(input, from, node)->Some_0 <= input.len(),
    decreases node, 0int,
{
    match &node.node_type {
        crate::dom::NodeType::Text(_) => {
            run_stops(input, CharClass::Not('<'), from + 1);
        },
        crate::dom::NodeType::Element(e) => {
            let name_end = run_end(input, CharClass::Name, from + 1);
            run_stops(input, CharClass::Name, from + 1);
            attrs_reach_the_tag_end(input, name_end, Map::empty());
            let gt = attrs_from(input, name_end, Map::empty())->Some_0.1;
            row_reading_follows_the_text(input, gt + 1, node.children@);
            let p = row_end(input, gt + 1, node.children@)->Some_0;
            run_stops(input, CharClass::Space, p);
            let s = run_end(input, CharClass::Space, p);
            run_stops(input, CharClass::Name, s + 2);
            assert(row_stop(input, p) == Some(s));
        },
    }
}

/// A row of nodes can be read from a text in one way only: behind the
/// nodes `kids`, read from `from`, the row goes on as the text alone says.
pub proof fn row_reading_follows_the_text(input: Seq<char>, from: int, kids: Seq<Node>)
    requires
        0 <= from <= input.len(),
        row_end(input, from, kids) is Some,
    ensures
        row_stop(input, from) == row_stop(input, row_end(input, from, kids)->Some_0),
        from <= row_end(input, from, kids)->Some_0 <= input.len(),
    decreases kids, 1int,
{
    if kids.len() > 0 {
        row_reading_follows_the_text(input, from, kids.drop_last());
        let before = row_end(input, from, kids.drop_last())->Some_0;
        run_stops(input, CharClass::Space, before);
        let s = run_end(input, CharClass::Space, before);
        node_reading_follows_the_text(input, s, &kids.last());
    }
}

/// A text that holds a document is one that the reader accepts.
pub proof fn document_text_is_accepted(input: Seq<char>, root: &Node)
    requires
        reads_document(input, root),
    ensures
        row_stop(input, 0) is Some,
{
    if row_end(input, 0, seq![*root]) matches Some(p) && row_stops(
        input,
        run_end(input, CharClass::Space, p),
    ) {
        row_reading_follows_the_text(input, 0, seq![*root]);
        let p = row_end(input, 0, seq![*root])->Some_0;
        run_stops(input, CharClass::Space, p);
    } else {
        row_reading_follows_the_text(input, 0, root.children@);
        let p = row_end(input, 0, root.children@)->Some_0;
        run_stops(input, CharClass::Space, p);
    }
}

} // verus!
