//! The cascade: which declarations of a stylesheet reach an element, and
//! the tree of styled nodes that results.

use vstd::prelude::*;
use crate::css::{below, ranks_below, Rule, Selector, SimpleSelector, Specificity, Stylesheet, Value};
use crate::dom::{ElementData, Node, NodeType};
use crate::table::Table;

verus! {

/// Property names and the values specified for them.
pub type PropertyMap = Table<Value>;

/// A document node with the property values that the stylesheet gives it.
pub struct StyledNode<'a> {
    pub node: &'a Node,
    pub specified_values: PropertyMap,
    pub children: Vec<StyledNode<'a>>,
}

#[derive(Clone, Copy, Debug, PartialEq, Eq, Structural)]
pub enum Display {
    Inline,
    Block,
    Hidden,
}

/// The value of `name`, else that of `fallback`, else `default`.
pub open spec fn looked_up(
    m: Map<Seq<char>, Value>,
    name: Seq<char>,
    fallback: Seq<char>,
    default: Value,
) -> Value {
    if m.contains_key(name) {
        m[name]
    } else if m.contains_key(fallback) {
        m[fallback]
    } else {
        default
    }
}

/// How a node with these property values takes part in layout.
pub open spec fn display_of(m: Map<Seq<char>, Value>) -> Display {
    if m.contains_key("display"@) && m["display"@].is_keyword("block"@) {
        Display::Block
    } else if m.contains_key("display"@) && m["display"@].is_keyword("none"@) {
        Display::Hidden
    } else {
        Display::Inline
    }
}

impl<'a> StyledNode<'a> {
    /// The specified value of a property, where there is one.
    pub fn value(&self, name: &str) -> (r: Option<Value>)
        ensures
            match r {
                Some(v) => self.specified_values@.contains_key(name@) && v
                    == self.specified_values@[name@],
                None => !self.specified_values@.contains_key(name@),
            },
    {
        match self.specified_values.get(name) {
            Some(v) => Some(v.duplicate()),
            None => None,
        }
    }

    /// The value of `name`, else that of `fallback_name`, else `default`.
    pub fn lookup(&self, name: &str, fallback_name: &str, default: &Value) -> (r: Value)
        ensures
            r == looked_up(self.specified_values@, name@, fallback_name@, *default),
    {
        match self.value(name) {
            Some(v) => v,
            None => match self.value(fallback_name) {
                Some(v) => v,
                None => default.duplicate(),
            },
        }
    }

    /// The node's `display`: block or none where the property is that
    /// keyword, inline otherwise.
    pub fn display(&self) -> (r: Display)
        ensures
            r == display_of(self.specified_values@),
    {
        match self.specified_values.get("display") {
            Some(Value::Keyword(s)) => {
                if crate::table::same_text(s.as_str(), "block") {
                    Display::Block
                } else if crate::table::same_text(s.as_str(), "none") {
                    Display::Hidden
                } else {
                    Display::Inline
                }
            },
            _ => Display::Inline,
        }
    }
}

/// Whether the element has the selector's tag, its id and all its classes,
/// as far as the selector names any.
pub open spec fn simple_selects(elem: &ElementData, sel: &SimpleSelector) -> bool {
    &&& (sel.tag_name matches Some(t) ==> elem.tag_name@ == t@)
    &&& (sel.id matches Some(i) ==> elem.id_text() == Some(i@))
    &&& forall|k: int| 0 <= k < sel.class@.len() ==> elem.in_class(#[trigger] sel.class@[k]@)
}

pub open spec fn selects(elem: &ElementData, sel: &Selector) -> bool {
    match sel {
        Selector::Simple(s) => simple_selects(elem, s),
    }
}

/// The higher of two specificities.
pub open spec fn higher(a: Specificity, b: Specificity) -> Specificity {
    if ranks_below(a, b) {
        b
    } else {
        a
    }
}

/// The highest specificity among the selectors from position `k` on that
/// match the element. `None` where none of them matches.
pub open spec fn rank_from(elem: &ElementData, sels: Seq<Selector>, k: int) -> Option<Specificity>
    decreases sels.len() - k,
{
    if k < 0 || k >= sels.len() {
        None
    } else if selects(elem, &sels[k]) {
        match rank_from(elem, sels, k + 1) {
            Some(r) => Some(higher(sels[k].rank(), r)),
            None => Some(sels[k].rank()),
        }
    } else {
        rank_from(elem, sels, k + 1)
    }
}

/// The specificity with which a rule applies to the element: that of its
/// most specific matching selector. `None` where no selector matches.
pub open spec fn rule_rank(elem: &ElementData, rule: &Rule) -> Option<Specificity> {
    rank_from(elem, rule.selectors@, 0)
}

/// A rule applies where one of its selectors matches, and then with the
/// specificity of a matching selector that no matching selector outranks.
pub proof fn rank_is_the_highest(elem: &ElementData, sels: Seq<Selector>, k: int)
    requires
        0 <= k <= sels.len(),
    ensures
        rank_from(elem, sels, k) is Some <==> exists|j: int|
            k <= j < sels.len() && selects(elem, &#[trigger] sels[j]),
        rank_from(elem, sels, k) matches Some(r) ==> {
            &&& exists|j: int|
                k <= j < sels.len() && selects(elem, &#[trigger] sels[j]) && sels[j].rank() == r
            &&& forall|j: int|
                k <= j < sels.len() && selects(elem, &#[trigger] sels[j]) ==> !ranks_below(
                    r,
                    sels[j].rank(),
                )
        },
    decreases sels.len() - k,
{
    if k < sels.len() {
        rank_is_the_highest(elem, sels, k + 1);
        if selects(elem, &sels[k]) {
            let r = rank_from(elem, sels, k)->Some_0;
            if rank_from(elem, sels, k + 1) is Some && ranks_below(
                sels[k].rank(),
                rank_from(elem, sels, k + 1)->Some_0,
            ) {
                let j = choose|j: int|
                    k + 1 <= j < sels.len() && selects(elem, &#[trigger] sels[j]) && sels[j].rank()
                        == r;
                assert(k <= j < sels.len() && selects(elem, &sels[j]) && sels[j].rank() == r);
            } else {
                assert(selects(elem, &sels[k]) && sels[k].rank() == r);
            }
        } else if rank_from(elem, sels, k) is Some {
            let r = rank_from(elem, sels, k)->Some_0;
            let j = choose|j: int|
                k + 1 <= j < sels.len() && selects(elem, &#[trigger] sels[j]) && sels[j].rank()
                    == r;
            assert(k <= j < sels.len() && selects(elem, &sels[j]) && sels[j].rank() == r);
        }
    }
}

fn matches_simple_selector(elem: &ElementData, selector: &SimpleSelector) -> (r: bool)
    ensures
        r == simple_selects(elem, selector),
{
    match &selector.tag_name {
        Some(name) => {
            if !(elem.tag_name == *name) {
                return false;
            }
        },
        None => {},
    }
    match &selector.id {
        Some(id) => {
            match elem.id() {
                Some(own) => {
                    if !(*own == *id) {
                        return false;
                    }
                },
                None => {
                    return false;
                },
            }
        },
        None => {},
    }
    let mut k: usize = 0;
    while k < selector.class.len()
        invariant
            k <= selector.class@.len(),
            forall|j: int| 0 <= j < k ==> elem.in_class(#[trigger] selector.class@[j]@),
        decreases selector.class@.len() - k,
    {
        if !elem.has_class(selector.class[k].as_str()) {
            return false;
        }
        k = k + 1;
    }
    true
}

fn matches(elem: &ElementData, selector: &Selector) -> (r: bool)
    ensures
        r == selects(elem, selector),
{
    match selector {
        Selector::Simple(simple_selector) => matches_simple_selector(elem, simple_selector),
    }
}

/// The specificity with which `rule` applies to `elem`, if it does.
fn match_rule(elem: &ElementData, rule: &Rule) -> (r: Option<Specificity>)
    ensures
        r == rule_rank(elem, rule),
{
    // Find the most specific matching selector.
    let mut best: Option<Specificity> = None;
    let mut k: usize = rule.selectors.len();
    while k > 0
        invariant
            k <= rule.selectors@.len(),
            best == rank_from(elem, rule.selectors@, k as int),
        decreases k,
    {
        k = k - 1;
        if matches(elem, &rule.selectors[k]) {
            let rank = rule.selectors[k].specificity();
            best = match best {
                Some(r) => if below(rank, r) {
                    Some(r)
                } else {
                    Some(rank)
                },
                None => Some(rank),
            };
        }
    }
    best
}

/// A rule that applies to an element: the specificity with which it does,
/// and its position in the stylesheet.
pub type MatchedRule = (Specificity, usize);

/// `a` is applied before `b`: the lower specificity first, and of two
/// equal ones the rule that stands earlier in the stylesheet.
pub open spec fn applied_before(a: MatchedRule, b: MatchedRule) -> bool {
    ranks_below(a.0, b.0) || (a.0 == b.0 && a.1 < b.1)
}

/// Whether `m` names a rule of the stylesheet and the specificity with
/// which it applies to the element.
pub open spec fn is_match(elem: &ElementData, sheet: &Stylesheet, m: MatchedRule) -> bool {
    m.1 < sheet.rules@.len() && rule_rank(elem, &sheet.rules@[m.1 as int]) == Some(m.0)
}

/// The rules that apply to the element, in the stylesheet's order.
fn matching_rules(elem: &ElementData, stylesheet: &Stylesheet) -> (out: Vec<MatchedRule>)
    ensures
        forall|k: int| 0 <= k < out@.len() ==> is_match(elem, stylesheet, #[trigger] out@[k]),
        forall|a: int, b: int| 0 <= a < b < out@.len() ==> out@[a].1 < out@[b].1,
        forall|i: int|
            0 <= i < stylesheet.rules@.len() && rule_rank(
                elem,
                &#[trigger] stylesheet.rules@[i],
            ).is_some() ==> out@.contains(
                (rule_rank(elem, &stylesheet.rules@[i]).unwrap(), i as usize),
            ),
{
    let mut out: Vec<MatchedRule> = Vec::new();
    let mut i: usize = 0;
    while i < stylesheet.rules.len()
        invariant
            i <= stylesheet.rules@.len(),
            forall|k: int| 0 <= k < out@.len() ==> is_match(elem, stylesheet, #[trigger] out@[k]),
            forall|k: int| 0 <= k < out@.len() ==> (#[trigger] out@[k]).1 < i,
            forall|a: int, b: int| 0 <= a < b < out@.len() ==> out@[a].1 < out@[b].1,
            forall|t: int|
                0 <= t < i && rule_rank(elem, &#[trigger] stylesheet.rules@[t]).is_some()
                    ==> out@.contains((rule_rank(elem, &stylesheet.rules@[t]).unwrap(), t as usize)),
        decreases stylesheet.rules@.len() - i,
    {
        match match_rule(elem, &stylesheet.rules[i]) {
            Some(rank) => {
                let ghost before = out@;
                out.push((rank, i));
                proof {
                    assert(out@[before.len() as int] == (rank, i));
                    assert forall|t: int|
                        0 <= t < i + 1 && rule_rank(
                            elem,
                            &#[trigger] stylesheet.rules@[t],
                        ).is_some() implies out@.contains(
                        (rule_rank(elem, &stylesheet.rules@[t]).unwrap(), t as usize),
                    ) by {
                        if t < i {
                            let x = (rule_rank(elem, &stylesheet.rules@[t]).unwrap(), t as usize);
                            let k = choose|k: int| 0 <= k < before.len() && before[k] == x;
                            assert(out@[k] == x);
                        }
                    }
                }
            },
            None => {},
        }
        i = i + 1;
    }
    out
}

/// Orders the matches as they are to be applied.
fn sort_by_rank(v: Vec<MatchedRule>) -> (out: Vec<MatchedRule>)
    requires
        forall|a: int, b: int| 0 <= a < b < v@.len() ==> v@[a].1 < v@[b].1,
    ensures
        forall|a: int, b: int| 0 <= a < b < out@.len() ==> applied_before(out@[a], out@[b]),
        forall|x: MatchedRule| v@.contains(x) <==> out@.contains(x),
{
    let mut out: Vec<MatchedRule> = Vec::new();
    let mut i: usize = 0;
    while i < v.len()
        invariant
            i <= v@.len(),
            forall|a: int, b: int| 0 <= a < b < v@.len() ==> v@[a].1 < v@[b].1,
            forall|a: int, b: int| 0 <= a < b < out@.len() ==> applied_before(out@[a], out@[b]),
            forall|k: int| 0 <= k < out@.len() ==> v@.take(i as int).contains(#[trigger] out@[k]),
            forall|t: int| 0 <= t < i ==> out@.contains(#[trigger] v@[t]),
        decreases v@.len() - i,
    {
        let x: MatchedRule = v[i];
        let mut p: usize = 0;
        while p < out.len() && !below(x.0, out[p].0)
            invariant
                p <= out@.len(),
                forall|q: int| 0 <= q < p ==> !ranks_below(x.0, (#[trigger] out@[q]).0),
            decreases out@.len() - p,
        {
            p = p + 1;
        }
        let ghost before = out@;
        proof {
            assert forall|k: int| 0 <= k < before.len() implies (#[trigger] before[k]).1 < x.1 by {
                let t = choose|t: int|
                    0 <= t < v@.take(i as int).len() && v@.take(i as int)[t] == before[k];
                assert(v@[t] == before[k]);
            }
        }
        out.insert(p, x);
        proof {
            let after = out@;
            assert(after.len() == before.len() + 1);
            assert(forall|k: int| 0 <= k < p ==> after[k] == before[k]);
            assert(after[p as int] == x);
            assert(forall|k: int| p < k < after.len() ==> after[k] == before[k - 1]);
            assert forall|a: int, b: int| 0 <= a < b < after.len() implies applied_before(
                after[a],
                after[b],
            ) by {
                if b < p {
                } else if b == p {
                    assert(!ranks_below(x.0, before[a].0));
                } else if a < p {
                    assert(applied_before(before[a], before[b - 1]));
                } else if a == p {
                    assert(ranks_below(x.0, before[p as int].0));
                    if b - 1 > p {
                        assert(applied_before(before[p as int], before[b - 1]));
                    }
                } else {
                    assert(applied_before(before[a - 1], before[b - 1]));
                }
            }
            assert forall|k: int| 0 <= k < after.len() implies v@.take(i + 1).contains(
                #[trigger] after[k],
            ) by {
                if k == p {
                    assert(v@.take(i + 1)[i as int] == x);
                } else {
                    let y = after[k];
                    let k0 = if k < p { k } else { k - 1 };
                    assert(before[k0] == y);
                    let t = choose|t: int|
                        0 <= t < v@.take(i as int).len() && v@.take(i as int)[t] == y;
                    assert(v@.take(i + 1)[t] == y);
                }
            }
            assert forall|t: int| 0 <= t < i + 1 implies after.contains(#[trigger] v@[t]) by {
                if t == i {
                    assert(after[p as int] == v@[t]);
                } else {
                    let k = choose|k: int| 0 <= k < before.len() && before[k] == v@[t];
                    if k < p {
                        assert(after[k] == v@[t]);
                    } else {
                        assert(after[k + 1] == v@[t]);
                    }
                }
            }
        }
        i = i + 1;
    }
    proof {
        assert(v@.take(i as int) == v@);
        assert forall|x: MatchedRule| v@.contains(x) implies out@.contains(x) by {
            let t = choose|t: int| 0 <= t < v@.len() && v@[t] == x;
            assert(out@.contains(v@[t]));
        }
        assert forall|x: MatchedRule| out@.contains(x) implies v@.contains(x) by {
            let k = choose|k: int| 0 <= k < out@.len() && out@[k] == x;
            assert(v@.take(i as int).contains(out@[k]));
        }
    }
    out
}

/// Declaration `j` of rule `i` reaches the element: the rule applies to it.
pub open spec fn declares(elem: &ElementData, sheet: &Stylesheet, i: int, j: int) -> bool {
    &&& 0 <= i < sheet.rules@.len()
    &&& rule_rank(elem, &sheet.rules@[i]).is_some()
    &&& 0 <= j < sheet.rules@[i].declarations@.len()
}

/// Declaration `j1` of rule `i1` is applied before declaration `j2` of rule
/// `i2`: by the specificity with which their rules apply, then by the
/// rules' order, then by the declarations' order.
pub open spec fn declared_before(
    elem: &ElementData,
    sheet: &Stylesheet,
    i1: int,
    j1: int,
    i2: int,
    j2: int,
) -> bool {
    let r1 = rule_rank(elem, &sheet.rules@[i1]).unwrap();
    let r2 = rule_rank(elem, &sheet.rules@[i2]).unwrap();
    ranks_below(r1, r2) || (r1 == r2 && (i1 < i2 || (i1 == i2 && j1 < j2)))
}

/// Declaration `j` of rule `i` reaches the element, and no declaration of
/// the same property that reaches it is applied later.
pub open spec fn wins(elem: &ElementData, sheet: &Stylesheet, i: int, j: int) -> bool {
    &&& declares(elem, sheet, i, j)
    &&& forall|i2: int, j2: int|
        #[trigger] declares(elem, sheet, i2, j2) && sheet.rules@[i2].declarations@[j2].name@
            == sheet.rules@[i].declarations@[j].name@ ==> !declared_before(
            elem,
            sheet,
            i,
            j,
            i2,
            j2,
        )
}

/// `m` is what the cascade gives the element: a property for each
/// declaration that reaches it and for nothing else, each with the value
/// of the declaration that is applied last.
pub open spec fn cascaded(elem: &ElementData, sheet: &Stylesheet, m: Map<Seq<char>, Value>) -> bool {
    &&& forall|i: int, j: int| #[trigger]
        declares(elem, sheet, i, j) ==> m.contains_key(sheet.rules@[i].declarations@[j].name@)
    &&& forall|name: Seq<char>| #[trigger]
        m.contains_key(name) ==> exists|i: int, j: int|
            wins(elem, sheet, i, j) && sheet.rules@[i].declarations@[j].name@ == name
                && sheet.rules@[i].declarations@[j].value == m[name]
}

/// Declaration `j` of the rule at position `p` of `order`.
pub open spec fn nth_decl(
    sheet: &Stylesheet,
    order: Seq<MatchedRule>,
    p: int,
    j: int,
) -> crate::css::Declaration {
    sheet.rules@[order[p].1 as int].declarations@[j]
}

/// Position `(q, j2)` comes before `(p, j)`.
pub open spec fn earlier(q: int, j2: int, p: int, j: int) -> bool {
    q < p || (q == p && j2 < j)
}

/// The state of the cascade when the declarations before `(p, j)` have been
/// applied: `holder` names, for each property, the declaration it has its
/// value from, which is the last one applied for it.
pub open spec fn applied_up_to(
    sheet: &Stylesheet,
    order: Seq<MatchedRule>,
    values: Map<Seq<char>, Value>,
    holder: Map<Seq<char>, (int, int)>,
    p: int,
    j: int,
) -> bool {
    &&& forall|name: Seq<char>| values.contains_key(name) <==> holder.contains_key(name)
    &&& forall|name: Seq<char>| #[trigger]
        holder.contains_key(name) ==> {
            let h = holder[name];
            &&& 0 <= h.0 < order.len()
            &&& 0 <= h.1 < sheet.rules@[order[h.0].1 as int].declarations@.len()
            &&& earlier(h.0, h.1, p, j)
            &&& nth_decl(sheet, order, h.0, h.1).name@ == name
            &&& nth_decl(sheet, order, h.0, h.1).value == values[name]
        }
    &&& forall|q: int, j2: int|
        0 <= q < order.len() && 0 <= j2 < sheet.rules@[order[q].1 as int].declarations@.len()
            && earlier(q, j2, p, j) ==> {
            let name = (#[trigger] nth_decl(sheet, order, q, j2)).name@;
            holder.contains_key(name) && !earlier(holder[name].0, holder[name].1, q, j2)
        }
}

/// The property values that the stylesheet specifies for an element.
pub fn specified_values(elem: &ElementData, stylesheet: &Stylesheet) -> (values: PropertyMap)
    ensures
        cascaded(elem, stylesheet, values@),
{
    let mut values: PropertyMap = Table::new();
    let matched = matching_rules(elem, stylesheet);
    let order = sort_by_rank(matched);
    let ghost mut holder: Map<Seq<char>, (int, int)> = Map::empty();
    proof {
        assert forall|k: int| 0 <= k < order@.len() implies is_match(
            elem,
            stylesheet,
            #[trigger] order@[k],
        ) by {
            assert(order@.contains(order@[k]));
            let t = choose|t: int| 0 <= t < matched@.len() && matched@[t] == order@[k];
            assert(is_match(elem, stylesheet, matched@[t]));
        }
    }
    let mut p: usize = 0;
    while p < order.len()
        invariant
            p <= order@.len(),
            forall|k: int| 0 <= k < order@.len() ==> is_match(elem, stylesheet, #[trigger] order@[k]),
            applied_up_to(stylesheet, order@, values@, holder, p as int, 0),
        decreases order@.len() - p,
    {
        assert(is_match(elem, stylesheet, order@[p as int]));
        let rule = &stylesheet.rules[order[p].1];
        let mut j: usize = 0;
        while j < rule.declarations.len()
            invariant
                p < order@.len(),
                order@[p as int].1 < stylesheet.rules@.len(),
                *rule == stylesheet.rules@[order@[p as int].1 as int],
                j <= rule.declarations@.len(),
                applied_up_to(stylesheet, order@, values@, holder, p as int, j as int),
            decreases rule.declarations@.len() - j,
        {
            let d = &rule.declarations[j];
            values.insert(d.name.clone(), d.value.duplicate());
            proof {
                holder = holder.insert(d.name@, (p as int, j as int));
                assert(nth_decl(stylesheet, order@, p as int, j as int) == *d);
            }
            j = j + 1;
        }
        p = p + 1;
    }
    proof {
        let m = values@;
        assert forall|i: int, j: int| #[trigger] declares(elem, stylesheet, i, j) implies m.contains_key(
            stylesheet.rules@[i].declarations@[j].name@,
        ) by {
            assert(stylesheet.rules@.len() == stylesheet.rules.len());
            let x = (rule_rank(elem, &stylesheet.rules@[i]).unwrap(), i as usize);
            assert(matched@.contains(x));
            assert(order@.contains(x));
            let q = choose|q: int| 0 <= q < order@.len() && order@[q] == x;
            assert(nth_decl(stylesheet, order@, q, j) == stylesheet.rules@[i].declarations@[j]);
        }
        assert forall|name: Seq<char>| #[trigger] m.contains_key(name) implies exists|
            i: int,
            j: int,
        |
            wins(elem, stylesheet, i, j) && stylesheet.rules@[i].declarations@[j].name@ == name
                && stylesheet.rules@[i].declarations@[j].value == m[name] by {
            assert(holder.contains_key(name));
            let h = holder[name];
            let i = order@[h.0].1 as int;
            assert(is_match(elem, stylesheet, order@[h.0]));
            assert(nth_decl(stylesheet, order@, h.0, h.1) == stylesheet.rules@[i].declarations@[h.1]);
            assert forall|i2: int, j2: int|
                #[trigger] declares(elem, stylesheet, i2, j2)
                    && stylesheet.rules@[i2].declarations@[j2].name@
                    == stylesheet.rules@[i].declarations@[h.1].name@ implies !declared_before(
                elem,
                stylesheet,
                i,
                h.1,
                i2,
                j2,
            ) by {
                assert(stylesheet.rules@.len() == stylesheet.rules.len());
                let x = (rule_rank(elem, &stylesheet.rules@[i2]).unwrap(), i2 as usize);
                assert(matched@.contains(x));
                assert(order@.contains(x));
                let q = choose|q: int| 0 <= q < order@.len() && order@[q] == x;
                assert(nth_decl(stylesheet, order@, q, j2)
                    == stylesheet.rules@[i2].declarations@[j2]);
                if q < h.0 {
                    assert(applied_before(order@[q], order@[h.0]));
                } else if q > h.0 {
                    assert(earlier(h.0, h.1, q, j2));
                }
            }
            assert(wins(elem, stylesheet, i, h.1));
        }
    }
    values
}

/// Whether `styled` is the styled tree of `root` under `sheet`: node by
/// node, an element with what the cascade gives it, a text node with no
/// property at all.
pub open spec fn styles(root: &Node, sheet: &Stylesheet, styled: &StyledNode) -> bool
    decreases root,
{
    &&& *styled.node == *root
    &&& match &root.node_type {
        NodeType::Element(elem) => cascaded(elem, sheet, styled.specified_values@),
        NodeType::Text(_) => styled.specified_values@ == Map::<Seq<char>, Value>::empty(),
    }
    &&& styled.children@.len() == root.children@.len()
    &&& forall|k: int|
        0 <= k < root.children@.len() ==> styles(
            &root.children@[k],
            sheet,
            &#[trigger] styled.children@[k],
        )
}

/// Applies a stylesheet to a whole document tree.
pub fn style_tree<'a>(root: &'a Node, stylesheet: &'a Stylesheet) -> (styled: StyledNode<'a>)
    ensures
        styles(root, stylesheet, &styled),
    decreases root,
{
    let specified_values = match &root.node_type {
        NodeType::Element(elem) => specified_values(elem, stylesheet),
        NodeType::Text(_) => Table::new(),
    };
    let mut children: Vec<StyledNode<'a>> = Vec::new();
    let mut k: usize = 0;
    while k < root.children.len()
        invariant
            k <= root.children@.len(),
            children@.len() == k,
            forall|t: int|
                0 <= t < k ==> styles(&root.children@[t], stylesheet, &#[trigger] children@[t]),
        decreases root.children@.len() - k,
    {
        let child = style_tree(&root.children[k], stylesheet);
        children.push(child);
        k = k + 1;
    }
    StyledNode { node: root, specified_values, children }
}

/// The declaration that is applied last for its property gives the
/// property its value.
pub proof fn last_applied_wins(
    elem: &ElementData,
    sheet: &Stylesheet,
    m: Map<Seq<char>, Value>,
    i: int,
    j: int,
)
    requires
        cascaded(elem, sheet, m),
        wins(elem, sheet, i, j),
    ensures
        m.contains_key(sheet.rules@[i].declarations@[j].name@),
        m[sheet.rules@[i].declarations@[j].name@] == sheet.rules@[i].declarations@[j].value,
{
    let name = sheet.rules@[i].declarations@[j].name@;
    assert(declares(elem, sheet, i, j));
    assert(m.contains_key(name));
    let (i2, j2) = choose|i2: int, j2: int|
        wins(elem, sheet, i2, j2) && sheet.rules@[i2].declarations@[j2].name@ == name
            && sheet.rules@[i2].declarations@[j2].value == m[name];
    assert(declares(elem, sheet, i2, j2));
    assert(!declared_before(elem, sheet, i, j, i2, j2));
    assert(!declared_before(elem, sheet, i2, j2, i, j));
}

/// The highest specificity wins, wherever the rules stand: a declaration
/// gives its property its value where every other declaration of that
/// property that reaches the element comes from a rule that applies with a
/// lower specificity.
pub proof fn highest_specificity_wins(
    elem: &ElementData,
    sheet: &Stylesheet,
    m: Map<Seq<char>, Value>,
    i: int,
    j: int,
)
    requires
        cascaded(elem, sheet, m),
        declares(elem, sheet, i, j),
        forall|i2: int, j2: int|
            #[trigger] declares(elem, sheet, i2, j2) && (i2 != i || j2 != j)
                && sheet.rules@[i2].declarations@[j2].name@
                == sheet.rules@[i].declarations@[j].name@ ==> ranks_below(
                rule_rank(elem, &sheet.rules@[i2]).unwrap(),
                rule_rank(elem, &sheet.rules@[i]).unwrap(),
            ),
    ensures
        m.contains_key(sheet.rules@[i].declarations@[j].name@),
        m[sheet.rules@[i].declarations@[j].name@] == sheet.rules@[i].declarations@[j].value,
{
    assert(wins(elem, sheet, i, j));
    last_applied_wins(elem, sheet, m, i, j);
}

/// Among equal specificities the later rule wins: a declaration gives its
/// property its value where every other declaration of that property that
/// reaches the element applies with the same specificity and stands
/// earlier in the stylesheet.
pub proof fn later_rule_wins(
    elem: &ElementData,
    sheet: &Stylesheet,
    m: Map<Seq<char>, Value>,
    i: int,
    j: int,
)
    requires
        cascaded(elem, sheet, m),
        declares(elem, sheet, i, j),
        forall|i2: int, j2: int|
            #[trigger] declares(elem, sheet, i2, j2) && (i2 != i || j2 != j)
                && sheet.rules@[i2].declarations@[j2].name@
                == sheet.rules@[i].declarations@[j].name@ ==> rule_rank(elem, &sheet.rules@[i2])
                == rule_rank(elem, &sheet.rules@[i]) && (i2 < i || (i2 == i && j2 < j)),
    ensures
        m.contains_key(sheet.rules@[i].declarations@[j].name@),
        m[sheet.rules@[i].declarations@[j].name@] == sheet.rules@[i].declarations@[j].value,
{
    assert(wins(elem, sheet, i, j));
    last_applied_wins(elem, sheet, m, i, j);
}

/// A property that no declaration reaching the element names is absent.
pub proof fn unmatched_property_absent(
    elem: &ElementData,
    sheet: &Stylesheet,
    m: Map<Seq<char>, Value>,
    name: Seq<char>,
)
    requires
        cascaded(elem, sheet, m),
        forall|i: int, j: int|
            #[trigger] declares(elem, sheet, i, j) ==> sheet.rules@[i].declarations@[j].name@
                != name,
    ensures
        !m.contains_key(name),
{
    if m.contains_key(name) {
        let (i, j) = choose|i: int, j: int|
            wins(elem, sheet, i, j) && sheet.rules@[i].declarations@[j].name@ == name
                && sheet.rules@[i].declarations@[j].value == m[name];
        assert(declares(elem, sheet, i, j));
    }
}

/// A text node has no property, and no node has one from its ancestors:
/// what a node of the styled tree has is what the cascade gives itself.
pub proof fn text_has_no_property(root: &Node, sheet: &Stylesheet, styled: &StyledNode)
    requires
        styles(root, sheet, styled),
        root.node_type is Text,
    ensures
        forall|name: Seq<char>| !styled.specified_values@.contains_key(name),
{
}

/// Display is block for exactly the keyword `block`, none for exactly the
/// keyword `none`, and inline for everything else: a missing property, a
/// value that is no keyword, any other keyword.
pub proof fn display_cases(m: Map<Seq<char>, Value>)
    ensures
        display_of(m) == Display::Block <==> m.contains_key("display"@) && m["display"@].is_keyword(
            "block"@,
        ),
        display_of(m) == Display::Hidden <==> m.contains_key("display"@)
            && m["display"@].is_keyword("none"@),
        !m.contains_key("display"@) ==> display_of(m) == Display::Inline,
        m.contains_key("display"@) && !(m["display"@] is Keyword) ==> display_of(m)
            == Display::Inline,
{
    reveal_strlit("block");
    reveal_strlit("none");
    assert("block"@.len() == 5);
    assert("none"@.len() == 4);
}

} // verus!
