//! The element-tree model of a build page. A parsed page is a sequence of
//! nodes in document order; each node carries the attributes the page schema
//! reads (tag, id, class list, href, text content) and the index of its
//! parent. All selector logic runs over this model and is verified; only the
//! flattening of the parsed page into it is trusted.

use vstd::prelude::*;
use crate::text::{has_token, starts_with_seq, str_eq, str_has_token};

verus! {

/// One node of a parsed page, in document order.
#[derive(Debug)]
pub struct FlatNode {
    /// Element name; text and comment nodes have none.
    pub tag: Option<String>,
    /// The `id` attribute, if present.
    pub id: Option<String>,
    /// The raw `class` attribute, if present.
    pub class_attr: Option<String>,
    /// The `href` attribute, if present.
    pub href: Option<String>,
    /// The node's full text content.
    pub text: String,
    /// Index of the parent node; root nodes have none.
    pub parent: Option<usize>,
}

pub struct NodeView {
    pub tag: Option<Seq<char>>,
    pub id: Option<Seq<char>>,
    pub class_attr: Option<Seq<char>>,
    pub href: Option<Seq<char>>,
    pub text: Seq<char>,
    pub parent: Option<int>,
}

impl View for FlatNode {
    type V = NodeView;

    open spec fn view(&self) -> NodeView {
        NodeView {
            tag: match self.tag {
                Some(t) => Some(t@),
                None => None,
            },
            id: match self.id {
                Some(t) => Some(t@),
                None => None,
            },
            class_attr: match self.class_attr {
                Some(t) => Some(t@),
                None => None,
            },
            href: match self.href {
                Some(t) => Some(t@),
                None => None,
            },
            text: self.text@,
            parent: match self.parent {
                Some(p) => Some(p as int),
                None => None,
            },
        }
    }
}

pub open spec fn dom_view(nodes: Seq<FlatNode>) -> Seq<NodeView> {
    nodes.map_values(|n: FlatNode| n@)
}

pub open spec fn nv_is_tag(n: NodeView, t: Seq<char>) -> bool {
    n.tag == Some(t)
}

pub open spec fn nv_has_class(n: NodeView, cls: Seq<char>) -> bool {
    match n.class_attr {
        Some(a) => has_token(a, cls),
        None => false,
    }
}

pub open spec fn nv_has_id(n: NodeView, idv: Seq<char>) -> bool {
    n.id == Some(idv)
}

/// Some proper ancestor of node `i` carries class `cls`. Parent links that do
/// not point backwards end the chain: document order lists parents first.
pub open spec fn chain_has_class(dom: Seq<NodeView>, i: int, cls: Seq<char>) -> bool
    decreases i,
{
    if 0 <= i < dom.len() {
        match dom[i].parent {
            Some(p) => if 0 <= p < i {
                nv_has_class(dom[p], cls) || chain_has_class(dom, p, cls)
            } else {
                false
            },
            None => false,
        }
    } else {
        false
    }
}

/// Some proper ancestor of node `i` carries id `idv`.
pub open spec fn chain_has_id(dom: Seq<NodeView>, i: int, idv: Seq<char>) -> bool
    decreases i,
{
    if 0 <= i < dom.len() {
        match dom[i].parent {
            Some(p) => if 0 <= p < i {
                nv_has_id(dom[p], idv) || chain_has_id(dom, p, idv)
            } else {
                false
            },
            None => false,
        }
    } else {
        false
    }
}

/// Node `anc` is a proper ancestor of node `i`.
pub open spec fn chain_has_index(dom: Seq<NodeView>, i: int, anc: int) -> bool
    decreases i,
{
    if 0 <= i < dom.len() {
        match dom[i].parent {
            Some(p) => if 0 <= p < i {
                p == anc || chain_has_index(dom, p, anc)
            } else {
                false
            },
            None => false,
        }
    } else {
        false
    }
}

fn node_has_class(nodes: &Vec<FlatNode>, i: usize, cls: &str) -> (r: bool)
    requires
        i < nodes@.len(),
        cls@.len() > 0,
    ensures
        r == nv_has_class(dom_view(nodes@)[i as int], cls@),
{
    proof {
        assert(dom_view(nodes@)[i as int] == nodes@[i as int]@);
    }
    match &nodes[i].class_attr {
        Some(a) => str_has_token(a.as_str(), cls),
        None => false,
    }
}

fn node_is_tag(nodes: &Vec<FlatNode>, i: usize, t: &str) -> (r: bool)
    requires
        i < nodes@.len(),
    ensures
        r == nv_is_tag(dom_view(nodes@)[i as int], t@),
{
    proof {
        assert(dom_view(nodes@)[i as int] == nodes@[i as int]@);
    }
    match &nodes[i].tag {
        Some(s) => str_eq(s.as_str(), t),
        None => false,
    }
}

fn node_has_id(nodes: &Vec<FlatNode>, i: usize, idv: &str) -> (r: bool)
    requires
        i < nodes@.len(),
    ensures
        r == nv_has_id(dom_view(nodes@)[i as int], idv@),
{
    proof {
        assert(dom_view(nodes@)[i as int] == nodes@[i as int]@);
    }
    match &nodes[i].id {
        Some(s) => str_eq(s.as_str(), idv),
        None => false,
    }
}

fn node_under_class(nodes: &Vec<FlatNode>, i: usize, cls: &str) -> (r: bool)
    requires
        i < nodes@.len(),
        cls@.len() > 0,
    ensures
        r == chain_has_class(dom_view(nodes@), i as int, cls@),
    decreases i,
{
    proof {
        assert(dom_view(nodes@)[i as int] == nodes@[i as int]@);
    }
    match nodes[i].parent {
        Some(p) => if p < i {
            node_has_class(nodes, p, cls) || node_under_class(nodes, p, cls)
        } else {
            false
        },
        None => false,
    }
}

fn node_under_id(nodes: &Vec<FlatNode>, i: usize, idv: &str) -> (r: bool)
    requires
        i < nodes@.len(),
    ensures
        r == chain_has_id(dom_view(nodes@), i as int, idv@),
    decreases i,
{
    proof {
        assert(dom_view(nodes@)[i as int] == nodes@[i as int]@);
    }
    match nodes[i].parent {
        Some(p) => if p < i {
            node_has_id(nodes, p, idv) || node_under_id(nodes, p, idv)
        } else {
            false
        },
        None => false,
    }
}

fn node_under_index(nodes: &Vec<FlatNode>, i: usize, anc: usize) -> (r: bool)
    requires
        i < nodes@.len(),
    ensures
        r == chain_has_index(dom_view(nodes@), i as int, anc as int),
    decreases i,
{
    proof {
        assert(dom_view(nodes@)[i as int] == nodes@[i as int]@);
    }
    match nodes[i].parent {
        Some(p) => if p < i {
            p == anc || node_under_index(nodes, p, anc)
        } else {
            false
        },
        None => false,
    }
}

/// Node `i` holds the architecture text: a `tt` element below an element of
/// class `info-table`.
pub open spec fn arch_pred(dom: Seq<NodeView>, i: int) -> bool {
    0 <= i < dom.len() && nv_is_tag(dom[i], "tt"@) && chain_has_class(dom, i, "info-table"@)
}

pub open spec fn first_arch(dom: Seq<NodeView>, from: int) -> Option<int>
    decreases dom.len() - from,
{
    if from < 0 || from >= dom.len() {
        None
    } else if arch_pred(dom, from) {
        Some(from)
    } else {
        first_arch(dom, from + 1)
    }
}

pub(crate) fn find_arch(nodes: &Vec<FlatNode>, from: usize) -> (r: Option<usize>)
    ensures
        match r {
            Some(i) => first_arch(dom_view(nodes@), from as int) == Some(i as int) && i
                < nodes@.len(),
            None => first_arch(dom_view(nodes@), from as int) is None,
        },
    decreases nodes@.len() - from,
{
    proof {
        reveal_strlit("info-table");
    }
    if from >= nodes.len() {
        return None;
    }
    if node_is_tag(nodes, from, "tt") && node_under_class(nodes, from, "info-table") {
        return Some(from);
    }
    find_arch(nodes, from + 1)
}

/// Node `i` is the steps table: a `table` element of class `clickable-rows`
/// below the element with id `tabs-buildsteps`.
pub open spec fn table_pred(dom: Seq<NodeView>, i: int) -> bool {
    &&& 0 <= i < dom.len()
    &&& nv_is_tag(dom[i], "table"@)
    &&& nv_has_class(dom[i], "clickable-rows"@)
    &&& chain_has_id(dom, i, "tabs-buildsteps"@)
}

pub open spec fn first_table(dom: Seq<NodeView>, from: int) -> Option<int>
    decreases dom.len() - from,
{
    if from < 0 || from >= dom.len() {
        None
    } else if table_pred(dom, from) {
        Some(from)
    } else {
        first_table(dom, from + 1)
    }
}

pub(crate) fn find_table(nodes: &Vec<FlatNode>, from: usize) -> (r: Option<usize>)
    ensures
        match r {
            Some(i) => first_table(dom_view(nodes@), from as int) == Some(i as int) && i
                < nodes@.len(),
            None => first_table(dom_view(nodes@), from as int) is None,
        },
    decreases nodes@.len() - from,
{
    proof {
        reveal_strlit("clickable-rows");
    }
    if from >= nodes.len() {
        return None;
    }
    if node_is_tag(nodes, from, "table") && node_has_class(nodes, from, "clickable-rows")
        && node_under_id(nodes, from, "tabs-buildsteps") {
        return Some(from);
    }
    find_table(nodes, from + 1)
}

/// Node `i` is a `tt` element below node `c`.
pub open spec fn tt_under_pred(dom: Seq<NodeView>, i: int, c: int) -> bool {
    0 <= i < dom.len() && nv_is_tag(dom[i], "tt"@) && chain_has_index(dom, i, c)
}

pub open spec fn first_tt_under(dom: Seq<NodeView>, c: int, from: int) -> Option<int>
    decreases dom.len() - from,
{
    if from < 0 || from >= dom.len() {
        None
    } else if tt_under_pred(dom, from, c) {
        Some(from)
    } else {
        first_tt_under(dom, c, from + 1)
    }
}

pub(crate) fn find_tt_under(nodes: &Vec<FlatNode>, c: usize, from: usize) -> (r: Option<usize>)
    ensures
        match r {
            Some(i) => first_tt_under(dom_view(nodes@), c as int, from as int) == Some(i as int)
                && i < nodes@.len(),
            None => first_tt_under(dom_view(nodes@), c as int, from as int) is None,
        },
    decreases nodes@.len() - from,
{
    if from >= nodes.len() {
        return None;
    }
    if node_is_tag(nodes, from, "tt") && node_under_index(nodes, from, c) {
        return Some(from);
    }
    find_tt_under(nodes, c, from + 1)
}

/// Node `i` is a step row: a `tr` element below the steps table `t`.
pub open spec fn is_row(dom: Seq<NodeView>, i: int, t: int) -> bool {
    0 <= i < dom.len() && nv_is_tag(dom[i], "tr"@) && chain_has_index(dom, i, t)
}

pub(crate) fn row_at(nodes: &Vec<FlatNode>, i: usize, t: usize) -> (r: bool)
    requires
        i < nodes@.len(),
    ensures
        r == is_row(dom_view(nodes@), i as int, t as int),
{
    node_is_tag(nodes, i, "tr") && node_under_index(nodes, i, t)
}

/// Node `i` is a direct `td` child of row `row`.
pub open spec fn is_td_child(dom: Seq<NodeView>, i: int, row: int) -> bool {
    0 <= i < dom.len() && nv_is_tag(dom[i], "td"@) && dom[i].parent == Some(row)
}

/// The direct `td` children of `row` among nodes `[0, upto)`, in document
/// order.
pub open spec fn tds_upto(dom: Seq<NodeView>, row: int, upto: int) -> Seq<int>
    decreases upto,
{
    if upto <= 0 {
        Seq::empty()
    } else if is_td_child(dom, upto - 1, row) {
        tds_upto(dom, row, upto - 1) + seq![upto - 1]
    } else {
        tds_upto(dom, row, upto - 1)
    }
}

pub open spec fn tds_of(dom: Seq<NodeView>, row: int) -> Seq<int> {
    tds_upto(dom, row, dom.len() as int)
}

pub(crate) fn collect_tds(nodes: &Vec<FlatNode>, row: usize) -> (r: Vec<usize>)
    ensures
        r@.map_values(|x: usize| x as int) == tds_of(dom_view(nodes@), row as int),
        forall|k: int| 0 <= k < r@.len() ==> r@[k] < nodes@.len(),
{
    let ghost dom = dom_view(nodes@);
    let mut out: Vec<usize> = Vec::new();
    let mut i: usize = 0;
    while i < nodes.len()
        invariant
            i <= nodes@.len(),
            dom == dom_view(nodes@),
            out@.map_values(|x: usize| x as int) == tds_upto(dom, row as int, i as int),
            forall|k: int| 0 <= k < out@.len() ==> out@[k] < nodes@.len(),
        decreases nodes@.len() - i,
    {
        let is_td = node_is_tag(nodes, i, "td");
        let parent_is_row = match nodes[i].parent {
            Some(p) => p == row,
            None => false,
        };
        proof {
            assert(dom[i as int] == nodes@[i as int]@);
        }
        if is_td && parent_is_row {
            out.push(i);
            proof {
                assert(out@.map_values(|x: usize| x as int) =~= tds_upto(
                    dom,
                    row as int,
                    i + 1,
                ));
            }
        } else {
            proof {
                assert(tds_upto(dom, row as int, i + 1) == tds_upto(dom, row as int, i as int));
            }
        }
        i += 1;
    }
    out
}

/// Node `i` is an anchor below column cell `c`.
pub open spec fn is_anchor_under(dom: Seq<NodeView>, i: int, c: int) -> bool {
    0 <= i < dom.len() && nv_is_tag(dom[i], "a"@) && chain_has_index(dom, i, c)
}

/// The link a status cell elects among its anchors `[0, upto)`, in document
/// order: the first anchor whose text is exactly "log" is adopted while no
/// link is held, and any anchor whose text starts with "build " is adopted
/// unconditionally. Either adoption takes the anchor's href, present or not.
pub open spec fn chosen_link_upto(dom: Seq<NodeView>, c: int, upto: int) -> Option<Seq<char>>
    decreases upto,
{
    if upto <= 0 {
        None
    } else {
        let prev = chosen_link_upto(dom, c, upto - 1);
        if is_anchor_under(dom, upto - 1, c) {
            let n = dom[upto - 1];
            let mid = if prev is None && n.text == "log"@ {
                n.href
            } else {
                prev
            };
            if starts_with_seq(n.text, "build "@) {
                n.href
            } else {
                mid
            }
        } else {
            prev
        }
    }
}

pub open spec fn chosen_link(dom: Seq<NodeView>, c: int) -> Option<Seq<char>> {
    chosen_link_upto(dom, c, dom.len() as int)
}

pub open spec fn opt_str_view(o: Option<String>) -> Option<Seq<char>> {
    match o {
        Some(s) => Some(s@),
        None => None,
    }
}

pub(crate) fn select_link(nodes: &Vec<FlatNode>, c: usize) -> (r: Option<String>)
    ensures
        opt_str_view(r) == chosen_link(dom_view(nodes@), c as int),
{
    let ghost dom = dom_view(nodes@);
    let mut cur: Option<String> = None;
    let mut i: usize = 0;
    while i < nodes.len()
        invariant
            i <= nodes@.len(),
            dom == dom_view(nodes@),
            opt_str_view(cur) == chosen_link_upto(dom, c as int, i as int),
        decreases nodes@.len() - i,
    {
        proof {
            assert(dom[i as int] == nodes@[i as int]@);
        }
        if node_is_tag(nodes, i, "a") && node_under_index(nodes, i, c) {
            let n = &nodes[i];
            if cur.is_none() && str_eq(n.text.as_str(), "log") {
                cur = clone_opt_str(&n.href);
            }
            if crate::text::str_starts_with(n.text.as_str(), "build ") {
                cur = clone_opt_str(&n.href);
            }
        }
        i += 1;
    }
    cur
}

fn clone_opt_str(o: &Option<String>) -> (r: Option<String>)
    ensures
        opt_str_view(r) == opt_str_view(*o),
{
    match o {
        Some(s) => Some(s.clone()),
        None => None,
    }
}

/// The longest page the parser accepts, in characters: its buffers hold at
/// most `u32::MAX` bytes and abort beyond that, and a character is at most
/// four bytes.
pub const MAX_PAGE_CHARS: usize = 0x3FFF_FFFF;

/// The element tree that parsing a page yields, in document order.
pub uninterp spec fn dom_of(page: Seq<char>) -> Seq<NodeView>;

/// Relies on `select::document::Document::from` and the `Node` accessors
/// `name`, `attr`, `text` and `raw`: parsing is a function of the page text
/// alone, `Document.nodes` lists the parsed nodes in document order, and each
/// raw node records the index of its parent. The parser's buffers cap a text
/// at `u32::MAX` bytes and abort past that, so over-long pages are excluded.
#[verifier::external_body]
pub(crate) fn parse_page(page: &str) -> (r: Vec<FlatNode>)
    requires
        page@.len() <= MAX_PAGE_CHARS,
    ensures
        dom_view(r@) == dom_of(page@),
{
    let doc = select::document::Document::from(page);
    let mut out = Vec::new();
    let mut i: usize = 0;
    while let Some(n) = doc.nth(i) {
        let (tag, id) = (n.name().map(str::to_owned), n.attr("id").map(str::to_owned));
        let class_attr = n.attr("class").map(str::to_owned);
        let href = n.attr("href").map(str::to_owned);
        out.push(FlatNode { tag, id, class_attr, href, text: n.text(), parent: n.raw().parent });
        i += 1;
    }
    out
}

} // verus!
