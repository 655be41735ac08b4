//! The abstract route table: nodes as mathematical values, and the two
//! operations of the table, registration (`inserted`) and matching
//! (`lookup`).
use vstd::prelude::*;
use crate::request::Method;
use crate::text::split_on;

verus! {

/// The pieces of `pieces` that are not empty, in order.
pub open spec fn non_empty(pieces: Seq<Seq<char>>) -> Seq<Seq<char>>
    decreases pieces.len(),
{
    if pieces.len() == 0 {
        Seq::empty()
    } else if pieces.last().len() > 0 {
        non_empty(pieces.drop_last()).push(pieces.last())
    } else {
        non_empty(pieces.drop_last())
    }
}

/// The non-empty pieces of `path` between slashes.
pub open spec fn path_segments(path: Seq<char>) -> Seq<Seq<char>> {
    non_empty(split_on(path, '/'))
}

/// A segment that names a parameter: it starts with a colon.
pub open spec fn is_param_segment(s: Seq<char>) -> bool {
    s.len() > 0 && s[0] == ':'
}

/// The segments of `segs` that are not parameters, in order.
pub open spec fn literal_part(segs: Seq<Seq<char>>) -> Seq<Seq<char>>
    decreases segs.len(),
{
    if segs.len() == 0 {
        Seq::empty()
    } else if is_param_segment(segs[0]) {
        literal_part(segs.drop_first())
    } else {
        seq![segs[0]] + literal_part(segs.drop_first())
    }
}

pub open spec fn all_literal(segs: Seq<Seq<char>>) -> bool {
    forall|k: int| 0 <= k < segs.len() ==> !is_param_segment(#[trigger] segs[k])
}

/// The abstract content of a node.
pub struct RouteNode<H> {
    pub label: Seq<char>,
    pub children: Seq<RouteNode<H>>,
    pub handlers: Map<Method, H>,
    pub param: Option<Seq<char>>,
}

pub open spec fn leaf<H>(label: Seq<char>) -> RouteNode<H> {
    RouteNode { label, children: Seq::empty(), handlers: Map::empty(), param: None }
}

/// The position of the first child labelled `label`.
pub open spec fn child_index<H>(children: Seq<RouteNode<H>>, label: Seq<char>) -> Option<int>
    decreases children.len(),
{
    if children.len() == 0 {
        None
    } else if children[0].label == label {
        Some(0)
    } else {
        match child_index(children.drop_first(), label) {
            Some(i) => Some(i + 1),
            None => None,
        }
    }
}

/// The outcome of resolving a path and a method.
pub enum Lookup<H> {
    Found(H, Map<Seq<char>, Seq<char>>),
    NoRoute(Seq<char>),
    PastParam,
    NoHandler,
}

pub open spec fn terminal<H>(t: RouteNode<H>, m: Method, params: Map<Seq<char>, Seq<char>>) -> Lookup<H> {
    if t.handlers.contains_key(m) {
        Lookup::Found(t.handlers[m], params)
    } else {
        Lookup::NoHandler
    }
}

/// Matching: a literal child is preferred; otherwise the node's parameter
/// captures the segment, which must then be the last one.
pub open spec fn lookup<H>(t: RouteNode<H>, segs: Seq<Seq<char>>, m: Method) -> Lookup<H>
    decreases segs.len(),
{
    if segs.len() == 0 {
        terminal(t, m, Map::empty())
    } else {
        match child_index(t.children, segs[0]) {
            Some(i) => lookup(t.children[i], segs.drop_first(), m),
            None => match t.param {
                Some(k) => if segs.len() == 1 {
                    terminal(t, m, map![k => segs[0]])
                } else {
                    Lookup::PastParam
                },
                None => Lookup::NoRoute(segs[0]),
            },
        }
    }
}

/// Registration: literal segments descend into (or create) a child; a
/// parameter segment names the current node's parameter and stays there.
pub open spec fn inserted<H>(t: RouteNode<H>, segs: Seq<Seq<char>>, m: Method, h: H) -> RouteNode<H>
    decreases segs.len(),
{
    if segs.len() == 0 {
        RouteNode { handlers: t.handlers.insert(m, h), ..t }
    } else if is_param_segment(segs[0]) {
        inserted(RouteNode { param: Some(segs[0].drop_first()), ..t }, segs.drop_first(), m, h)
    } else {
        match child_index(t.children, segs[0]) {
            Some(i) => RouteNode {
                children: t.children.update(i, inserted(t.children[i], segs.drop_first(), m, h)),
                ..t
            },
            None => RouteNode {
                children: t.children.push(inserted(leaf(segs[0]), segs.drop_first(), m, h)),
                ..t
            },
        }
    }
}

pub proof fn lemma_child_index<H>(children: Seq<RouteNode<H>>, label: Seq<char>)
    ensures
        match child_index(children, label) {
            Some(i) => 0 <= i < children.len() && children[i].label == label && forall|j: int|
                0 <= j < i ==> children[j].label != label,
            None => forall|j: int| 0 <= j < children.len() ==> children[j].label != label,
        },
    decreases children.len(),
{
    if children.len() > 0 {
        lemma_child_index(children.drop_first(), label);
        if children[0].label != label {
            assert forall|j: int| 1 <= j < children.len() implies children[j] == children.drop_first()[j
                - 1] by {}
        }
    }
}

/// The first index whose label is `label`, given that none before it is.
pub proof fn lemma_child_index_at<H>(children: Seq<RouteNode<H>>, label: Seq<char>, i: int)
    requires
        0 <= i < children.len(),
        children[i].label == label,
        forall|j: int| 0 <= j < i ==> children[j].label != label,
    ensures
        child_index(children, label) == Some(i),
{
    lemma_child_index(children, label);
}

pub proof fn lemma_child_index_none<H>(children: Seq<RouteNode<H>>, label: Seq<char>)
    requires
        forall|j: int| 0 <= j < children.len() ==> children[j].label != label,
    ensures
        child_index(children, label) is None,
{
    lemma_child_index(children, label);
}

} // verus!
