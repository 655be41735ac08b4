//! The route table: a tree keyed by path segments. Each node holds literal
//! children, at most one parameter name, and a handler per method.
use vstd::prelude::*;
use crate::request::{Method, method_name};
use crate::text::{split_on, string_views, char_views, chars_of, split_chars, text_of, text_eq};
use crate::route_model::{RouteNode, Lookup, leaf, child_index, lookup, terminal, inserted, non_empty,
    path_segments, lemma_child_index_at, lemma_child_index_none};
use crate::text_map::{TextMap, pairs_map, is_last_key, lemma_pairs_map_last, lemma_pairs_map_absent,
    lemma_pairs_map_update, lemma_pairs_map_push};

verus! {

pub enum RouterError {
    /// No literal child and no parameter matched a segment, or a parameter
    /// capture was followed by more segments.
    MatchingRouteError(String),
    /// The path matched but no handler is registered for the method.
    MatchingHandlerError(String),
}

pub open spec fn no_route_message(segment: Seq<char>) -> Seq<char> {
    "Route not found in segment '"@ + segment + "'"@
}

pub open spec fn past_param_message() -> Seq<char> {
    "path continues past a parameter segment, unsupported"@
}

/// `r` is what `match_route` answers when the abstract lookup gives `l`.
pub open spec fn answers<'a, H>(l: Lookup<H>, m: Method, r: Result<RouteResponse<'a, H>, RouterError>) -> bool {
    match l {
        Lookup::Found(h, p) => r matches Ok(rr) && *rr.handler == h && rr.params@ == p,
        Lookup::NoRoute(s) => r matches Err(RouterError::MatchingRouteError(msg)) && msg@
            == no_route_message(s),
        Lookup::PastParam => r matches Err(RouterError::MatchingRouteError(msg)) && msg@
            == past_param_message(),
        Lookup::NoHandler => r matches Err(RouterError::MatchingHandlerError(msg)) && msg@
            == method_name(m),
    }
}

/// A node of the tree.
pub struct Node<H> {
    prefix: String,
    childrens: Vec<Node<H>>,
    handlers: Vec<(Method, H)>,
    param_key: Option<String>,
}

/// A successful match: the handler and the captured parameters.
pub struct RouteResponse<'a, H> {
    pub params: TextMap,
    pub handler: &'a H,
}

pub struct RadixTree<H> {
    pub root: Node<H>,
}

impl<H> View for Node<H> {
    type V = RouteNode<H>;

    closed spec fn view(&self) -> RouteNode<H> {
        self.model()
    }
}

impl<H> Node<H> {
    closed spec fn model(&self) -> RouteNode<H>
        decreases self,
    {
        RouteNode {
            label: self.prefix@,
            children: Seq::new(
                self.childrens@.len(),
                |i: int|
                    if 0 <= i < self.childrens@.len() {
                        self.childrens@[i].model()
                    } else {
                        leaf(Seq::empty())
                    },
            ),
            handlers: pairs_map(self.handlers@),
            param: match self.param_key {
                Some(k) => Some(k@),
                None => None,
            },
        }
    }
}

impl<H> Node<H> {
    proof fn lemma_view(&self)
        ensures
            self@.label == self.prefix@,
            self@.children.len() == self.childrens@.len(),
            forall|i: int| 0 <= i < self.childrens@.len() ==> #[trigger] self@.children[i] == self.childrens@[i]@,
    {
    }
}

impl<H> RadixTree<H> {
    pub fn new() -> (t: Self)
        ensures
            t.root@ == leaf::<H>("/"@),
    {
        RadixTree { root: Node::new() }
    }
}

/// The segments of `path`.
pub fn path_segments_of(path: &str) -> (r: Vec<String>)
    ensures
        string_views(r@) == path_segments(path@),
{
    let cs = chars_of(path);
    let pieces = split_chars(&cs, '/');
    let ghost all = char_views(pieces@);
    let mut out: Vec<String> = Vec::new();
    let mut k: usize = 0;
    while k < pieces.len()
        invariant
            k <= pieces@.len(),
            all == char_views(pieces@),
            all == split_on(path@, '/'),
            string_views(out@) == non_empty(all.take(k as int)),
        decreases pieces.len() - k,
    {
        let ghost before = out@;
        assert(all.take(k + 1).drop_last() =~= all.take(k as int));
        let n = pieces[k].len();
        assert(all[k as int] == pieces@[k as int]@);
        if n > 0 {
            let s = text_of(&pieces[k], 0, n);
            assert(pieces@[k as int]@.subrange(0, n as int) =~= pieces@[k as int]@);
            out.push(s);
            assert(string_views(out@) =~= string_views(before).push(all[k as int]));
        }
        k += 1;
    }
    assert(all.take(pieces@.len() as int) =~= all);
    out
}

impl<H> Node<H> {
    fn new() -> (n: Self)
        ensures
            n@ == leaf::<H>("/"@),
    {
        let n = Node {
            prefix: String::from_str("/"),
            childrens: Vec::new(),
            handlers: Vec::new(),
            param_key: None,
        };
        assert(n@.children =~= Seq::empty());
        n
    }

    /// The position of the first child labelled `label`.
    fn child_position(&self, label: &str) -> (r: Option<usize>)
        ensures
            r matches Some(p) ==> child_index(self@.children, label@) == Some(p as int) && p
                < self.childrens@.len(),
            r is None ==> child_index(self@.children, label@) is None,
    {
        proof {
            self.lemma_view();
        }
        let mut j: usize = 0;
        while j < self.childrens.len()
            invariant
                j <= self.childrens@.len(),
                self@.children.len() == self.childrens@.len(),
                forall|q: int| 0 <= q < self.childrens@.len() ==> #[trigger] self@.children[q] == self.childrens@[q]@,
                forall|q: int| 0 <= q < j ==> self@.children[q].label != label@,
            decreases self.childrens.len() - j,
        {
            proof {
                self.childrens@[j as int].lemma_view();
            }
            if text_eq(self.childrens[j].prefix.as_str(), label) {
                proof {
                    lemma_child_index_at(self@.children, label@, j as int);
                }
                return Some(j);
            }
            j += 1;
        }
        proof {
            lemma_child_index_none(self@.children, label@);
        }
        None
    }

    /// The position of the handler registered for `method`, if any.
    fn handler_position(&self, method: Method) -> (r: Option<usize>)
        ensures
            r is None <==> !self@.handlers.contains_key(method),
            r matches Some(j) ==> is_last_key(self.handlers@, method, j as int)
                && self@.handlers[method] == self.handlers@[j as int].1,
    {
        let mut j: usize = self.handlers.len();
        while j > 0
            invariant
                j <= self.handlers@.len(),
                forall|q: int| j <= q < self.handlers@.len() ==> self.handlers@[q].0 != method,
            decreases j,
        {
            j -= 1;
            if self.handlers[j].0 == method {
                proof {
                    lemma_pairs_map_last(self.handlers@, method, j as int);
                }
                return Some(j);
            }
        }
        proof {
            lemma_pairs_map_absent(self.handlers@, method);
        }
        None
    }

    fn set_handler(&mut self, method: Method, handler: H)
        ensures
            final(self)@ == (RouteNode { handlers: old(self)@.handlers.insert(method, handler), ..old(self)@ }),
    {
        let ghost s = self.handlers@;
        match self.handler_position(method) {
            Some(j) => {
                proof {
                    lemma_pairs_map_update(s, method, j as int, handler);
                }
                self.handlers.set(j, (method, handler));
            },
            None => {
                proof {
                    lemma_pairs_map_push(s, method, handler);
                }
                self.handlers.push((method, handler));
            },
        }
        assert(self@.children =~= old(self)@.children);
    }

    fn insert_at(&mut self, segs: &Vec<String>, i: usize, method: Method, handler: H)
        requires
            i <= segs@.len(),
        ensures
            final(self)@ == inserted(
                old(self)@,
                string_views(segs@).subrange(i as int, segs@.len() as int),
                method,
                handler,
            ),
        decreases segs@.len() - i,
    {
        let ghost all = string_views(segs@);
        let ghost rest = all.subrange(i as int, segs@.len() as int);
        if i == segs.len() {
            self.set_handler(method, handler);
            return;
        }
        assert(rest.drop_first() =~= all.subrange(i + 1, segs@.len() as int));
        assert(rest[0] == segs@[i as int]@);
        let seg = &segs[i];
        let cs = chars_of(seg.as_str());
        if cs.len() > 0 && cs[0] == ':' {
            let name = text_of(&cs, 1, cs.len());
            assert(cs@.subrange(1, cs@.len() as int) =~= rest[0].drop_first());
            self.param_key = Some(name);
            assert(self@.children =~= old(self)@.children);
            self.insert_at(segs, i + 1, method, handler);
        } else {
            match self.child_position(seg.as_str()) {
                Some(pos) => {
                    let ghost old_children = self@.children;
                    proof {
                        old(self).lemma_view();
                    }
                    self.childrens[pos].insert_at(segs, i + 1, method, handler);
                    proof {
                        self.lemma_view();
                    }
                    assert(self@.children =~= old_children.update(
                        pos as int,
                        inserted(old_children[pos as int], rest.drop_first(), method, handler),
                    ));
                },
                None => {
                    let mut child = Node {
                        prefix: seg.clone(),
                        childrens: Vec::new(),
                        handlers: Vec::new(),
                        param_key: None,
                    };
                    assert(child@ == leaf::<H>(rest[0])) by {
                        assert(child@.children =~= Seq::<RouteNode<H>>::empty());
                    }
                    child.insert_at(segs, i + 1, method, handler);
                    let ghost old_children = self@.children;
                    proof {
                        self.lemma_view();
                    }
                    self.childrens.push(child);
                    proof {
                        self.lemma_view();
                    }
                    assert(self@.children =~= old_children.push(
                        inserted(leaf(rest[0]), rest.drop_first(), method, handler),
                    ));
                },
            }
        }
    }

    /// Registers `handler` for `method` on `path`, replacing any handler
    /// registered before for the same method at the node the path reaches.
    pub fn insert(&mut self, path: &str, method: Method, handler: H)
        ensures
            final(self)@ == inserted(old(self)@, path_segments(path@), method, handler),
    {
        let segs = path_segments_of(path);
        assert(string_views(segs@).subrange(0, segs@.len() as int) =~= string_views(segs@));
        self.insert_at(&segs, 0, method, handler);
    }

    /// The handler for `method` at this node, with `params` as the captures.
    fn resolve(&self, method: Method, params: TextMap) -> (r: Result<RouteResponse<'_, H>, RouterError>)
        ensures
            answers(terminal(self@, method, params@), method, r),
    {
        match self.handler_position(method) {
            Some(j) => Ok(RouteResponse { params, handler: &self.handlers[j].1 }),
            None => Err(RouterError::MatchingHandlerError(String::from_str(method.name()))),
        }
    }

    /// Resolves `path` and `method` to a handler and the captured parameters.
    pub fn match_route(&self, path: &str, method: Method) -> (r: Result<RouteResponse<'_, H>, RouterError>)
        ensures
            answers(lookup(self@, path_segments(path@), method), method, r),
    {
        let segs = path_segments_of(path);
        let ghost all = string_views(segs@);
        let mut current: &Node<H> = self;
        let mut i: usize = 0;
        assert(all.subrange(0, all.len() as int) =~= all);
        while i < segs.len()
            invariant
                i <= segs@.len(),
                all == string_views(segs@),
                all == path_segments(path@),
                lookup(self@, all, method) == lookup(
                    current@,
                    all.subrange(i as int, all.len() as int),
                    method,
                ),
            decreases segs.len() - i,
        {
            let ghost rest = all.subrange(i as int, all.len() as int);
            assert(rest[0] == segs@[i as int]@);
            assert(rest.drop_first() =~= all.subrange(i + 1, all.len() as int));
            proof {
                current.lemma_view();
            }
            match current.child_position(segs[i].as_str()) {
                Some(pos) => {
                    current = &current.childrens[pos];
                    i += 1;
                },
                None => {
                    match &current.param_key {
                        Some(k) => {
                            if i + 1 < segs.len() {
                                return Err(
                                    RouterError::MatchingRouteError(
                                        String::from_str(
                                            "path continues past a parameter segment, unsupported",
                                        ),
                                    ),
                                );
                            }
                            let mut params = TextMap::new();
                            params.insert(k.clone(), segs[i].clone());
                            return current.resolve(method, params);
                        },
                        None => {
                            let mut msg = String::from_str("Route not found in segment '");
                            msg.append(segs[i].as_str());
                            msg.append("'");
                            return Err(RouterError::MatchingRouteError(msg));
                        },
                    }
                },
            }
        }
        current.resolve(method, TextMap::new())
    }
}

} // verus!
