//! Laws of the route table, proved over the abstract model: the handler
//! registered last for a literal path and method is the one matched, and
//! unregistered paths and methods fail with the matching error.
use vstd::prelude::*;
use crate::request::Method;
use crate::route_model::{RouteNode, Lookup, leaf, child_index, lookup, terminal, inserted, literal_part,
    all_literal, is_param_segment, path_segments, lemma_child_index, lemma_child_index_at,
    lemma_child_index_none};

verus! {

pub proof fn lemma_child_index_update<H>(children: Seq<RouteNode<H>>, j: int, c: RouteNode<H>, label: Seq<char>)
    requires
        0 <= j < children.len(),
        c.label == children[j].label,
    ensures
        child_index(children.update(j, c), label) == child_index(children, label),
{
    let u = children.update(j, c);
    lemma_child_index(children, label);
    assert forall|q: int| 0 <= q < u.len() implies #[trigger] u[q].label == children[q].label by {}
    match child_index(children, label) {
        Some(i) => lemma_child_index_at(u, label, i),
        None => lemma_child_index_none(u, label),
    }
}

pub proof fn lemma_child_index_push<H>(children: Seq<RouteNode<H>>, c: RouteNode<H>, label: Seq<char>)
    ensures
        child_index(children, label) is Some ==> child_index(children.push(c), label) == child_index(
            children,
            label,
        ),
        child_index(children, label) is None && c.label == label ==> child_index(children.push(c), label)
            == Some(children.len() as int),
        child_index(children, label) is None && c.label != label ==> child_index(children.push(c), label)
            is None,
{
    let u = children.push(c);
    lemma_child_index(children, label);
    assert forall|q: int| 0 <= q < children.len() implies #[trigger] u[q] == children[q] by {}
    match child_index(children, label) {
        Some(i) => lemma_child_index_at(u, label, i),
        None => {
            if c.label == label {
                lemma_child_index_at(u, label, children.len() as int);
            } else {
                lemma_child_index_none(u, label);
            }
        },
    }
}

/// Registration never changes a node's own label.
pub proof fn lemma_inserted_label<H>(t: RouteNode<H>, segs: Seq<Seq<char>>, m: Method, h: H)
    ensures
        inserted(t, segs, m, h).label == t.label,
    decreases segs.len(),
{
    if segs.len() > 0 && is_param_segment(segs[0]) {
        lemma_inserted_label(RouteNode { param: Some(segs[0].drop_first()), ..t }, segs.drop_first(), m, h);
    }
}

/// A lookup that succeeds without captures went through a literal child.
proof fn lemma_plain_match_descends<H>(t: RouteNode<H>, segs: Seq<Seq<char>>, m: Method, h: H)
    requires
        segs.len() > 0,
        lookup(t, segs, m) == Lookup::Found(h, Map::<Seq<char>, Seq<char>>::empty()),
    ensures
        child_index(t.children, segs[0]) is Some,
        lookup(t.children[child_index(t.children, segs[0])->0], segs.drop_first(), m) == Lookup::Found(
            h,
            Map::<Seq<char>, Seq<char>>::empty(),
        ),
{
    if child_index(t.children, segs[0]) is None {
        if let Some(k) = t.param {
            assert(map![k => segs[0]].contains_key(k));
            assert(!Map::<Seq<char>, Seq<char>>::empty().contains_key(k));
        }
    }
}

/// Registering a literal path and then matching it with the same method
/// yields the handler just registered, with no captured parameters.
pub proof fn lemma_insert_then_lookup<H>(t: RouteNode<H>, segs: Seq<Seq<char>>, m: Method, h: H)
    requires
        all_literal(segs),
    ensures
        lookup(inserted(t, segs, m, h), segs, m) == Lookup::Found(h, Map::<Seq<char>, Seq<char>>::empty()),
    decreases segs.len(),
{
    if segs.len() > 0 {
        let s = segs[0];
        let rest = segs.drop_first();
        assert(!is_param_segment(segs[0]));
        assert forall|k: int| 0 <= k < rest.len() implies !is_param_segment(#[trigger] rest[k]) by {
            assert(rest[k] == segs[k + 1]);
        }
        lemma_child_index(t.children, s);
        match child_index(t.children, s) {
            Some(i) => {
                let c = inserted(t.children[i], rest, m, h);
                lemma_inserted_label(t.children[i], rest, m, h);
                lemma_child_index_update(t.children, i, c, s);
                lemma_insert_then_lookup(t.children[i], rest, m, h);
            },
            None => {
                let c = inserted(leaf::<H>(s), rest, m, h);
                lemma_inserted_label(leaf::<H>(s), rest, m, h);
                lemma_child_index_push(t.children, c, s);
                lemma_insert_then_lookup(leaf::<H>(s), rest, m, h);
            },
        }
    }
}

/// A literal route that matches without captures keeps its handler when
/// another registration is made, unless that registration has the same
/// method and its literal segments are exactly the route's segments.
pub proof fn lemma_insert_keeps_lookup<H>(
    t: RouteNode<H>,
    segs: Seq<Seq<char>>,
    m: Method,
    h: H,
    segs2: Seq<Seq<char>>,
    m2: Method,
    h2: H,
)
    requires
        lookup(t, segs, m) == Lookup::Found(h, Map::<Seq<char>, Seq<char>>::empty()),
        !(m2 == m && literal_part(segs2) == segs),
    ensures
        lookup(inserted(t, segs2, m2, h2), segs, m) == Lookup::Found(h, Map::<Seq<char>, Seq<char>>::empty()),
    decreases segs2.len(),
{
    let t2 = inserted(t, segs2, m2, h2);
    if segs2.len() == 0 {
        if segs.len() > 0 {
            lemma_plain_match_descends(t, segs, m, h);
        } else {
            assert(literal_part(segs2) =~= segs);
        }
    } else if is_param_segment(segs2[0]) {
        let t1 = RouteNode { param: Some(segs2[0].drop_first()), ..t };
        if segs.len() > 0 {
            lemma_plain_match_descends(t, segs, m, h);
        }
        lemma_insert_keeps_lookup(t1, segs, m, h, segs2.drop_first(), m2, h2);
    } else if segs.len() > 0 {
        let s2 = segs2[0];
        let rest2 = segs2.drop_first();
        let rest = segs.drop_first();
        lemma_plain_match_descends(t, segs, m, h);
        let i = child_index(t.children, segs[0])->0;
        lemma_child_index(t.children, segs[0]);
        lemma_child_index(t.children, s2);
        assert(segs =~= seq![segs[0]] + rest);
        match child_index(t.children, s2) {
            Some(j) => {
                let c = inserted(t.children[j], rest2, m2, h2);
                lemma_inserted_label(t.children[j], rest2, m2, h2);
                lemma_child_index_update(t.children, j, c, segs[0]);
                if segs[0] == s2 {
                    lemma_insert_keeps_lookup(t.children[j], rest, m, h, rest2, m2, h2);
                }
            },
            None => {
                let c = inserted(leaf::<H>(s2), rest2, m2, h2);
                lemma_child_index_push(t.children, c, segs[0]);
            },
        }
    }
}

/// The tree obtained by registering each `(path, method, handler)` of
/// `regs` in order, starting from `t`.
pub open spec fn built<H>(t: RouteNode<H>, regs: Seq<(Seq<char>, Method, H)>) -> RouteNode<H>
    decreases regs.len(),
{
    if regs.len() == 0 {
        t
    } else {
        inserted(built(t, regs.drop_last()), path_segments(regs.last().0), regs.last().1, regs.last().2)
    }
}

/// For a registered method and literal path, matching returns the handler
/// registered last for that pair: later registrations are of other pairs,
/// that is of another method or of a path whose literal segments differ.
pub proof fn lemma_last_registration_wins<H>(
    t: RouteNode<H>,
    regs: Seq<(Seq<char>, Method, H)>,
    k: int,
)
    requires
        0 <= k < regs.len(),
        all_literal(path_segments(regs[k].0)),
        forall|j: int|
            k < j < regs.len() ==> !(#[trigger] regs[j].1 == regs[k].1 && literal_part(
                path_segments(regs[j].0),
            ) == path_segments(regs[k].0)),
    ensures
        lookup(built(t, regs), path_segments(regs[k].0), regs[k].1) == Lookup::Found(
            regs[k].2,
            Map::<Seq<char>, Seq<char>>::empty(),
        ),
    decreases regs.len(),
{
    let n = regs.len() - 1;
    let prev = regs.drop_last();
    if k == n {
        lemma_insert_then_lookup(built(t, prev), path_segments(regs[k].0), regs[k].1, regs[k].2);
    } else {
        assert(prev[k] == regs[k]);
        assert forall|j: int| k < j < prev.len() implies !(#[trigger] prev[j].1 == prev[k].1 && literal_part(
            path_segments(prev[j].0),
        ) == path_segments(prev[k].0)) by {
            assert(prev[j] == regs[j]);
        }
        lemma_last_registration_wins(t, prev, k);
        assert(regs.last() == regs[n]);
        lemma_insert_keeps_lookup(
            built(t, prev),
            path_segments(regs[k].0),
            regs[k].1,
            regs[k].2,
            path_segments(regs[n].0),
            regs[n].1,
            regs[n].2,
        );
    }
}

/// The node that `segs` leads to through literal children alone.
pub open spec fn walk<H>(t: RouteNode<H>, segs: Seq<Seq<char>>) -> Option<RouteNode<H>>
    decreases segs.len(),
{
    if segs.len() == 0 {
        Some(t)
    } else {
        match child_index(t.children, segs[0]) {
            Some(i) => walk(t.children[i], segs.drop_first()),
            None => None,
        }
    }
}

/// Where the literal walk succeeds, matching consults that node's handlers.
pub proof fn lemma_walk_lookup<H>(t: RouteNode<H>, segs: Seq<Seq<char>>, m: Method)
    requires
        walk(t, segs) is Some,
    ensures
        lookup(t, segs, m) == terminal(walk(t, segs)->0, m, Map::<Seq<char>, Seq<char>>::empty()),
    decreases segs.len(),
{
    if segs.len() > 0 {
        let i = child_index(t.children, segs[0])->0;
        lemma_walk_lookup(t.children[i], segs.drop_first(), m);
    }
}

/// Registering a literal path creates the nodes that lead to it.
pub proof fn lemma_insert_reaches<H>(t: RouteNode<H>, segs: Seq<Seq<char>>, m: Method, h: H)
    requires
        all_literal(segs),
    ensures
        walk(inserted(t, segs, m, h), segs) is Some,
    decreases segs.len(),
{
    if segs.len() > 0 {
        let s = segs[0];
        let rest = segs.drop_first();
        assert(!is_param_segment(segs[0]));
        assert forall|k: int| 0 <= k < rest.len() implies !is_param_segment(#[trigger] rest[k]) by {
            assert(rest[k] == segs[k + 1]);
        }
        lemma_child_index(t.children, s);
        match child_index(t.children, s) {
            Some(i) => {
                let c = inserted(t.children[i], rest, m, h);
                lemma_inserted_label(t.children[i], rest, m, h);
                lemma_child_index_update(t.children, i, c, s);
                lemma_insert_reaches(t.children[i], rest, m, h);
            },
            None => {
                let c = inserted(leaf::<H>(s), rest, m, h);
                lemma_inserted_label(leaf::<H>(s), rest, m, h);
                lemma_child_index_push(t.children, c, s);
                lemma_insert_reaches(leaf::<H>(s), rest, m, h);
            },
        }
    }
}

/// After registering `segs2`, a node reached by `segs` that was reached
/// before is still reached, and each method it has a handler for either
/// had one there before or is `m2` with `segs` the literal part of `segs2`.
pub proof fn lemma_inserted_handlers<H>(
    t: RouteNode<H>,
    segs: Seq<Seq<char>>,
    segs2: Seq<Seq<char>>,
    m2: Method,
    h2: H,
)
    ensures
        walk(t, segs) is Some ==> walk(inserted(t, segs2, m2, h2), segs) is Some,
        walk(inserted(t, segs2, m2, h2), segs) is Some ==> forall|m: Method|
            #[trigger] walk(inserted(t, segs2, m2, h2), segs)->0.handlers.contains_key(m) ==> (m == m2
                && literal_part(segs2) == segs) || (walk(t, segs) is Some && walk(
                t,
                segs,
            )->0.handlers.contains_key(m)),
    decreases segs2.len(),
{
    let t2 = inserted(t, segs2, m2, h2);
    if segs2.len() == 0 {
        if segs.len() == 0 {
            assert(literal_part(segs2) =~= segs);
        }
    } else if is_param_segment(segs2[0]) {
        let t1 = RouteNode { param: Some(segs2[0].drop_first()), ..t };
        lemma_inserted_handlers(t1, segs, segs2.drop_first(), m2, h2);
    } else if segs.len() > 0 {
        let s2 = segs2[0];
        let rest2 = segs2.drop_first();
        let rest = segs.drop_first();
        lemma_child_index(t.children, segs[0]);
        lemma_child_index(t.children, s2);
        assert(segs =~= seq![segs[0]] + rest);
        match child_index(t.children, s2) {
            Some(j) => {
                let c = inserted(t.children[j], rest2, m2, h2);
                lemma_inserted_label(t.children[j], rest2, m2, h2);
                lemma_child_index_update(t.children, j, c, segs[0]);
                if segs[0] == s2 {
                    lemma_inserted_handlers(t.children[j], rest, rest2, m2, h2);
                }
            },
            None => {
                let c = inserted(leaf::<H>(s2), rest2, m2, h2);
                lemma_inserted_label(leaf::<H>(s2), rest2, m2, h2);
                lemma_child_index_push(t.children, c, segs[0]);
                if segs[0] == s2 {
                    lemma_inserted_handlers(leaf::<H>(s2), rest, rest2, m2, h2);
                    if rest.len() > 0 {
                        lemma_child_index_none(leaf::<H>(s2).children, rest[0]);
                    }
                }
            },
        }
    }
}

/// In a table built from the empty one, a node reached by `segs` has a
/// handler for `m` only if some registration was for `m` on a path whose
/// literal segments are `segs`.
pub proof fn lemma_handler_registered<H>(
    regs: Seq<(Seq<char>, Method, H)>,
    segs: Seq<Seq<char>>,
    m: Method,
)
    requires
        walk(built(leaf::<H>("/"@), regs), segs) is Some,
        walk(built(leaf::<H>("/"@), regs), segs)->0.handlers.contains_key(m),
    ensures
        exists|j: int|
            0 <= j < regs.len() && #[trigger] regs[j].1 == m && literal_part(path_segments(regs[j].0))
                == segs,
    decreases regs.len(),
{
    let t0 = leaf::<H>("/"@);
    if regs.len() == 0 {
        if segs.len() > 0 {
            lemma_child_index_none(t0.children, segs[0]);
        }
    } else {
        let prev = regs.drop_last();
        let n = regs.len() - 1;
        let t = built(t0, prev);
        assert(regs.last() == regs[n]);
        lemma_inserted_handlers(t, segs, path_segments(regs[n].0), regs[n].1, regs[n].2);
        if !(m == regs[n].1 && literal_part(path_segments(regs[n].0)) == segs) {
            lemma_handler_registered(prev, segs, m);
            let j = choose|j: int|
                0 <= j < prev.len() && #[trigger] prev[j].1 == m && literal_part(path_segments(prev[j].0))
                    == segs;
            assert(regs[j] == prev[j]);
        }
    }
}

/// Matching a registered literal path with a method that was never
/// registered for that path fails with the method-not-found outcome.
pub proof fn lemma_unregistered_method<H>(regs: Seq<(Seq<char>, Method, H)>, k: int, m: Method)
    requires
        0 <= k < regs.len(),
        all_literal(path_segments(regs[k].0)),
        forall|j: int|
            0 <= j < regs.len() ==> !(#[trigger] regs[j].1 == m && literal_part(path_segments(regs[j].0))
                == path_segments(regs[k].0)),
    ensures
        lookup(built(leaf::<H>("/"@), regs), path_segments(regs[k].0), m) == Lookup::<H>::NoHandler,
    decreases regs.len(),
{
    let t0 = leaf::<H>("/"@);
    let segs = path_segments(regs[k].0);
    lemma_registered_reaches(regs, k);
    lemma_walk_lookup(built(t0, regs), segs, m);
    if walk(built(t0, regs), segs)->0.handlers.contains_key(m) {
        lemma_handler_registered(regs, segs, m);
    }
}

/// A registered literal path stays reachable through later registrations.
pub proof fn lemma_registered_reaches<H>(regs: Seq<(Seq<char>, Method, H)>, k: int)
    requires
        0 <= k < regs.len(),
        all_literal(path_segments(regs[k].0)),
    ensures
        walk(built(leaf::<H>("/"@), regs), path_segments(regs[k].0)) is Some,
    decreases regs.len(),
{
    let t0 = leaf::<H>("/"@);
    let n = regs.len() - 1;
    let prev = regs.drop_last();
    assert(regs.last() == regs[n]);
    if k == n {
        lemma_insert_reaches(built(t0, prev), path_segments(regs[k].0), regs[k].1, regs[k].2);
    } else {
        assert(prev[k] == regs[k]);
        lemma_registered_reaches(prev, k);
        lemma_inserted_handlers(
            built(t0, prev),
            path_segments(regs[k].0),
            path_segments(regs[n].0),
            regs[n].1,
            regs[n].2,
        );
    }
}

pub open spec fn is_prefix(a: Seq<Seq<char>>, b: Seq<Seq<char>>) -> bool {
    a.len() <= b.len() && b.take(a.len() as int) == a
}

/// After registering a literal path, a node reached by `segs` is either a
/// node reached before, with the same parameter, or a new node on the
/// registered path, with no parameter.
pub proof fn lemma_inserted_shape<H>(
    t: RouteNode<H>,
    segs: Seq<Seq<char>>,
    segs2: Seq<Seq<char>>,
    m2: Method,
    h2: H,
)
    requires
        all_literal(segs2),
        walk(inserted(t, segs2, m2, h2), segs) is Some,
    ensures
        (walk(t, segs) is Some && walk(inserted(t, segs2, m2, h2), segs)->0.param == walk(t, segs)->0.param)
            || (is_prefix(segs, segs2) && walk(inserted(t, segs2, m2, h2), segs)->0.param is None),
    decreases segs2.len(),
{
    if segs2.len() > 0 {
        assert(!is_param_segment(segs2[0]));
    }
    if segs2.len() > 0 && segs.len() > 0 {
        let s2 = segs2[0];
        let rest2 = segs2.drop_first();
        let rest = segs.drop_first();
        assert forall|k: int| 0 <= k < rest2.len() implies !is_param_segment(#[trigger] rest2[k]) by {
            assert(rest2[k] == segs2[k + 1]);
        }
        lemma_child_index(t.children, segs[0]);
        lemma_child_index(t.children, s2);
        assert(segs[0] == s2 && is_prefix(rest, rest2) ==> is_prefix(segs, segs2)) by {
            if segs[0] == s2 && is_prefix(rest, rest2) {
                assert(segs2.take(segs.len() as int) =~= seq![s2] + rest2.take(rest.len() as int));
                assert(segs =~= seq![segs[0]] + rest);
            }
        }
        match child_index(t.children, s2) {
            Some(j) => {
                let c = inserted(t.children[j], rest2, m2, h2);
                lemma_inserted_label(t.children[j], rest2, m2, h2);
                lemma_child_index_update(t.children, j, c, segs[0]);
                if segs[0] == s2 {
                    lemma_inserted_shape(t.children[j], rest, rest2, m2, h2);
                    assert(walk(inserted(t, segs2, m2, h2), segs) == walk(c, rest));
                    assert(walk(t, segs) == walk(t.children[j], rest));
                } else {
                    assert(walk(inserted(t, segs2, m2, h2), segs) == walk(t, segs));
                }
            },
            None => {
                let c = inserted(leaf::<H>(s2), rest2, m2, h2);
                lemma_inserted_label(leaf::<H>(s2), rest2, m2, h2);
                lemma_child_index_push(t.children, c, segs[0]);
                if segs[0] == s2 {
                    lemma_inserted_shape(leaf::<H>(s2), rest, rest2, m2, h2);
                    if rest.len() > 0 {
                        lemma_child_index_none(leaf::<H>(s2).children, rest[0]);
                    } else {
                        assert(rest2.take(0) =~= rest);
                    }
                    assert(walk(inserted(t, segs2, m2, h2), segs) == walk(c, rest));
                } else {
                    assert(walk(inserted(t, segs2, m2, h2), segs) == walk(t, segs));
                }
            },
        }
    }
}

pub open spec fn literal_registrations<H>(regs: Seq<(Seq<char>, Method, H)>) -> bool {
    forall|j: int| 0 <= j < regs.len() ==> all_literal(path_segments(#[trigger] regs[j].0))
}

/// In a table built from literal registrations, every node has no
/// parameter, and a non-root node lies on some registered path.
pub proof fn lemma_literal_table<H>(regs: Seq<(Seq<char>, Method, H)>, segs: Seq<Seq<char>>)
    requires
        literal_registrations(regs),
        walk(built(leaf::<H>("/"@), regs), segs) is Some,
    ensures
        walk(built(leaf::<H>("/"@), regs), segs)->0.param is None,
        segs.len() == 0 || exists|j: int|
            0 <= j < regs.len() && is_prefix(segs, path_segments(#[trigger] regs[j].0)),
    decreases regs.len(),
{
    let t0 = leaf::<H>("/"@);
    if regs.len() == 0 {
        if segs.len() > 0 {
            lemma_child_index_none(t0.children, segs[0]);
        }
    } else {
        let prev = regs.drop_last();
        let n = regs.len() - 1;
        assert(regs.last() == regs[n]);
        assert(all_literal(path_segments(regs[n].0)));
        assert forall|j: int| 0 <= j < prev.len() implies all_literal(path_segments(#[trigger] prev[j].0)) by {
            assert(prev[j] == regs[j]);
        }
        lemma_inserted_shape(built(t0, prev), segs, path_segments(regs[n].0), regs[n].1, regs[n].2);
        if walk(built(t0, prev), segs) is Some {
            lemma_literal_table(prev, segs);
            if segs.len() > 0 {
                let j = choose|j: int| 0 <= j < prev.len() && is_prefix(segs, path_segments(#[trigger] prev[j].0));
                assert(prev[j] == regs[j]);
            }
        }
    }
}

/// Matching fails with route-not-found when the literal walk breaks off
/// and no node passed on the way has a parameter.
pub proof fn lemma_walk_breaks<H>(t: RouteNode<H>, segs: Seq<Seq<char>>, m: Method)
    requires
        walk(t, segs) is None,
        forall|i: int| 0 <= i < segs.len() ==> (#[trigger] walk(t, segs.take(i))) is Some ==> walk(
            t,
            segs.take(i),
        )->0.param is None,
    ensures
        lookup(t, segs, m) is NoRoute,
    decreases segs.len(),
{
    assert(segs.take(0) =~= Seq::<Seq<char>>::empty());
    assert(walk(t, segs.take(0)) == Some(t));
    if let Some(i) = child_index(t.children, segs[0]) {
        let c = t.children[i];
        let rest = segs.drop_first();
        assert forall|q: int| 0 <= q < rest.len() && (#[trigger] walk(c, rest.take(q))) is Some implies walk(
            c,
            rest.take(q),
        )->0.param is None by {
            let longer = segs.take(q + 1);
            assert(longer.drop_first() =~= rest.take(q));
            assert(longer[0] == segs[0]);
            assert(walk(t, longer) == walk(c, rest.take(q)));
        }
        lemma_walk_breaks(c, rest, m);
    }
}

/// In a table built from literal registrations, matching a path that is not
/// the root and is not a prefix of any registered path fails with the
/// route-not-found outcome.
pub proof fn lemma_unregistered_route<H>(regs: Seq<(Seq<char>, Method, H)>, path: Seq<char>, m: Method)
    requires
        literal_registrations(regs),
        path_segments(path).len() > 0,
        forall|j: int| 0 <= j < regs.len() ==> !is_prefix(path_segments(path), path_segments(#[trigger] regs[j].0)),
    ensures
        lookup(built(leaf::<H>("/"@), regs), path_segments(path), m) is NoRoute,
{
    let t = built(leaf::<H>("/"@), regs);
    let segs = path_segments(path);
    if walk(t, segs) is Some {
        lemma_literal_table(regs, segs);
    }
    assert forall|i: int| 0 <= i < segs.len() && (#[trigger] walk(t, segs.take(i))) is Some implies walk(
        t,
        segs.take(i),
    )->0.param is None by {
        lemma_literal_table(regs, segs.take(i));
    }
    lemma_walk_breaks(t, segs, m);
}

} // verus!
