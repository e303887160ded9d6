//! What holds of every walk over a registry.
use super::def_registry::{DefKey, DefNode, DefState, MsgState};
use super::def_registry;
use super::ns_mode;
use super::ns_mode::NsMode;
use crate::text;
use vstd::prelude::*;

verus! {

/// No two definitions stand under one key, no type is on the way twice, and
/// none that is on the way is registered.
pub open spec fn consistent(seen: Seq<(DefKey, Seq<char>)>, visiting: Seq<DefKey>) -> bool {
    &&& forall|i: int, j: int|
        0 <= i < j < seen.len() ==> (#[trigger] seen[i]).0 != (#[trigger] seen[j]).0
    &&& visiting.no_duplicates()
    &&& forall|i: int, j: int|
        0 <= i < seen.len() && 0 <= j < visiting.len() ==> (#[trigger] seen[i]).0
            != #[trigger] visiting[j]
}

/// A definition is found exactly where its key stands.
proof fn lemma_def_of(seen: Seq<(DefKey, Seq<char>)>, key: DefKey)
    ensures
        def_registry::def_of(seen, key) is None <==> forall|i: int|
            0 <= i < seen.len() ==> (#[trigger] seen[i]).0 != key,
        def_registry::def_of(seen, key) matches Some(text) ==> seen.contains((key, text)),
    decreases seen.len(),
{
    if seen.len() > 0 {
        let before = seen.drop_last();
        lemma_def_of(before, key);
        assert(forall|i: int| 0 <= i < before.len() ==> before[i] == seen[i]);
        assert(seen[seen.len() - 1] == seen.last());
        if let Some(text) = def_registry::def_of(before, key) {
            let i = choose|i: int| 0 <= i < before.len() && before[i] == (key, text);
            assert(seen[i] == (key, text));
        }
    }
}

/// A definition that is found is there.
pub(crate) proof fn lemma_def_is_there(seen: Seq<(DefKey, Seq<char>)>, key: DefKey)
    ensures
        def_registry::def_of(seen, key) matches Some(text) ==> seen.contains((key, text)),
{
    lemma_def_of(seen, key);
}

proof fn lemma_def_of_push(seen: Seq<(DefKey, Seq<char>)>, key: DefKey, text: Seq<char>)
    ensures
        forall|other: DefKey| #[trigger]
            def_registry::def_of(seen.push((key, text)), other) == if other == key {
                Some(text)
            } else {
                def_registry::def_of(seen, other)
            },
{
    assert(seen.push((key, text)).drop_last() =~= seen);
}

/// What a walk leaves as it was, and what it adds.
pub open spec fn extends(
    before: Seq<(DefKey, Seq<char>)>,
    after: Seq<(DefKey, Seq<char>)>,
    nodes: Seq<DefNode>,
) -> bool {
    &&& before.is_prefix_of(after)
    &&& forall|key: DefKey|
        def_registry::def_of(before, key) is Some ==> #[trigger] def_registry::def_of(after, key)
            == def_registry::def_of(before, key)
    &&& forall|i: int|
        0 <= i < nodes.len() ==> def_registry::def_of(after, (#[trigger] nodes[i]).key) == Some(
            nodes[i].text,
        )
}

/// A walk that succeeds leaves the way as it was, keeps every definition that
/// was there, registers each type of `nodes` under its own definition, and
/// keeps the registry consistent: every definition stands there once.
pub proof fn law_walk_extends_registry(s: DefState, nodes: Seq<DefNode>)
    requires
        def_registry::collected(s, nodes) is Some,
        consistent(s.defs, s.visiting),
    ensures
        ({
            let after = def_registry::collected(s, nodes)->0;
            &&& after.mode == s.mode
            &&& after.visiting == s.visiting
            &&& consistent(after.defs, after.visiting)
            &&& extends(s.defs, after.defs, nodes)
        }),
    decreases nodes,
{
    if nodes.len() > 0 {
        let front = nodes.drop_last();
        law_walk_extends_registry(s, front);
        let middle = def_registry::collected(s, front)->0;
        lemma_one_extends_registry(middle, nodes.last());
        let after = def_registry::collected_one(middle, nodes.last())->0;
        assert(extends(s.defs, after.defs, nodes)) by {
            assert forall|i: int| 0 <= i < nodes.len() implies def_registry::def_of(
                after.defs,
                (#[trigger] nodes[i]).key,
            ) == Some(nodes[i].text) by {
                if i < front.len() {
                    assert(front[i] == nodes[i]);
                } else {
                    assert(seq![nodes.last()][0] == nodes[i]);
                }
            }
            assert forall|key: DefKey|
                def_registry::def_of(s.defs, key) is Some implies #[trigger] def_registry::def_of(
                after.defs,
                key,
            ) == def_registry::def_of(s.defs, key) by {
                assert(def_registry::def_of(middle.defs, key) == def_registry::def_of(s.defs, key));
            }
        }
    }
}

proof fn lemma_one_extends_registry(s: DefState, node: DefNode)
    requires
        def_registry::collected_one(s, node) is Some,
        consistent(s.defs, s.visiting),
    ensures
        ({
            let after = def_registry::collected_one(s, node)->0;
            &&& after.mode == s.mode
            &&& after.visiting == s.visiting
            &&& consistent(after.defs, after.visiting)
            &&& extends(s.defs, after.defs, seq![node])
        }),
    decreases node,
{
    if s.admission(node.key, node.text) is Fresh {
        let inside = s.entered(node.key);
        lemma_def_of(s.defs, node.key);
        assert(consistent(inside.defs, inside.visiting));
        law_walk_extends_registry(inside, node.children);
        let inner = def_registry::collected(inside, node.children)->0;
        let after = inner.finished(node.key, node.text);
        assert(inner.visiting.last() == node.key);
        assert(after.visiting =~= s.visiting);
        lemma_def_of_push(inner.defs, node.key, node.text);
        assert(forall|i: int| 0 <= i < inner.defs.len() ==> (#[trigger] inner.defs[i]).0 != inner.visiting[inner.visiting.len() - 1]);
        assert(forall|j: int| 0 <= j < s.visiting.len() ==> inner.visiting[j] == s.visiting[j]);
        assert(consistent(after.defs, after.visiting));
        lemma_def_of(inner.defs, node.key);
    }
}

/// Each type of `order` stands behind all the types that its fields refer to.
pub open spec fn dependencies_first(order: Seq<DefNode>) -> bool {
    forall|i: int, c: int|
        0 <= i < order.len() && 0 <= c < order[i].children.len() ==> stands_before(
            order,
            i,
            (#[trigger] order[i].children[c]).key,
            order[i].children[c].text,
        )
}

/// Whether a type stands in `order` before position `i`, with its definition.
pub open spec fn stands_before(order: Seq<DefNode>, i: int, key: DefKey, text: Seq<char>) -> bool {
    exists|j: int| 0 <= j < i && (#[trigger] order[j]).key == key && order[j].text == text
}

/// Whether the type at position `i` is one of `roots`, or a field of a later one
/// refers to it.
pub open spec fn called_for(order: Seq<DefNode>, i: int, roots: Seq<DefNode>) -> bool {
    roots.contains(order[i]) || exists|j: int|
        i < j < order.len() && (#[trigger] order[j]).children.contains(order[i])
}

/// Each type of `order` is one of `roots`, or a field of a later one refers to
/// it.
pub open spec fn all_called_for(order: Seq<DefNode>, roots: Seq<DefNode>) -> bool {
    forall|i: int| #![trigger order[i]] 0 <= i < order.len() ==> called_for(order, i, roots)
}

pub open spec fn listed(order: Seq<DefNode>) -> Seq<(DefKey, Seq<char>)> {
    order.map_values(|node: DefNode| (node.key, node.text))
}

pub open spec fn distinct_keys(order: Seq<DefNode>) -> bool {
    forall|i: int, j: int|
        0 <= i < j < order.len() ==> (#[trigger] order[i]).key != (#[trigger] order[j]).key
}

proof fn lemma_order(
    s: DefState,
    nodes: Seq<DefNode>,
    order: Seq<DefNode>,
    roots: Seq<DefNode>,
) -> (out: Seq<DefNode>)
    requires
        def_registry::collected(s, nodes) is Some,
        consistent(s.defs, s.visiting),
        listed(order) == s.defs,
        dependencies_first(order),
        all_called_for(order, roots),
        forall|i: int| 0 <= i < nodes.len() ==> roots.contains(#[trigger] nodes[i]),
    ensures
        listed(out) == (def_registry::collected(s, nodes)->0).defs,
        dependencies_first(out),
        all_called_for(out, roots),
    decreases nodes,
{
    if nodes.len() == 0 {
        order
    } else {
        let part = nodes.drop_last();
        assert(forall|i: int| 0 <= i < part.len() ==> part[i] == nodes[i]);
        assert(nodes.last() == nodes[nodes.len() - 1]);
        let front = lemma_order(s, part, order, roots);
        law_walk_extends_registry(s, part);
        lemma_order_one(def_registry::collected(s, part)->0, nodes.last(), front, roots)
    }
}

proof fn lemma_order_one(
    s: DefState,
    node: DefNode,
    order: Seq<DefNode>,
    roots: Seq<DefNode>,
) -> (out: Seq<DefNode>)
    requires
        def_registry::collected_one(s, node) is Some,
        consistent(s.defs, s.visiting),
        listed(order) == s.defs,
        dependencies_first(order),
        all_called_for(order, roots),
        roots.contains(node),
    ensures
        listed(out) == (def_registry::collected_one(s, node)->0).defs,
        dependencies_first(out),
        all_called_for(out, roots),
    decreases node,
{
    if s.admission(node.key, node.text) is Fresh {
        let inside = s.entered(node.key);
        lemma_def_of(s.defs, node.key);
        law_walk_extends_registry(inside, node.children);
        let inner = def_registry::collected(inside, node.children)->0;
        let more = roots + node.children;
        assert forall|i: int| #![trigger order[i]] 0 <= i < order.len() implies called_for(
            order,
            i,
            more,
        ) by {
            if roots.contains(order[i]) {
                let r = choose|r: int| 0 <= r < roots.len() && roots[r] == order[i];
                assert(more[r] == order[i]);
            }
        }
        assert forall|c: int| 0 <= c < node.children.len() implies more.contains(
            #[trigger] node.children[c],
        ) by {
            assert(more[roots.len() + c] == node.children[c]);
        }
        let before = lemma_order(inside, node.children, order, more);
        let out = before.push(node);
        assert(listed(out) =~= listed(before).push((node.key, node.text)));
        assert forall|i: int, c: int|
            0 <= i < out.len() && 0 <= c < out[i].children.len() implies stands_before(
            out,
            i,
            (#[trigger] out[i].children[c]).key,
            out[i].children[c].text,
        ) by {
            let child = out[i].children[c];
            if i < before.len() {
                assert(out[i] == before[i]);
                assert(stands_before(
                    before,
                    i,
                    before[i].children[c].key,
                    before[i].children[c].text,
                ));
                let j = choose|j: int|
                    0 <= j < i && (#[trigger] before[j]).key == child.key && before[j].text
                        == child.text;
                assert(out[j] == before[j]);
            } else {
                assert(child == node.children[c]);
                assert(def_registry::def_of(inner.defs, child.key) == Some(child.text));
                lemma_def_of(inner.defs, child.key);
                let j = choose|j: int|
                    0 <= j < inner.defs.len() && inner.defs[j] == (child.key, child.text);
                assert(listed(before)[j] == inner.defs[j]);
                assert(out[j] == before[j]);
            }
        }
        assert forall|i: int| #![trigger out[i]] 0 <= i < out.len() implies called_for(
            out,
            i,
            roots,
        ) by {
            if i < before.len() {
                assert(out[i] == before[i]);
                assert(called_for(before, i, more));
                if more.contains(before[i]) {
                    let r = choose|r: int| 0 <= r < more.len() && more[r] == before[i];
                    if r < roots.len() {
                        assert(roots[r] == out[i]);
                    } else {
                        assert(node.children[r - roots.len()] == out[i]);
                        assert(out[before.len() as int].children.contains(out[i]));
                    }
                } else {
                    let j = choose|j: int|
                        i < j < before.len() && (#[trigger] before[j]).children.contains(before[i]);
                    assert(out[j] == before[j]);
                }
            }
        }
        out
    } else {
        order
    }
}

/// The definitions of a type's IDL are those of the types that were walked over:
/// of `nodes` and of what their fields lead to. Each is written once, and behind
/// the types that its fields refer to, with their own definitions. Each type of
/// `nodes` is among them.
pub proof fn law_idl_writes_each_type_once_dependencies_first(mode: NsMode, nodes: Seq<DefNode>)
    requires
        def_registry::collected(DefState::empty(mode), nodes) is Some,
    ensures
        ({
            let after = def_registry::collected(DefState::empty(mode), nodes)->0;
            &&& exists|order: Seq<DefNode>|
                #![trigger listed(order)]
                listed(order) == after.defs && all_called_for(order, nodes) && dependencies_first(
                    order,
                ) && distinct_keys(order)
            &&& forall|i: int|
                0 <= i < nodes.len() ==> after.defs.contains(
                    ((#[trigger] nodes[i]).key, nodes[i].text),
                )
        }),
{
    let s = DefState::empty(mode);
    let after = def_registry::collected(s, nodes)->0;
    law_walk_extends_registry(s, nodes);
    assert(listed(Seq::empty()) =~= s.defs);
    let order = lemma_order(s, nodes, Seq::empty(), nodes);
    assert(distinct_keys(order)) by {
        assert forall|i: int, j: int| 0 <= i < j < order.len() implies (#[trigger] order[i]).key
            != (#[trigger] order[j]).key by {
            assert(listed(order)[i] == after.defs[i]);
            assert(listed(order)[j] == after.defs[j]);
        }
    }
    assert forall|i: int| 0 <= i < nodes.len() implies after.defs.contains(
        ((#[trigger] nodes[i]).key, nodes[i].text),
    ) by {
        lemma_def_of(after.defs, nodes[i].key);
    }
}

/// A walk that succeeds leaves the mode and the way as they were, whatever was
/// registered before.
pub proof fn law_walk_keeps_mode_and_way(s: DefState, nodes: Seq<DefNode>)
    requires
        def_registry::collected(s, nodes) is Some,
    ensures
        (def_registry::collected(s, nodes)->0).mode == s.mode,
        (def_registry::collected(s, nodes)->0).visiting == s.visiting,
    decreases nodes,
{
    if nodes.len() > 0 {
        law_walk_keeps_mode_and_way(s, nodes.drop_last());
        lemma_one_keeps_mode_and_way(
            def_registry::collected(s, nodes.drop_last())->0,
            nodes.last(),
        );
    }
}

proof fn lemma_one_keeps_mode_and_way(s: DefState, node: DefNode)
    requires
        def_registry::collected_one(s, node) is Some,
    ensures
        (def_registry::collected_one(s, node)->0).mode == s.mode,
        (def_registry::collected_one(s, node)->0).visiting == s.visiting,
    decreases node,
{
    if s.admission(node.key, node.text) is Fresh {
        let inside = s.entered(node.key);
        law_walk_keeps_mode_and_way(inside, node.children);
        assert(inside.visiting.drop_last() =~= s.visiting);
    }
}

/// Walking over `a` and then over `b` is walking over both.
pub proof fn law_walks_compose(s: DefState, a: Seq<DefNode>, b: Seq<DefNode>)
    ensures
        def_registry::collected(s, a + b) == match def_registry::collected(s, a) {
            None => None,
            Some(middle) => def_registry::collected(middle, b),
        },
    decreases b.len(),
{
    if b.len() == 0 {
        assert(a + b =~= a);
    } else {
        assert((a + b).drop_last() =~= a + b.drop_last());
        law_walks_compose(s, a, b.drop_last());
    }
}

/// Walking over `a` and then over `b` is walking over both.
pub proof fn law_msg_walks_compose(s: MsgState, a: Seq<DefNode>, b: Seq<DefNode>)
    ensures
        def_registry::msg_collected(s, a + b) == match def_registry::msg_collected(s, a) {
            None => None,
            Some(middle) => def_registry::msg_collected(middle, b),
        },
    decreases b.len(),
{
    if b.len() == 0 {
        assert(a + b =~= a);
    } else {
        assert((a + b).drop_last() =~= a + b.drop_last());
        law_msg_walks_compose(s, a, b.drop_last());
    }
}

/// A second walk over the same types changes nothing.
pub proof fn law_second_walk_changes_nothing(s: DefState, nodes: Seq<DefNode>)
    requires
        def_registry::collected(s, nodes) is Some,
        consistent(s.defs, s.visiting),
    ensures
        def_registry::collected(def_registry::collected(s, nodes)->0, nodes)
            == def_registry::collected(s, nodes),
{
    law_walk_extends_registry(s, nodes);
    lemma_known_walk(def_registry::collected(s, nodes)->0, nodes);
}

proof fn lemma_known_walk(s: DefState, nodes: Seq<DefNode>)
    requires
        forall|i: int|
            0 <= i < nodes.len() ==> def_registry::def_of(s.defs, (#[trigger] nodes[i]).key)
                == Some(nodes[i].text),
    ensures
        def_registry::collected(s, nodes) == Some(s),
    decreases nodes.len(),
{
    if nodes.len() > 0 {
        let front = nodes.drop_last();
        assert(forall|i: int| 0 <= i < front.len() ==> front[i] == nodes[i]);
        lemma_known_walk(s, front);
        let last = nodes[nodes.len() - 1];
        assert(def_registry::def_of(s.defs, last.key) == Some(last.text));
        assert(def_registry::collected_one(s, last) == Some(s));
    }
}

/// What a message registry knows of the types, without the order in which they
/// were met.
pub open spec fn without_entries(s: MsgState, mode: NsMode) -> DefState {
    DefState { mode, defs: s.seen, visiting: s.visiting }
}

/// A message registry admits and registers the types that an IDL registry
/// does: it only notes them in another order.
pub proof fn law_message_walk_is_a_walk(s: MsgState, nodes: Seq<DefNode>, mode: NsMode)
    ensures
        def_registry::collected(without_entries(s, mode), nodes)
            == match def_registry::msg_collected(s, nodes) {
            None => None,
            Some(after) => Some(without_entries(after, mode)),
        },
    decreases nodes,
{
    if nodes.len() > 0 {
        law_message_walk_is_a_walk(s, nodes.drop_last(), mode);
        if let Some(middle) = def_registry::msg_collected(s, nodes.drop_last()) {
            lemma_message_walk_one(middle, nodes.last(), mode);
        }
    }
}

proof fn lemma_message_walk_one(s: MsgState, node: DefNode, mode: NsMode)
    ensures
        def_registry::collected_one(without_entries(s, mode), node)
            == match def_registry::msg_collected_one(s, node) {
            None => None,
            Some(after) => Some(without_entries(after, mode)),
        },
    decreases node,
{
    if s.admission(node.key, node.text) is Fresh {
        law_message_walk_is_a_walk(
            s.entered(node.key, node.reference, node.text),
            node.children,
            mode,
        );
    }
}

/// A walk for a message that succeeds leaves the way as it was, whatever was
/// registered before.
pub proof fn law_message_walk_keeps_way(s: MsgState, nodes: Seq<DefNode>)
    requires
        def_registry::msg_collected(s, nodes) is Some,
    ensures
        (def_registry::msg_collected(s, nodes)->0).visiting == s.visiting,
{
    law_message_walk_is_a_walk(s, nodes, NsMode::Raw);
    law_walk_keeps_mode_and_way(without_entries(s, NsMode::Raw), nodes);
}

/// Reference and definition of each type of `order`.
pub open spec fn entries_of(order: Seq<DefNode>) -> Seq<(Seq<char>, Seq<char>)> {
    order.map_values(|node: DefNode| (node.reference, node.text))
}

/// Whether a type is one of `roots`, or a field of one of the first `i` types
/// of `order` refers to it.
pub open spec fn introduced(order: Seq<DefNode>, i: int, roots: Seq<DefNode>, node: DefNode) -> bool {
    roots.contains(node) || exists|j: int|
        0 <= j < i && (#[trigger] order[j]).children.contains(node)
}

/// Each type of `order` is one of `roots` or stands behind one that refers to
/// it.
pub open spec fn dependencies_behind(order: Seq<DefNode>, roots: Seq<DefNode>) -> bool {
    forall|i: int| 0 <= i < order.len() ==> introduced(order, i, roots, #[trigger] order[i])
}

/// Each type of `order` is registered or on the way.
pub open spec fn accounted(order: Seq<DefNode>, s: MsgState) -> bool {
    forall|i: int|
        0 <= i < order.len() ==> def_registry::def_of(s.seen, (#[trigger] order[i]).key) is Some
            || s.visiting.contains(order[i].key)
}

/// Whether a type stands in `order` with its definition.
pub open spec fn lists(order: Seq<DefNode>, key: DefKey, text: Seq<char>) -> bool {
    exists|j: int| 0 <= j < order.len() && (#[trigger] order[j]).key == key && order[j].text == text
}

/// Every type that a field of a type of `order` refers to stands in `order`
/// too.
pub open spec fn fields_listed(order: Seq<DefNode>) -> bool {
    forall|i: int, c: int|
        0 <= i < order.len() && 0 <= c < order[i].children.len() ==> lists(
            order,
            (#[trigger] order[i].children[c]).key,
            order[i].children[c].text,
        )
}

/// The fields of each type of `order` that is not on the way are registered.
spec fn fields_known(order: Seq<DefNode>, s: MsgState) -> bool {
    forall|i: int, c: int|
        0 <= i < order.len() && !s.visiting.contains(order[i].key) && 0 <= c
            < order[i].children.len() ==> def_registry::def_of(
            s.seen,
            (#[trigger] order[i].children[c]).key,
        ) == Some(order[i].children[c].text)
}

/// What is registered stands in `order`.
spec fn seen_listed(order: Seq<DefNode>, s: MsgState) -> bool {
    forall|key: DefKey|
        (#[trigger] def_registry::def_of(s.seen, key)) matches Some(text) ==> lists(order, key, text)
}

spec fn ordered(order: Seq<DefNode>, roots: Seq<DefNode>, s: MsgState) -> bool {
    &&& entries_of(order) == s.entries
    &&& dependencies_behind(order, roots)
    &&& distinct_keys(order)
    &&& accounted(order, s)
    &&& fields_known(order, s)
    &&& seen_listed(order, s)
    &&& consistent(s.seen, s.visiting)
}

proof fn lemma_lists_longer(order: Seq<DefNode>, longer: Seq<DefNode>, key: DefKey, text: Seq<char>)
    requires
        order.is_prefix_of(longer),
        lists(order, key, text),
    ensures
        lists(longer, key, text),
{
    let j = choose|j: int|
        0 <= j < order.len() && (#[trigger] order[j]).key == key && order[j].text == text;
    assert(longer[j] == order[j]);
}

/// A type that was entered keeps the order.
proof fn lemma_entered_fields(s: MsgState, node: DefNode, order: Seq<DefNode>)
    requires
        s.admission(node.key, node.text) is Fresh,
        fields_known(order, s),
        seen_listed(order, s),
        consistent(s.seen, s.visiting),
    ensures
        ({
            let inside = s.entered(node.key, node.reference, node.text);
            &&& fields_known(order.push(node), inside)
            &&& seen_listed(order.push(node), inside)
            &&& consistent(inside.seen, inside.visiting)
        }),
{
    let inside = s.entered(node.key, node.reference, node.text);
    let begun = order.push(node);
    lemma_def_of(s.seen, node.key);
    assert(inside.visiting[s.visiting.len() as int] == node.key);
    assert forall|i: int, c: int|
        0 <= i < begun.len() && !inside.visiting.contains(begun[i].key) && 0 <= c
            < begun[i].children.len() implies def_registry::def_of(
        inside.seen,
        (#[trigger] begun[i].children[c]).key,
    ) == Some(begun[i].children[c].text) by {
        assert(i < order.len());
        assert(begun[i] == order[i]);
        if s.visiting.contains(order[i].key) {
            let p = choose|p: int| 0 <= p < s.visiting.len() && s.visiting[p] == order[i].key;
            assert(inside.visiting[p] == order[i].key);
        }
        assert(def_registry::def_of(s.seen, order[i].children[c].key) == Some(
            order[i].children[c].text,
        ));
    }
    assert forall|key: DefKey|
        (#[trigger] def_registry::def_of(inside.seen, key)) matches Some(text) ==> lists(
            begun,
            key,
            text,
        ) by {
        if let Some(text) = def_registry::def_of(s.seen, key) {
            lemma_lists_longer(order, begun, key, text);
        }
    }
}

/// A type whose fields are registered may be registered.
proof fn lemma_finished_fields(inner: MsgState, node: DefNode, at: int, out: Seq<DefNode>)
    requires
        fields_known(out, inner),
        seen_listed(out, inner),
        consistent(inner.seen, inner.visiting),
        distinct_keys(out),
        0 <= at < out.len(),
        out[at] == node,
        inner.visiting.len() > 0,
        inner.visiting.last() == node.key,
        forall|c: int|
            0 <= c < node.children.len() ==> def_registry::def_of(
                inner.seen,
                (#[trigger] node.children[c]).key,
            ) == Some(node.children[c].text),
    ensures
        ({
            let after = inner.finished(node.key, node.text);
            &&& fields_known(out, after)
            &&& seen_listed(out, after)
            &&& consistent(after.seen, after.visiting)
        }),
{
    let after = inner.finished(node.key, node.text);
    lemma_def_of_push(inner.seen, node.key, node.text);
    lemma_def_of(inner.seen, node.key);
    assert(inner.visiting[inner.visiting.len() - 1] == node.key);
    assert(def_registry::def_of(inner.seen, node.key) is None);
    assert(forall|j: int| 0 <= j < after.visiting.len() ==> after.visiting[j] == inner.visiting[j]);
    assert(consistent(after.seen, after.visiting));
    assert forall|i: int, c: int|
        0 <= i < out.len() && !after.visiting.contains(out[i].key) && 0 <= c
            < out[i].children.len() implies def_registry::def_of(
        after.seen,
        (#[trigger] out[i].children[c]).key,
    ) == Some(out[i].children[c].text) by {
        if inner.visiting.contains(out[i].key) {
            let p = choose|p: int| 0 <= p < inner.visiting.len() && inner.visiting[p] == out[i].key;
            if p < inner.visiting.len() - 1 {
                assert(after.visiting[p] == out[i].key);
            }
            assert(out[i].key == out[at].key);
            assert(i == at);
            assert(node.children[c] == out[i].children[c]);
        }
        assert(def_registry::def_of(inner.seen, out[i].children[c].key) == Some(
            out[i].children[c].text,
        ));
    }
    assert forall|key: DefKey|
        (#[trigger] def_registry::def_of(after.seen, key)) matches Some(text) ==> lists(
            out,
            key,
            text,
        ) by {
        if key == node.key {
            assert(out[at].key == key && out[at].text == node.text);
        } else {
            assert(def_registry::def_of(after.seen, key) == def_registry::def_of(inner.seen, key));
        }
    }
}

proof fn lemma_introduced_longer(
    order: Seq<DefNode>,
    longer: Seq<DefNode>,
    i: int,
    k: int,
    roots: Seq<DefNode>,
    node: DefNode,
)
    requires
        order.is_prefix_of(longer),
        introduced(order, i, roots, node),
        i <= order.len(),
        i <= k,
    ensures
        introduced(longer, k, roots, node),
{
    if !roots.contains(node) {
        let j = choose|j: int| 0 <= j < i && (#[trigger] order[j]).children.contains(node);
        assert(longer[j] == order[j]);
    }
}

proof fn lemma_msg_order(
    s: MsgState,
    nodes: Seq<DefNode>,
    order: Seq<DefNode>,
    roots: Seq<DefNode>,
) -> (out: Seq<DefNode>)
    requires
        def_registry::msg_collected(s, nodes) is Some,
        ordered(order, roots, s),
        forall|i: int| #![trigger nodes[i]]
            0 <= i < nodes.len() ==> introduced(order, order.len() as int, roots, nodes[i]),
    ensures
        ordered(out, roots, def_registry::msg_collected(s, nodes)->0),
        (def_registry::msg_collected(s, nodes)->0).visiting == s.visiting,
        order.is_prefix_of(out),
    decreases nodes,
{
    if nodes.len() == 0 {
        order
    } else {
        let part = nodes.drop_last();
        assert(forall|i: int| 0 <= i < part.len() ==> part[i] == nodes[i]);
        let front = lemma_msg_order(s, part, order, roots);
        assert(nodes.last() == nodes[nodes.len() - 1]);
        lemma_introduced_longer(
            order,
            front,
            order.len() as int,
            front.len() as int,
            roots,
            nodes.last(),
        );
        lemma_msg_order_one(def_registry::msg_collected(s, part)->0, nodes.last(), front, roots)
    }
}

proof fn lemma_msg_order_one(
    s: MsgState,
    node: DefNode,
    order: Seq<DefNode>,
    roots: Seq<DefNode>,
) -> (out: Seq<DefNode>)
    requires
        def_registry::msg_collected_one(s, node) is Some,
        ordered(order, roots, s),
        introduced(order, order.len() as int, roots, node),
    ensures
        ordered(out, roots, def_registry::msg_collected_one(s, node)->0),
        (def_registry::msg_collected_one(s, node)->0).visiting == s.visiting,
        order.is_prefix_of(out),
        s.admission(node.key, node.text) is Fresh ==> out.len() > order.len() && out[order.len() as int] == node,
    decreases node,
{
    if s.admission(node.key, node.text) is Fresh {
        let inside = s.entered(node.key, node.reference, node.text);
        let begun = order.push(node);
        assert(entries_of(begun) =~= inside.entries);
        assert forall|i: int| 0 <= i < begun.len() implies introduced(
            begun,
            i,
            roots,
            #[trigger] begun[i],
        ) by {
            if i < order.len() {
                assert(begun[i] == order[i]);
                lemma_introduced_longer(order, begun, i, i, roots, order[i]);
            } else {
                lemma_introduced_longer(order, begun, order.len() as int, i, roots, node);
            }
        }
        assert forall|i: int| 0 <= i < begun.len() implies def_registry::def_of(
            inside.seen,
            (#[trigger] begun[i]).key,
        ) is Some || inside.visiting.contains(begun[i].key) by {
            if i < order.len() {
                assert(begun[i] == order[i]);
                if s.visiting.contains(order[i].key) {
                    let p = choose|p: int| 0 <= p < s.visiting.len() && s.visiting[p] == order[i].key;
                    assert(inside.visiting[p] == order[i].key);
                }
            } else {
                assert(inside.visiting[s.visiting.len() as int] == node.key);
            }
        }
        assert forall|i: int, j: int| 0 <= i < j < begun.len() implies (#[trigger] begun[i]).key
            != (#[trigger] begun[j]).key by {
            assert(begun[i] == order[i]);
            if j < order.len() {
                assert(begun[j] == order[j]);
            }
        }
        assert forall|c: int| #![trigger node.children[c]] 0 <= c < node.children.len() implies introduced(
            begun,
            begun.len() as int,
            roots,
            node.children[c],
        ) by {
            assert(begun[order.len() as int] == node);
            assert(node.children.contains(node.children[c]));
        }
        lemma_entered_fields(s, node, order);
        let out = lemma_msg_order(inside, node.children, begun, roots);
        let inner = def_registry::msg_collected(inside, node.children)->0;
        let after = inner.finished(node.key, node.text);
        assert(after.visiting =~= s.visiting);
        law_message_walk_is_a_walk(inside, node.children, NsMode::Raw);
        law_walk_extends_registry(without_entries(inside, NsMode::Raw), node.children);
        assert(out[order.len() as int] == begun[order.len() as int]);
        assert(inner.visiting.last() == node.key);
        lemma_finished_fields(inner, node, order.len() as int, out);
        lemma_def_of_push(inner.seen, node.key, node.text);
        assert forall|i: int| 0 <= i < out.len() implies def_registry::def_of(
            after.seen,
            (#[trigger] out[i]).key,
        ) is Some || after.visiting.contains(out[i].key) by {
            if inner.visiting.contains(out[i].key) && out[i].key != node.key {
                let p = choose|p: int| 0 <= p < inner.visiting.len() && inner.visiting[p] == out[i].key;
                assert(p < s.visiting.len());
                assert(after.visiting[p] == out[i].key);
            }
        }
        out
    } else {
        order
    }
}

/// The full message of a type writes its own definition first and then those
/// of distinct further types, each behind one that refers to it. Every type
/// that a field of a type written there refers to is among them.
pub proof fn law_full_message_writes_itself_first(root: DefNode)
    requires
        def_registry::msg_collected(MsgState::empty(), seq![root]) is Some,
    ensures
        ({
            let after = def_registry::msg_collected(MsgState::empty(), seq![root])->0;
            &&& after.entries.len() > 0
            &&& after.entries[0] == (root.reference, root.text)
            &&& exists|order: Seq<DefNode>|
                #![trigger entries_of(order)]
                entries_of(order) == after.entries && order[0] == root && dependencies_behind(
                    order,
                    seq![root],
                ) && distinct_keys(order) && fields_listed(order)
        }),
{
    let s = MsgState::empty();
    let none = Seq::<DefNode>::empty();
    let roots = seq![root];
    assert(entries_of(none) =~= s.entries);
    assert(roots[0] == root);
    assert(roots.drop_last() =~= none);
    assert(def_registry::msg_collected(s, none) == Some(s));
    assert(s.admission(root.key, root.text) is Fresh);
    let order = lemma_msg_order_one(s, root, none, roots);
    let after = def_registry::msg_collected(s, roots)->0;
    assert(entries_of(order) == after.entries);
    assert(entries_of(order)[0] == (root.reference, root.text));
    assert forall|i: int, c: int|
        0 <= i < order.len() && 0 <= c < order[i].children.len() implies lists(
        order,
        (#[trigger] order[i].children[c]).key,
        order[i].children[c].text,
    ) by {
        assert(def_registry::def_of(after.seen, order[i].children[c].key) == Some(
            order[i].children[c].text,
        ));
    }
}

/// A second walk over the same types changes nothing, neither which types are
/// registered nor what stands in the message.
pub proof fn law_second_message_walk_changes_nothing(s: MsgState, nodes: Seq<DefNode>)
    requires
        def_registry::msg_collected(s, nodes) is Some,
        consistent(s.seen, s.visiting),
    ensures
        def_registry::msg_collected(def_registry::msg_collected(s, nodes)->0, nodes)
            == def_registry::msg_collected(s, nodes),
{
    law_message_walk_is_a_walk(s, nodes, NsMode::Raw);
    law_walk_extends_registry(without_entries(s, NsMode::Raw), nodes);
    lemma_known_message_walk(def_registry::msg_collected(s, nodes)->0, nodes);
}

proof fn lemma_known_message_walk(s: MsgState, nodes: Seq<DefNode>)
    requires
        forall|i: int|
            0 <= i < nodes.len() ==> def_registry::def_of(s.seen, (#[trigger] nodes[i]).key)
                == Some(nodes[i].text),
    ensures
        def_registry::msg_collected(s, nodes) == Some(s),
    decreases nodes.len(),
{
    if nodes.len() > 0 {
        let front = nodes.drop_last();
        assert(forall|i: int| 0 <= i < front.len() ==> front[i] == nodes[i]);
        lemma_known_message_walk(s, front);
        let last = nodes[nodes.len() - 1];
        assert(def_registry::def_of(s.seen, last.key) == Some(last.text));
        assert(def_registry::msg_collected_one(s, last) == Some(s));
    }
}

/// Registering a type is entering it, walking over its fields and finishing it,
/// where it was not met before; a known type changes nothing; any other is
/// turned away.
pub proof fn law_type_is_entered_walked_and_finished(s: DefState, node: DefNode)
    ensures
        def_registry::collected(s, seq![node]) == match s.admission(node.key, node.text) {
            def_registry::Admission::Fresh => match def_registry::collected(
                s.entered(node.key),
                node.children,
            ) {
                None => None,
                Some(inner) => Some(inner.finished(node.key, node.text)),
            },
            def_registry::Admission::Known => Some(s),
            def_registry::Admission::Conflict => None,
            def_registry::Admission::Cycle => None,
        },
{
    assert(seq![node].drop_last() =~= Seq::<DefNode>::empty());
    assert(def_registry::collected(s, Seq::<DefNode>::empty()) == Some(s));
    assert(seq![node].last() == node);
    assert(def_registry::collected(s, seq![node]) == def_registry::collected_one(s, node));
}

/// Registering a type for a message is entering it, which writes it down,
/// walking over its fields and finishing it, where it was not met before; a
/// known type changes nothing; any other is turned away.
pub proof fn law_message_type_is_entered_walked_and_finished(s: MsgState, node: DefNode)
    ensures
        def_registry::msg_collected(s, seq![node]) == match s.admission(node.key, node.text) {
            def_registry::Admission::Fresh => match def_registry::msg_collected(
                s.entered(node.key, node.reference, node.text),
                node.children,
            ) {
                None => None,
                Some(inner) => Some(inner.finished(node.key, node.text)),
            },
            def_registry::Admission::Known => Some(s),
            def_registry::Admission::Conflict => None,
            def_registry::Admission::Cycle => None,
        },
{
    assert(seq![node].drop_last() =~= Seq::<DefNode>::empty());
    assert(def_registry::msg_collected(s, Seq::<DefNode>::empty()) == Some(s));
    assert(seq![node].last() == node);
    assert(def_registry::msg_collected(s, seq![node]) == def_registry::msg_collected_one(s, node));
}

/// Whether a type is one of `nodes`, or their fields lead to it.
pub open spec fn within(nodes: Seq<DefNode>, node: DefNode) -> bool
    decreases nodes,
{
    if nodes.len() == 0 {
        false
    } else {
        within(nodes.drop_last(), node) || within_one(nodes.last(), node)
    }
}

/// Whether a type is `root`, or the fields of `root` lead to it.
pub open spec fn within_one(root: DefNode, node: DefNode) -> bool
    decreases root,
{
    root == node || within(root.children, node)
}

/// No type leads to one of its own name.
pub open spec fn without_cycle(nodes: Seq<DefNode>) -> bool {
    forall|node: DefNode, inner: DefNode|
        within(nodes, node) && #[trigger] within(node.children, inner) ==> inner.key != node.key
}

/// Types of one name have one definition.
pub open spec fn without_conflict(nodes: Seq<DefNode>) -> bool {
    forall|a: DefNode, b: DefNode| #[trigger]
        within(nodes, a) && #[trigger] within(nodes, b) && a.key == b.key ==> a.text == b.text
}

/// Each definition is that of a type within `all`.
spec fn stems_from(defs: Seq<(DefKey, Seq<char>)>, all: Seq<DefNode>) -> bool {
    forall|i: int| 0 <= i < defs.len() ==> stem(#[trigger] defs[i], all)
}

spec fn stem(def: (DefKey, Seq<char>), all: Seq<DefNode>) -> bool {
    exists|node: DefNode| #[trigger] within(all, node) && def == (node.key, node.text)
}

/// No type within `nodes` is on the way.
spec fn off_the_way(nodes: Seq<DefNode>, visiting: Seq<DefKey>) -> bool {
    forall|node: DefNode| #[trigger] within(nodes, node) ==> !visiting.contains(node.key)
}

/// What is within the types of `nodes` is within `all`.
spec fn part_of(nodes: Seq<DefNode>, all: Seq<DefNode>) -> bool {
    forall|node: DefNode| #[trigger] within(nodes, node) ==> within(all, node)
}

/// What the fields of a type within `nodes` lead to is within `nodes` too.
proof fn lemma_within_children(nodes: Seq<DefNode>, node: DefNode, inner: DefNode)
    requires
        within(nodes, node),
        within(node.children, inner),
    ensures
        within(nodes, inner),
    decreases nodes,
{
    if within(nodes.drop_last(), node) {
        lemma_within_children(nodes.drop_last(), node, inner);
    } else {
        assert(within_one(nodes.last(), node));
        if nodes.last() != node {
            lemma_within_children(nodes.last().children, node, inner);
        }
        assert(within_one(nodes.last(), inner));
    }
}

proof fn lemma_walk_succeeds(s: DefState, nodes: Seq<DefNode>, all: Seq<DefNode>)
    requires
        without_cycle(all),
        without_conflict(all),
        part_of(nodes, all),
        stems_from(s.defs, all),
        off_the_way(nodes, s.visiting),
    ensures
        def_registry::collected(s, nodes) is Some,
        stems_from((def_registry::collected(s, nodes)->0).defs, all),
    decreases nodes,
{
    if nodes.len() > 0 {
        let front = nodes.drop_last();
        let last = nodes.last();
        assert forall|node: DefNode| #[trigger] within(front, node) implies within(nodes, node) by {
        }
        lemma_walk_succeeds(s, front, all);
        law_walk_keeps_mode_and_way(s, front);
        assert(within_one(last, last));
        assert(within(nodes, last));
        assert forall|node: DefNode| #[trigger] within(last.children, node) implies within(
            nodes,
            node,
        ) by {
            assert(within_one(last, node));
        }
        lemma_walk_one_succeeds(def_registry::collected(s, front)->0, last, all);
    }
}

proof fn lemma_walk_one_succeeds(s: DefState, node: DefNode, all: Seq<DefNode>)
    requires
        without_cycle(all),
        without_conflict(all),
        within(all, node),
        stems_from(s.defs, all),
        !s.visiting.contains(node.key),
        off_the_way(node.children, s.visiting),
    ensures
        def_registry::collected_one(s, node) is Some,
        stems_from((def_registry::collected_one(s, node)->0).defs, all),
    decreases node,
{
    lemma_def_of(s.defs, node.key);
    if let Some(existing) = def_registry::def_of(s.defs, node.key) {
        let i = choose|i: int| 0 <= i < s.defs.len() && s.defs[i] == (node.key, existing);
        assert(stem(s.defs[i], all));
        let other = choose|other: DefNode| #[trigger]
            within(all, other) && s.defs[i] == (other.key, other.text);
        assert(within(all, other) && within(all, node) && other.key == node.key);
    } else {
        let inside = s.entered(node.key);
        assert forall|inner: DefNode| #[trigger]
            within(node.children, inner) implies !inside.visiting.contains(inner.key) && within(
            all,
            inner,
        ) by {
            lemma_within_children(all, node, inner);
            if inside.visiting.contains(inner.key) {
                let p = choose|p: int|
                    0 <= p < inside.visiting.len() && inside.visiting[p] == inner.key;
                if p < s.visiting.len() {
                    assert(s.visiting[p] == inner.key);
                }
            }
        }
        lemma_walk_succeeds(inside, node.children, all);
        let inner = def_registry::collected(inside, node.children)->0;
        let after = inner.finished(node.key, node.text);
        assert forall|i: int| 0 <= i < after.defs.len() implies stem(
            #[trigger] after.defs[i],
            all,
        ) by {
            if i < inner.defs.len() {
                assert(after.defs[i] == inner.defs[i]);
            } else {
                assert(after.defs[i] == (node.key, node.text));
            }
        }
    }
}

/// Where no type leads to one of its own name, and types of one name have one
/// definition, every type can be registered: there is an IDL and a full message.
pub proof fn law_definitions_can_be_written(mode: NsMode, nodes: Seq<DefNode>)
    requires
        without_cycle(nodes),
        without_conflict(nodes),
    ensures
        def_registry::collected(DefState::empty(mode), nodes) is Some,
        def_registry::msg_collected(MsgState::empty(), nodes) is Some,
{
    lemma_walk_succeeds(DefState::empty(mode), nodes, nodes);
    law_message_walk_is_a_walk(MsgState::empty(), nodes, mode);
    assert(without_entries(MsgState::empty(), mode) == DefState::empty(mode));
}

/// How often a character stands in a text.
pub open spec fn occurrences(s: Seq<char>, c: char) -> nat
    decreases s.len(),
{
    if s.len() == 0 {
        0
    } else {
        occurrences(s.drop_last(), c) + if s.last() == c {
            1nat
        } else {
            0nat
        }
    }
}

proof fn lemma_occurrences_add(a: Seq<char>, b: Seq<char>, c: char)
    ensures
        occurrences(a + b, c) == occurrences(a, c) + occurrences(b, c),
    decreases b.len(),
{
    if b.len() == 0 {
        assert(a + b =~= a);
    } else {
        assert((a + b).drop_last() =~= a + b.drop_last());
        lemma_occurrences_add(a, b.drop_last(), c);
    }
}

proof fn lemma_no_occurrence(s: Seq<char>, c: char)
    requires
        !s.contains(c),
    ensures
        occurrences(s, c) == 0,
    decreases s.len(),
{
    if s.len() > 0 {
        assert(s[s.len() - 1] == s.last());
        assert(!s.drop_last().contains(c)) by {
            if s.drop_last().contains(c) {
                let i = choose|i: int| 0 <= i < s.drop_last().len() && s.drop_last()[i] == c;
                assert(s[i] == c);
            }
        }
        lemma_no_occurrence(s.drop_last(), c);
    }
}

proof fn lemma_opened_brackets(segments: Seq<Seq<char>>)
    requires
        forall|i: int| 0 <= i < segments.len() ==> !(#[trigger] segments[i]).contains('{'),
    ensures
        occurrences(ns_mode::opened(segments), '{') == segments.len(),
    decreases segments.len(),
{
    if segments.len() > 0 {
        let front = segments.drop_last();
        assert(forall|i: int| 0 <= i < front.len() ==> front[i] == segments[i]);
        lemma_opened_brackets(front);
        reveal_strlit(" module ");
        reveal_strlit(" {");
        let last = segments.last();
        assert(last == segments[segments.len() - 1]);
        lemma_no_occurrence(" module "@, '{');
        lemma_no_occurrence(last, '{');
        assert(occurrences(" {"@, '{') == 1) by {
            assert(" {"@ =~= seq![' ', '{']);
            assert(seq![' ', '{'].drop_last() =~= seq![' ']);
            assert(seq![' '].drop_last() =~= Seq::<char>::empty());
            reveal_with_fuel(occurrences, 4);
        }
        lemma_occurrences_add(" module "@, last, '{');
        lemma_occurrences_add(" module "@ + last, " {"@, '{');
        lemma_occurrences_add(ns_mode::opened(front), " module "@ + last + " {"@, '{');
    }
}

proof fn lemma_closing_brackets(count: nat)
    ensures
        occurrences(text::repeated("};"@, count), '}') == count,
    decreases count,
{
    if count > 0 {
        lemma_closing_brackets((count - 1) as nat);
        reveal_strlit("};");
        assert(occurrences("};"@, '}') == 1) by {
            assert("};"@ =~= seq!['}', ';']);
            assert(seq!['}', ';'].drop_last() =~= seq!['}']);
            assert(seq!['}'].drop_last() =~= Seq::<char>::empty());
            reveal_with_fuel(occurrences, 4);
        }
        lemma_occurrences_add(text::repeated("};"@, (count - 1) as nat), "};"@, '}');
    }
}

/// Every module that is opened around a type is closed again, where neither
/// the package nor a segment holds a bracket itself.
pub proof fn law_modules_close(mode: NsMode, package: Seq<char>)
    requires
        !package.contains('{'),
        forall|i: int|
            0 <= i < mode.segments().len() ==> !(#[trigger] mode.segments()[i]).contains('{'),
    ensures
        occurrences(mode.module_open(package), '{') == occurrences(mode.module_close(), '}'),
        occurrences(mode.module_close(), '}') == 1 + mode.segments().len(),
{
    let segments = mode.segments();
    reveal_strlit("module ");
    reveal_strlit(" {");
    reveal_strlit("\n");
    lemma_opened_brackets(segments);
    lemma_closing_brackets(1 + segments.len());
    lemma_no_occurrence("module "@, '{');
    lemma_no_occurrence(package, '{');
    lemma_no_occurrence("\n"@, '{');
    lemma_no_occurrence("\n"@, '}');
    assert(occurrences(" {"@, '{') == 1) by {
        assert(" {"@ =~= seq![' ', '{']);
        assert(seq![' ', '{'].drop_last() =~= seq![' ']);
        assert(seq![' '].drop_last() =~= Seq::<char>::empty());
        reveal_with_fuel(occurrences, 4);
    }
    lemma_occurrences_add("module "@, package, '{');
    lemma_occurrences_add("module "@ + package, " {"@, '{');
    lemma_occurrences_add("module "@ + package + " {"@, ns_mode::opened(segments), '{');
    lemma_occurrences_add("module "@ + package + " {"@ + ns_mode::opened(segments), "\n"@, '{');
    lemma_occurrences_add(text::repeated("};"@, 1 + segments.len()), "\n"@, '}');
}

} // verus!
