//! The deck's laws: statements that hold across whole runs of the state
//! machine, proved from the operation contracts in [`crate::deck`].
//!
//! The central one is conservation: no sequence of draw, discard, recycle
//! or push operations ever duplicates an item or loses one. It is stated
//! over traces: a ghost [`DeckOp`] names each operation, [`deck_step`]
//! is the operation's contract as a transition relation, and
//! [`lemma_trace_conserves`] closes any trace by induction.

use vstd::prelude::*;

verus! {

use vstd::multiset::Multiset;
use crate::deck::BuilderModel;
use crate::deck::DeckModel;
use crate::deck::contents;
use crate::deck::done_rel;
use crate::deck::draw_1_rel;
use crate::deck::draw_all_rel;
use crate::deck::draw_rel;
use crate::deck::recycle_rel;
use crate::deck::same_policy;
use crate::deck::visible_len;

broadcast use vstd::seq_lib::lemma_multiset_commutative, vstd::seq_lib::group_to_multiset_ensures, vstd::multiset::group_multiset_axioms;

/// One operation of the deck state machine, named so that a whole run can
/// be spoken of as a sequence of operations.
pub enum DeckOp<C> {
    /// `draw(n)`.
    Draw(nat),
    /// `draw_1`.
    Draw1,
    /// `draw_all`.
    DrawAll,
    /// `discards_to_bottom`.
    Recycle,
    /// `shuffle_draw_pile`.
    ShuffleDraw,
    /// `put_discard(c)` or `push_discards(c)`: same position, same effect.
    PutDiscard(C),
    /// `push_bottom(c)`.
    PushBottom(C),
    /// `push_top(c)` or `push_discards_top(c)`: same position, same effect.
    PushTop(C),
}

/// The items an operation handed out, flattened to a sequence.
pub open spec fn opt_seq<C>(o: Option<C>) -> Seq<C> {
    match o {
        Some(c) => seq![c],
        None => Seq::empty(),
    }
}

/// The transition relation of one operation: exactly what the operation's
/// own `ensures` states, with `out` the items it handed to the caller.
pub open spec fn deck_step<C>(
    pre: DeckModel<C>,
    op: DeckOp<C>,
    post: DeckModel<C>,
    out: Seq<C>,
) -> bool {
    match op {
        DeckOp::Draw(n) => draw_rel(pre, n, post, out),
        DeckOp::Draw1 => exists|o: Option<C>|
            #[trigger] draw_1_rel(pre, post, o) && out == opt_seq(o),
        DeckOp::DrawAll => draw_all_rel(pre, post, out),
        DeckOp::Recycle => recycle_rel(pre, post) && out == Seq::<C>::empty(),
        DeckOp::ShuffleDraw => {
            &&& same_policy(pre, post)
            &&& post.draw.len() == pre.draw.len()
            &&& post.draw.to_multiset() == pre.draw.to_multiset()
            &&& post.discard == pre.discard
            &&& out == Seq::<C>::empty()
        },
        DeckOp::PutDiscard(c) => {
            &&& same_policy(pre, post)
            &&& post.draw == pre.draw
            &&& post.discard == pre.discard.push(c)
            &&& out == Seq::<C>::empty()
        },
        DeckOp::PushBottom(c) => {
            &&& same_policy(pre, post)
            &&& post.draw == pre.draw.push(c)
            &&& post.discard == pre.discard
            &&& out == Seq::<C>::empty()
        },
        DeckOp::PushTop(c) => {
            &&& same_policy(pre, post)
            &&& post.draw == pre.draw
            &&& post.discard == pre.discard.insert(0, c)
            &&& out == Seq::<C>::empty()
        },
    }
}

/// What an operation put into the deck from outside: the pushed item for
/// the push operations, nothing for the rest.
pub open spec fn op_input<C>(op: DeckOp<C>) -> Multiset<C> {
    match op {
        DeckOp::PutDiscard(c) => Multiset::empty().insert(c),
        DeckOp::PushBottom(c) => Multiset::empty().insert(c),
        DeckOp::PushTop(c) => Multiset::empty().insert(c),
        _ => Multiset::empty(),
    }
}

/// An empty sequence holds an empty multiset.
proof fn lemma_empty_to_multiset<C>(s: Seq<C>)
    requires
        s.len() == 0,
    ensures
        s.to_multiset() == Multiset::<C>::empty(),
{
    assert(s.to_multiset() =~= Multiset::<C>::empty()) by {
        assert forall|a: C| s.to_multiset().count(a) == 0 by {
            assert(!s.contains(a));
        }
    }
}

/// A sequence is its front part plus its back part, and so is its
/// multiset.
proof fn lemma_split_to_multiset<C>(s: Seq<C>, k: int)
    requires
        0 <= k <= s.len(),
    ensures
        s.to_multiset() == s.take(k).to_multiset().add(s.skip(k).to_multiset()),
{
    assert(s =~= s.take(k) + s.skip(k));
}

/// Conservation of one step: whatever the operation, the items left in
/// the deck, the items handed out, and the item pushed in (if any) balance
/// exactly against the items the deck held before.
pub proof fn lemma_step_conserves<C>(
    pre: DeckModel<C>,
    op: DeckOp<C>,
    post: DeckModel<C>,
    out: Seq<C>,
)
    requires
        deck_step(pre, op, post, out),
    ensures
        contents(post).add(out.to_multiset()) == contents(pre).add(op_input(op)),
{
    match op {
        DeckOp::Draw(n) => {
            lemma_draw_conserves(pre, n, post, out);
        },
        DeckOp::Draw1 => {
            let o = choose|o: Option<C>|
                #[trigger] draw_1_rel(pre, post, o) && out == opt_seq(o);
            lemma_draw_1_conserves(pre, post, o);
            assert(contents(post).add(out.to_multiset()) =~= contents(pre));
        },
        DeckOp::DrawAll => {
            lemma_draw_all_conserves(pre, post, out);
        },
        DeckOp::Recycle => {
            lemma_recycle_conserves(pre, post);
            lemma_empty_to_multiset(out);
            assert(contents(post).add(out.to_multiset()) =~= contents(pre));
        },
        DeckOp::ShuffleDraw => {
            lemma_empty_to_multiset(out);
            assert(contents(post).add(out.to_multiset()) =~= contents(pre));
        },
        DeckOp::PutDiscard(c) => {
            lemma_empty_to_multiset(out);
            assert(contents(post).add(out.to_multiset()) =~= contents(pre).insert(c));
        },
        DeckOp::PushBottom(c) => {
            lemma_empty_to_multiset(out);
            assert(contents(post).add(out.to_multiset()) =~= contents(pre).insert(c));
        },
        DeckOp::PushTop(c) => {
            lemma_empty_to_multiset(out);
            assert(post.discard.to_multiset() == pre.discard.to_multiset().insert(c));
            assert(contents(post).add(out.to_multiset()) =~= contents(pre).insert(c));
        },
    }
}

/// Conservation of a recycle: both piles together hold the same items
/// before and after.
pub proof fn lemma_recycle_conserves<C>(pre: DeckModel<C>, post: DeckModel<C>)
    requires
        recycle_rel(pre, post),
    ensures
        contents(post) == contents(pre),
{
    let k = pre.draw.len() as int;
    lemma_split_to_multiset(post.draw, k);
    lemma_empty_to_multiset(post.discard);
    assert(post.draw.take(k).to_multiset() == pre.draw.to_multiset());
    assert(contents(post) =~= contents(pre));
}

/// Conservation of a draw: the deck afterwards plus the items handed out
/// hold exactly the items the deck held before.
pub proof fn lemma_draw_conserves<C>(pre: DeckModel<C>, n: nat, post: DeckModel<C>, out: Seq<C>)
    requires
        draw_rel(pre, n, post, out),
    ensures
        contents(post).add(out.to_multiset()) == contents(pre),
{
    if n <= pre.draw.len() {
        lemma_split_to_multiset(pre.draw, n as int);
        assert(contents(post).add(out.to_multiset()) =~= contents(pre));
    } else if pre.stop_on_discards {
        lemma_empty_to_multiset(post.draw);
        assert(contents(post).add(out.to_multiset()) =~= contents(pre));
    } else {
        let k = pre.draw.len() as int;
        lemma_split_to_multiset(out, k);
        lemma_empty_to_multiset(post.discard);
        assert(out.take(k).to_multiset() == pre.draw.to_multiset());
        assert(contents(post).add(out.to_multiset()) =~= contents(pre));
    }
}

/// Conservation of `draw_1`: the deck afterwards plus the item handed out
/// (if any) hold exactly the items the deck held before.
pub proof fn lemma_draw_1_conserves<C>(pre: DeckModel<C>, post: DeckModel<C>, out: Option<C>)
    requires
        draw_1_rel(pre, post, out),
    ensures
        contents(post).add(opt_seq(out).to_multiset()) == contents(pre),
{
    if pre.draw.len() > 0 {
        let c = pre.draw[0];
        assert(pre.draw =~= seq![c] + pre.draw.skip(1));
        assert(opt_seq(out) =~= Seq::<C>::empty().push(c));
        assert(contents(post).add(opt_seq(out).to_multiset()) =~= contents(pre));
    } else if pre.stop_on_discards {
        lemma_empty_to_multiset(opt_seq(out));
        assert(contents(post).add(opt_seq(out).to_multiset()) =~= contents(pre));
    } else if pre.discard.len() == 0 {
        lemma_empty_to_multiset(opt_seq(out));
        lemma_empty_to_multiset(pre.discard);
        assert(contents(post).add(opt_seq(out).to_multiset()) =~= contents(pre));
    } else {
        let c = out->Some_0;
        lemma_empty_to_multiset(pre.draw);
        lemma_empty_to_multiset(post.discard);
        assert(opt_seq(out) =~= Seq::<C>::empty().push(c));
        assert(post.draw.to_multiset().insert(c) == pre.discard.to_multiset());
        assert(contents(post).add(opt_seq(out).to_multiset()) =~= contents(pre));
    }
}

/// Conservation of `draw_all`: the deck afterwards plus the items handed
/// out hold exactly the items the deck held before.
pub proof fn lemma_draw_all_conserves<C>(pre: DeckModel<C>, post: DeckModel<C>, out: Seq<C>)
    requires
        draw_all_rel(pre, post, out),
    ensures
        contents(post).add(out.to_multiset()) == contents(pre),
{
    lemma_empty_to_multiset(post.draw);
    if pre.stop_on_discards {
        assert(contents(post).add(out.to_multiset()) =~= contents(pre));
    } else {
        let k = pre.draw.len() as int;
        lemma_split_to_multiset(out, k);
        lemma_empty_to_multiset(post.discard);
        assert(out.take(k).to_multiset() == pre.draw.to_multiset());
        assert(contents(post).add(out.to_multiset()) =~= contents(pre));
    }
}

/// A run of the state machine: `states` are the deck models visited,
/// `ops` the operations taken, `outs` what each handed out.
pub open spec fn valid_trace<C>(
    states: Seq<DeckModel<C>>,
    ops: Seq<DeckOp<C>>,
    outs: Seq<Seq<C>>,
) -> bool {
    &&& states.len() == ops.len() + 1
    &&& outs.len() == ops.len()
    &&& forall|i: int|
        0 <= i < ops.len() ==> #[trigger] deck_step(states[i], ops[i], states[i + 1], outs[i])
}

/// All the items a run handed out, as one multiset.
pub open spec fn outs_contents<C>(outs: Seq<Seq<C>>) -> Multiset<C>
    decreases outs.len(),
{
    if outs.len() == 0 {
        Multiset::empty()
    } else {
        outs_contents(outs.drop_last()).add(outs.last().to_multiset())
    }
}

/// All the items a run pushed in, as one multiset.
pub open spec fn ops_inputs<C>(ops: Seq<DeckOp<C>>) -> Multiset<C>
    decreases ops.len(),
{
    if ops.len() == 0 {
        Multiset::empty()
    } else {
        ops_inputs(ops.drop_last()).add(op_input(ops.last()))
    }
}

/// Conservation: across any sequence of draw, discard, recycle, shuffle
/// and push operations, the items left in the deck plus every item handed
/// out along the way equal the items the deck started with plus every
/// item pushed in along the way. No item is duplicated or silently
/// dropped.
pub proof fn lemma_trace_conserves<C>(
    states: Seq<DeckModel<C>>,
    ops: Seq<DeckOp<C>>,
    outs: Seq<Seq<C>>,
)
    requires
        valid_trace(states, ops, outs),
    ensures
        contents(states.last()).add(outs_contents(outs)) == contents(states[0]).add(
            ops_inputs(ops),
        ),
    decreases ops.len(),
{
    if ops.len() == 0 {
        lemma_empty_to_multiset(Seq::<C>::empty());
        assert(states.last() == states[0]);
        assert(contents(states.last()).add(outs_contents(outs)) =~= contents(states[0]).add(
            ops_inputs(ops),
        ));
    } else {
        let n = ops.len() as int;
        let states2 = states.drop_last();
        let ops2 = ops.drop_last();
        let outs2 = outs.drop_last();
        assert forall|i: int| 0 <= i < ops2.len() implies #[trigger] deck_step(
            states2[i],
            ops2[i],
            states2[i + 1],
            outs2[i],
        ) by {
            assert(deck_step(states[i], ops[i], states[i + 1], outs[i]));
        }
        lemma_trace_conserves(states2, ops2, outs2);
        assert(deck_step(states[n - 1], ops[n - 1], states[n], outs[n - 1]));
        lemma_step_conserves(states[n - 1], ops[n - 1], states[n], outs[n - 1]);
        assert(states2.last() == states[n - 1]);
        assert(states2[0] == states[0]);
        let olast = outs[n - 1].to_multiset();
        let ilast = op_input(ops[n - 1]);
        assert(outs_contents(outs) == outs_contents(outs2).add(olast));
        assert(ops_inputs(ops) == ops_inputs(ops2).add(ilast));
        assert forall|a: C|
            contents(states.last()).add(outs_contents(outs)).count(a) == contents(
                states[0],
            ).add(ops_inputs(ops)).count(a) by {
            assert(contents(states[n]).add(olast).count(a) == contents(states[n - 1]).add(
                ilast,
            ).count(a));
            assert(contents(states[n - 1]).add(outs_contents(outs2)).count(a) == contents(
                states[0],
            ).add(ops_inputs(ops2)).count(a));
        }
        assert(contents(states.last()).add(outs_contents(outs)) =~= contents(states[0]).add(
            ops_inputs(ops),
        ));
    }
}

/// Order preservation without shuffling at construction: a deck built
/// with `pre_shuffle` off holds the supplied draw pile verbatim, and
/// drawing `n` items within its length yields exactly the first `n`, in
/// the supplied order.
pub proof fn lemma_unshuffled_draw_order<C>(
    b: BuilderModel<C>,
    d0: DeckModel<C>,
    d1: DeckModel<C>,
    v: Seq<C>,
    n: nat,
    out: Seq<C>,
)
    requires
        b.draw == Some(v),
        !b.pre_shuffle,
        done_rel(b, d0),
        draw_rel(d0, n, d1, out),
        n <= v.len(),
    ensures
        d0.draw == v,
        out == v.take(n as int),
{
}

/// A short draw under `stop_on_discards`: asking for more than the draw
/// pile holds yields exactly the draw pile, in order, and leaves the
/// discard pile untouched.
pub proof fn lemma_short_draw_leaves_discards<C>(
    pre: DeckModel<C>,
    n: nat,
    post: DeckModel<C>,
    out: Seq<C>,
)
    requires
        draw_rel(pre, n, post, out),
        pre.stop_on_discards,
        n > pre.draw.len(),
    ensures
        out == pre.draw,
        post.discard == pre.discard,
{
}

/// What `len` promises: a single draw yields exactly `min(n, len)` items,
/// so `len` is the most a draw can produce, and a draw for `len` or more
/// empties the deck's reachable items.
pub proof fn lemma_draw_yield_is_len_capped<C>(
    pre: DeckModel<C>,
    n: nat,
    post: DeckModel<C>,
    out: Seq<C>,
)
    requires
        draw_rel(pre, n, post, out),
    ensures
        out.len() == vstd::math::min(n as int, visible_len(pre) as int),
{
}

/// Draining the deck yields exactly `len` items.
pub proof fn lemma_draw_all_yield_is_len<C>(pre: DeckModel<C>, post: DeckModel<C>, out: Seq<C>)
    requires
        draw_all_rel(pre, post, out),
    ensures
        out.len() == visible_len(pre),
{
}

/// Recycling an empty discard pile changes nothing: the draw pile keeps
/// its content and order.
pub proof fn lemma_recycle_empty_discard<C>(pre: DeckModel<C>, post: DeckModel<C>)
    requires
        recycle_rel(pre, post),
        pre.discard.len() == 0,
    ensures
        post.draw == pre.draw,
        post.discard == pre.discard,
{
    assert(post.draw =~= post.draw.take(pre.draw.len() as int));
    assert(post.discard =~= pre.discard);
}

} // verus!
