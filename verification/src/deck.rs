//! The deck engine: a draw pile, a discard pile, and the policy flags that
//! govern drawing, recycling and traversal.
//!
//! The contracts speak of [`DeckModel`], the ghost view of a deck: the two
//! piles as sequences plus the flags. Shuffling makes some operations
//! nondeterministic, so their contracts are relations (`*_rel` spec
//! functions) between the model before, the model after, and the items
//! handed out; every relation pins the outcome exactly whenever no shuffle
//! is involved, and pins the multiset of items in every case.

use vstd::prelude::*;
use rand::seq::SliceRandom;

verus! {

use vstd::multiset::Multiset;
use vstd::math::min;

broadcast use vstd::seq_lib::lemma_multiset_commutative, vstd::seq_lib::group_to_multiset_ensures;

/// Ghost model of a deck: the two piles as sequences (index 0 is the front
/// of a pile) together with the policy flags.
pub struct DeckModel<C> {
    /// The draw pile; index 0 is the next item to draw.
    pub draw: Seq<C>,
    /// The discard pile; index 0 is the top (most recently placed on top).
    pub discard: Seq<C>,
    /// Whether the discard pile is shuffled before being recycled.
    pub shuffle_discards: bool,
    /// Whether the discard pile is inert until explicitly recycled.
    pub stop_on_discards: bool,
}

/// Ghost model of a deck builder: the optionally supplied piles and the
/// three policy flags.
pub struct BuilderModel<C> {
    /// The supplied draw pile, if any.
    pub draw: Option<Seq<C>>,
    /// The supplied discard pile, if any.
    pub discard: Option<Seq<C>>,
    /// Whether the supplied piles are shuffled once at construction.
    pub pre_shuffle: bool,
    /// Whether the discard pile is shuffled before being recycled.
    pub shuffle_discards: bool,
    /// Whether the discard pile is inert until explicitly recycled.
    pub stop_on_discards: bool,
}

/// A deck of cards: an active draw pile and a discard pile.
///
/// Items are moved, never copied: drawing hands ownership to the caller,
/// discarding takes it back. The item type needs no other capability.
pub struct Deck<C> {
    draw_pile: Vec<C>,
    discard_pile: Vec<C>,
    shuffle_discards: bool,
    stop_on_discards: bool,
}

/// A builder for a deck. Each setter consumes and returns the builder;
/// `done` finalizes it into a [`Deck`].
pub struct DeckBuilder<C> {
    draw_pile: Option<Vec<C>>,
    discard_pile: Option<Vec<C>>,
    pre_shuffle: bool,
    shuffle_discards: bool,
    stop_on_discards: bool,
}

impl<C> View for Deck<C> {
    type V = DeckModel<C>;

    closed spec fn view(&self) -> DeckModel<C> {
        DeckModel {
            draw: self.draw_pile@,
            discard: self.discard_pile@,
            shuffle_discards: self.shuffle_discards,
            stop_on_discards: self.stop_on_discards,
        }
    }
}

impl<C> View for DeckBuilder<C> {
    type V = BuilderModel<C>;

    closed spec fn view(&self) -> BuilderModel<C> {
        BuilderModel {
            draw: match self.draw_pile {
                Some(v) => Some(v@),
                None => None,
            },
            discard: match self.discard_pile {
                Some(v) => Some(v@),
                None => None,
            },
            pre_shuffle: self.pre_shuffle,
            shuffle_discards: self.shuffle_discards,
            stop_on_discards: self.stop_on_discards,
        }
    }
}

/// Everything a deck holds, as a multiset: both piles together, regardless
/// of policy. Every operation's contract accounts for this quantity
/// exactly, so no item is ever duplicated or silently dropped.
pub open spec fn contents<C>(m: DeckModel<C>) -> Multiset<C> {
    m.draw.to_multiset().add(m.discard.to_multiset())
}

/// An unsupplied pile defaults to empty.
pub open spec fn or_empty<C>(o: Option<Seq<C>>) -> Seq<C> {
    match o {
        Some(s) => s,
        None => Seq::empty(),
    }
}

/// The two policy flags of a deck are never changed by its operations.
pub open spec fn same_policy<C>(pre: DeckModel<C>, post: DeckModel<C>) -> bool {
    &&& post.shuffle_discards == pre.shuffle_discards
    &&& post.stop_on_discards == pre.stop_on_discards
}

/// The number of items a deck admits to: the draw pile alone under
/// `stop_on_discards`, both piles otherwise. This is the most items any
/// sequence of draws can produce without further insertion.
pub open spec fn visible_len<C>(m: DeckModel<C>) -> nat {
    if m.stop_on_discards {
        m.draw.len()
    } else {
        m.draw.len() + m.discard.len()
    }
}

/// The items a traversal visits, front to back: the draw pile, then the
/// discard pile unless `stop_on_discards` hides it.
pub open spec fn visible<C>(m: DeckModel<C>) -> Seq<C> {
    if m.stop_on_discards {
        m.draw
    } else {
        m.draw + m.discard
    }
}

/// How finalizing a builder relates it to the deck produced. A supplied
/// pile is shuffled at construction only under `pre_shuffle`, so each pile
/// of the deck is some permutation of the supplied one, and is exactly the
/// supplied one when `pre_shuffle` is off.
pub open spec fn done_rel<C>(b: BuilderModel<C>, d: DeckModel<C>) -> bool {
    &&& d.shuffle_discards == b.shuffle_discards
    &&& d.stop_on_discards == b.stop_on_discards
    &&& d.draw.len() == or_empty(b.draw).len()
    &&& d.discard.len() == or_empty(b.discard).len()
    &&& d.draw.to_multiset() == or_empty(b.draw).to_multiset()
    &&& d.discard.to_multiset() == or_empty(b.discard).to_multiset()
    &&& !b.pre_shuffle ==> d.draw == or_empty(b.draw) && d.discard == or_empty(b.discard)
}

/// How recycling relates the deck before and after: the discard pile,
/// shuffled first under `shuffle_discards`, moves in one block under the
/// bottom of the draw pile. The draw pile's own items keep their places.
pub open spec fn recycle_rel<C>(pre: DeckModel<C>, post: DeckModel<C>) -> bool {
    &&& same_policy(pre, post)
    &&& post.discard == Seq::<C>::empty()
    &&& post.draw.len() == pre.draw.len() + pre.discard.len()
    &&& post.draw.take(pre.draw.len() as int) == pre.draw
    &&& post.draw.skip(pre.draw.len() as int).to_multiset() == pre.discard.to_multiset()
    &&& !pre.shuffle_discards ==> post.draw == pre.draw + pre.discard
}

/// How `draw(n)` relates the deck before and after to the items handed
/// out. In order: a draw pile that already holds `n` items serves them
/// directly; otherwise, under `stop_on_discards` the draw comes up short;
/// otherwise the discard pile is recycled first and the draw is short only
/// if both piles together held fewer than `n`.
pub open spec fn draw_rel<C>(pre: DeckModel<C>, n: nat, post: DeckModel<C>, out: Seq<C>) -> bool {
    if n <= pre.draw.len() {
        &&& out == pre.draw.take(n as int)
        &&& same_policy(pre, post)
        &&& post.draw == pre.draw.skip(n as int)
        &&& post.discard == pre.discard
    } else if pre.stop_on_discards {
        &&& out == pre.draw
        &&& same_policy(pre, post)
        &&& post.draw == Seq::<C>::empty()
        &&& post.discard == pre.discard
    } else {
        let total = pre.draw.len() + pre.discard.len();
        let m = min(n as int, total as int);
        &&& same_policy(pre, post)
        &&& post.discard == Seq::<C>::empty()
        &&& out.len() == m
        &&& post.draw.len() == total - m
        &&& out.take(pre.draw.len() as int) == pre.draw
        &&& out.skip(pre.draw.len() as int).to_multiset().add(post.draw.to_multiset())
            == pre.discard.to_multiset()
        &&& !pre.shuffle_discards ==> out == (pre.draw + pre.discard).take(m) && post.draw == (
        pre.draw + pre.discard).skip(m)
    }
}

/// How `draw_1` relates the deck before and after to the item handed out:
/// the front of the draw pile, after a recycle if the draw pile was empty
/// and the discard pile was not inert; `None` only when no item is
/// available under the policy.
pub open spec fn draw_1_rel<C>(pre: DeckModel<C>, post: DeckModel<C>, out: Option<C>) -> bool {
    &&& same_policy(pre, post)
    &&& if pre.draw.len() > 0 {
        &&& out == Some(pre.draw[0])
        &&& post.draw == pre.draw.skip(1)
        &&& post.discard == pre.discard
    } else if pre.stop_on_discards {
        &&& out is None
        &&& post.draw == pre.draw
        &&& post.discard == pre.discard
    } else if pre.discard.len() == 0 {
        &&& out is None
        &&& post.draw == pre.draw
        &&& post.discard == Seq::<C>::empty()
    } else {
        &&& post.discard == Seq::<C>::empty()
        &&& out matches Some(c) && post.draw.to_multiset().insert(c) == pre.discard.to_multiset()
            && (!pre.shuffle_discards ==> c == pre.discard[0] && post.draw == pre.discard.skip(1))
    }
}

/// How `draw_all` relates the deck before and after to the items handed
/// out: every visible item, in draw-pile order first; the discard pile
/// follows (recycled, so shuffled under `shuffle_discards`) unless
/// `stop_on_discards` leaves it untouched.
pub open spec fn draw_all_rel<C>(pre: DeckModel<C>, post: DeckModel<C>, out: Seq<C>) -> bool {
    &&& same_policy(pre, post)
    &&& post.draw == Seq::<C>::empty()
    &&& if pre.stop_on_discards {
        &&& out == pre.draw
        &&& post.discard == pre.discard
    } else {
        &&& post.discard == Seq::<C>::empty()
        &&& out.len() == pre.draw.len() + pre.discard.len()
        &&& out.take(pre.draw.len() as int) == pre.draw
        &&& out.skip(pre.draw.len() as int).to_multiset() == pre.discard.to_multiset()
        &&& !pre.shuffle_discards ==> out == pre.draw + pre.discard
    }
}

/// Relies on rand's `SliceRandom::shuffle` with the generator from
/// `rand::rng()`: a Fisher-Yates shuffle that permutes the slice in place,
/// so the length and the multiset of elements are unchanged.
#[verifier::external_body]
fn shuffle_vec<C>(v: &mut Vec<C>)
    ensures
        final(v)@.len() == old(v)@.len(),
        final(v)@.to_multiset() == old(v)@.to_multiset(),
{
    v.as_mut_slice().shuffle(&mut rand::rng());
}

/// Removes the first `n` items of `v`, returning them in order.
fn take_front<C>(v: &mut Vec<C>, n: usize) -> (out: Vec<C>)
    requires
        n <= old(v)@.len(),
    ensures
        out@ == old(v)@.take(n as int),
        final(v)@ == old(v)@.skip(n as int),
{
    let mut rest = v.split_off(n);
    core::mem::swap(v, &mut rest);
    proof {
        assert(rest@ =~= old(v)@.take(n as int));
        assert(v@ =~= old(v)@.skip(n as int));
    }
    rest
}

impl<C> DeckBuilder<C> {
    /// A builder with nothing supplied and every flag at its default:
    /// shuffle at construction, shuffle recycled discards, and count both
    /// piles.
    pub fn new() -> (r: Self)
        ensures
            r@ == (BuilderModel::<C> {
                draw: None,
                discard: None,
                pre_shuffle: true,
                shuffle_discards: true,
                stop_on_discards: false,
            }),
    {
        DeckBuilder {
            draw_pile: None,
            discard_pile: None,
            pre_shuffle: true,
            shuffle_discards: true,
            stop_on_discards: false,
        }
    }

    /// Supplies the draw pile, consuming the vector; the last call wins.
    pub fn draw_pile(self, v: Vec<C>) -> (r: Self)
        ensures
            r@ == (BuilderModel { draw: Some(v@), ..self@ }),
    {
        DeckBuilder { draw_pile: Some(v), ..self }
    }

    /// Supplies the discard pile, consuming the vector; the last call wins.
    pub fn discard_pile(self, v: Vec<C>) -> (r: Self)
        ensures
            r@ == (BuilderModel { discard: Some(v@), ..self@ }),
    {
        DeckBuilder { discard_pile: Some(v), ..self }
    }

    /// Whether to shuffle the supplied piles once at construction.
    /// Default: true.
    pub fn pre_shuffle(self, b: bool) -> (r: Self)
        ensures
            r@ == (BuilderModel { pre_shuffle: b, ..self@ }),
    {
        DeckBuilder { pre_shuffle: b, ..self }
    }

    /// Whether to shuffle the discard pile before recycling it under the
    /// draw pile. Default: true.
    pub fn shuffle_discards(self, b: bool) -> (r: Self)
        ensures
            r@ == (BuilderModel { shuffle_discards: b, ..self@ }),
    {
        DeckBuilder { shuffle_discards: b, ..self }
    }

    /// Whether the deck ends at the bottom of the draw pile: the discard
    /// pile is then left out of `len`, draws and traversal until it is
    /// explicitly recycled. Default: false.
    pub fn stop_on_discards(self, b: bool) -> (r: Self)
        ensures
            r@ == (BuilderModel { stop_on_discards: b, ..self@ }),
    {
        DeckBuilder { stop_on_discards: b, ..self }
    }

    /// Finalizes the builder into a deck, consuming it. Under
    /// `pre_shuffle`, each supplied pile is shuffled independently;
    /// unsupplied piles default to empty. This cannot fail.
    pub fn done(self) -> (r: Deck<C>)
        ensures
            done_rel(self@, r@),
    {
        let DeckBuilder { draw_pile, discard_pile, pre_shuffle, shuffle_discards, stop_on_discards }
            = self;
        let mut draw_pile = match draw_pile {
            Some(v) => v,
            None => Vec::new(),
        };
        let mut discard_pile = match discard_pile {
            Some(v) => v,
            None => Vec::new(),
        };
        if pre_shuffle {
            shuffle_vec(&mut draw_pile);
            shuffle_vec(&mut discard_pile);
        }
        Deck { draw_pile, discard_pile, shuffle_discards, stop_on_discards }
    }
}

impl<C> Deck<C> {
    /// A deck holding the supplied items as its draw pile, with every other
    /// option at its default; the pile is shuffled at construction.
    pub fn new(v: Vec<C>) -> (r: Self)
        ensures
            r@.draw.len() == v@.len(),
            r@.draw.to_multiset() == v@.to_multiset(),
            r@.discard == Seq::<C>::empty(),
            r@.shuffle_discards == true,
            r@.stop_on_discards == false,
    {
        Self::build().draw_pile(v).done()
    }

    /// A builder for a deck; see [`DeckBuilder`].
    pub fn build() -> (r: DeckBuilder<C>)
        ensures
            r@ == (BuilderModel::<C> {
                draw: None,
                discard: None,
                pre_shuffle: true,
                shuffle_discards: true,
                stop_on_discards: false,
            }),
    {
        DeckBuilder::new()
    }

    /// Places an item at the back (bottom) of the discard pile.
    pub fn put_discard(&mut self, card: C)
        ensures
            same_policy(old(self)@, final(self)@),
            final(self)@.draw == old(self)@.draw,
            final(self)@.discard == old(self)@.discard.push(card),
    {
        self.discard_pile.push(card);
    }

    /// Moves the discard pile, shuffled first under `shuffle_discards`,
    /// under the bottom of the draw pile, leaving the discard pile empty.
    /// This is the only recycling primitive; drawing calls it internally.
    /// An empty discard pile leaves the draw pile exactly as it was.
    pub fn discards_to_bottom(&mut self)
        ensures
            recycle_rel(old(self)@, final(self)@),
            old(self)@.discard.len() == 0 ==> final(self)@.draw == old(self)@.draw,
    {
        if self.shuffle_discards {
            shuffle_vec(&mut self.discard_pile);
        }
        let ghost mid = self.discard_pile@;
        self.draw_pile.append(&mut self.discard_pile);
        proof {
            assert(self.draw_pile@.take(old(self)@.draw.len() as int) =~= old(self)@.draw);
            assert(self.draw_pile@.skip(old(self)@.draw.len() as int) =~= mid);
            if old(self)@.discard.len() == 0 {
                assert(mid =~= Seq::<C>::empty());
                assert(self.draw_pile@ =~= old(self)@.draw);
            }
        }
    }

    /// Shuffles the draw pile in place; the discard pile is untouched.
    pub fn shuffle_draw_pile(&mut self)
        ensures
            same_policy(old(self)@, final(self)@),
            final(self)@.draw.len() == old(self)@.draw.len(),
            final(self)@.draw.to_multiset() == old(self)@.draw.to_multiset(),
            final(self)@.discard == old(self)@.discard,
    {
        shuffle_vec(&mut self.draw_pile);
    }

    /// Draws one item, or returns `None` if nothing is available under the
    /// current policy; see [`draw_1_rel`].
    pub fn draw_1(&mut self) -> (out: Option<C>)
        ensures
            draw_1_rel(old(self)@, final(self)@, out),
    {
        let mut v = self.draw(1);
        proof {
            lemma_draw_1_from_draw(old(self)@, self@, v@);
        }
        if v.len() > 0 {
            Some(v.remove(0))
        } else {
            None
        }
    }

    /// Draws up to `n` items from the front of the draw pile, recycling the
    /// discard pile first if it takes that to reach `n` and the policy
    /// allows it; see [`draw_rel`]. The items are removed from the deck and
    /// returned in draw order; the result is short only when the policy
    /// left fewer than `n` items reachable.
    pub fn draw(&mut self, n: usize) -> (out: Vec<C>)
        ensures
            draw_rel(old(self)@, n as nat, final(self)@, out@),
    {
        if n <= self.draw_pile.len() {
            return take_front(&mut self.draw_pile, n);
        }
        if self.stop_on_discards {
            let m = self.draw_pile.len();
            let out = take_front(&mut self.draw_pile, m);
            proof {
                assert(out@ =~= old(self)@.draw);
                assert(self.draw_pile@ =~= Seq::<C>::empty());
            }
            return out;
        }
        self.discards_to_bottom();
        let ghost mid = self@;
        let m = if n <= self.draw_pile.len() {
            n
        } else {
            self.draw_pile.len()
        };
        let out = take_front(&mut self.draw_pile, m);
        proof {
            lemma_draw_from_recycle(old(self)@, mid, self@, out@, n as nat, m as nat);
        }
        out
    }

    /// Drains the whole deck: recycles the discard pile first unless
    /// `stop_on_discards` leaves it untouched, then removes and returns the
    /// entire draw pile in front-to-back order; see [`draw_all_rel`].
    pub fn draw_all(&mut self) -> (out: Vec<C>)
        ensures
            draw_all_rel(old(self)@, final(self)@, out@),
    {
        if !self.stop_on_discards {
            self.discards_to_bottom();
        }
        let ghost mid = self@;
        let m = self.draw_pile.len();
        let out = take_front(&mut self.draw_pile, m);
        proof {
            assert(out@ =~= mid.draw);
            assert(self.draw_pile@ =~= Seq::<C>::empty());
            if old(self)@.stop_on_discards {
                assert(out@ =~= old(self)@.draw);
            } else {
                let k = old(self)@.draw.len() as int;
                assert(recycle_rel(old(self)@, mid));
                assert(out@.take(k) == mid.draw.take(k));
                assert(out@.skip(k) == mid.draw.skip(k));
            }
        }
        out
    }

    /// The maximum number of items a single draw can produce: the draw
    /// pile alone under `stop_on_discards`, both piles together otherwise.
    pub fn len(&self) -> (r: usize)
        requires
            visible_len(self@) <= usize::MAX,
        ensures
            r == visible_len(self@),
    {
        if self.stop_on_discards {
            self.draw_pile.len()
        } else {
            self.draw_pile.len() + self.discard_pile.len()
        }
    }

    /// The exact size of the draw pile, irrespective of policy.
    pub fn draw_len(&self) -> (r: usize)
        ensures
            r == self@.draw.len(),
    {
        self.draw_pile.len()
    }

    /// The exact size of the discard pile, irrespective of policy.
    pub fn discard_len(&self) -> (r: usize)
        ensures
            r == self@.discard.len(),
    {
        self.discard_pile.len()
    }

    /// Places an item at the back (bottom) of the draw pile directly,
    /// bypassing the discard pile.
    pub fn push_bottom(&mut self, c: C)
        ensures
            same_policy(old(self)@, final(self)@),
            final(self)@.draw == old(self)@.draw.push(c),
            final(self)@.discard == old(self)@.discard,
    {
        self.draw_pile.push(c);
    }

    /// Places an item on top of the discard pile, where the next recycle
    /// will bring it back first among the recycled items.
    pub fn push_top(&mut self, c: C)
        ensures
            same_policy(old(self)@, final(self)@),
            final(self)@.draw == old(self)@.draw,
            final(self)@.discard == old(self)@.discard.insert(0, c),
    {
        self.discard_pile.insert(0, c);
    }

    /// Places an item at the back (bottom) of the discard pile, the same
    /// position as [`Deck::put_discard`].
    pub fn push_discards(&mut self, c: C)
        ensures
            same_policy(old(self)@, final(self)@),
            final(self)@.draw == old(self)@.draw,
            final(self)@.discard == old(self)@.discard.push(c),
    {
        self.discard_pile.push(c);
    }

    /// Places an item at the front (top) of the discard pile, the same
    /// position as [`Deck::push_top`].
    pub fn push_discards_top(&mut self, c: C)
        ensures
            same_policy(old(self)@, final(self)@),
            final(self)@.draw == old(self)@.draw,
            final(self)@.discard == old(self)@.discard.insert(0, c),
    {
        self.discard_pile.insert(0, c);
    }
}

/// The elements of `v` whose mask entry equals `keep`, in their original
/// relative order. With `keep` true this is what a stable extraction
/// removes, with `keep` false what it leaves behind.
pub open spec fn mask_select<C>(v: Seq<C>, mask: Seq<bool>, keep: bool) -> Seq<C>
    decreases v.len(),
{
    if v.len() == 0 {
        Seq::empty()
    } else if mask.last() == keep {
        mask_select(v.drop_last(), mask.drop_last(), keep).push(v.last())
    } else {
        mask_select(v.drop_last(), mask.drop_last(), keep)
    }
}

impl<C> Deck<C> {
    /// Scans the draw pile front to back for the first item the predicate
    /// accepts; removes and returns it, all other items keeping their
    /// relative order. Returns `None`, with the deck unchanged, when the
    /// predicate accepted no item. The predicate tests by reference and
    /// never consumes an item; the discard pile is not searched.
    pub fn dig_for<F: Fn(&C) -> bool>(&mut self, f: F) -> (out: Option<C>)
        requires
            forall|c: &C| #[trigger] call_requires(f, (c,)),
        ensures
            same_policy(old(self)@, final(self)@),
            final(self)@.discard == old(self)@.discard,
            match out {
                Some(c) => exists|i: int|
                    {
                        &&& 0 <= i < old(self)@.draw.len()
                        &&& c == #[trigger] old(self)@.draw[i]
                        &&& final(self)@.draw == old(self)@.draw.remove(i)
                        &&& call_ensures(f, (&c,), true)
                        &&& forall|j: int|
                            0 <= j < i ==> call_ensures(f, (&old(self)@.draw[j],), false)
                    },
                None => {
                    &&& final(self)@.draw == old(self)@.draw
                    &&& forall|j: int|
                        0 <= j < old(self)@.draw.len() ==> call_ensures(
                            f,
                            (&old(self)@.draw[j],),
                            false,
                        )
                },
            },
    {
        let mut i: usize = 0;
        while i < self.draw_pile.len()
            invariant
                i <= self.draw_pile.len(),
                self@ == old(self)@,
                forall|c: &C| #[trigger] call_requires(f, (c,)),
                forall|j: int| 0 <= j < i ==> call_ensures(f, (&self.draw_pile@[j],), false),
            decreases self.draw_pile.len() - i,
        {
            if f(&self.draw_pile[i]) {
                let ghost gi = i as int;
                let c = self.draw_pile.remove(i);
                proof {
                    assert(0 <= gi < old(self)@.draw.len() && c == old(self)@.draw[gi]
                        && self@.draw == old(self)@.draw.remove(gi) && call_ensures(f, (&c,), true)
                        && forall|j: int|
                        0 <= j < gi ==> call_ensures(f, (&old(self)@.draw[j],), false));
                }
                return Some(c);
            }
            i += 1;
        }
        None
    }

    /// Removes every item of the draw pile the predicate accepts,
    /// returning them in their original relative order; the items it
    /// rejects stay in the draw pile, also in their original relative
    /// order. A stable partition-and-extract: the mask in the contract
    /// records, item by item, what the predicate answered.
    pub fn dig_all<F: Fn(&C) -> bool>(&mut self, f: F) -> (out: Vec<C>)
        requires
            forall|c: &C| #[trigger] call_requires(f, (c,)),
        ensures
            same_policy(old(self)@, final(self)@),
            final(self)@.discard == old(self)@.discard,
            exists|mask: Seq<bool>|
                {
                    &&& mask.len() == old(self)@.draw.len()
                    &&& forall|j: int|
                        0 <= j < mask.len() ==> call_ensures(
                            f,
                            (&old(self)@.draw[j],),
                            #[trigger] mask[j],
                        )
                    &&& out@ == #[trigger] mask_select(old(self)@.draw, mask, true)
                    &&& final(self)@.draw == mask_select(old(self)@.draw, mask, false)
                },
    {
        let ghost orig = self.draw_pile@;
        let mut pile: Vec<C> = Vec::new();
        core::mem::swap(&mut pile, &mut self.draw_pile);
        let mut out: Vec<C> = Vec::new();
        let mut kept: Vec<C> = Vec::new();
        let ghost mut mask = Seq::<bool>::empty();
        while pile.len() > 0
            invariant
                mask.len() <= orig.len(),
                pile@ == orig.skip(mask.len() as int),
                forall|c: &C| #[trigger] call_requires(f, (c,)),
                forall|j: int|
                    0 <= j < mask.len() ==> call_ensures(f, (&orig[j],), #[trigger] mask[j]),
                out@ == mask_select(orig.take(mask.len() as int), mask, true),
                kept@ == mask_select(orig.take(mask.len() as int), mask, false),
            decreases pile.len(),
        {
            let ghost k = mask.len() as int;
            proof {
                assert(orig.skip(k).len() > 0);
                assert(k < orig.len());
            }
            let c = pile.remove(0);
            proof {
                assert(c == orig.skip(k)[0]);
                assert(c == orig[k]);
                assert(pile@ =~= orig.skip(k + 1));
            }
            let hit = f(&c);
            if hit {
                out.push(c);
            } else {
                kept.push(c);
            }
            proof {
                let prev = mask;
                mask = mask.push(hit);
                assert(orig.take(k + 1).drop_last() =~= orig.take(k));
                assert(mask.drop_last() =~= prev);
                assert(orig.take(k + 1).last() == orig[k]);
            }
        }
        proof {
            assert(mask.len() == orig.len());
            assert(orig.take(mask.len() as int) =~= orig);
        }
        core::mem::swap(&mut kept, &mut self.draw_pile);
        proof {
            assert(out@ == mask_select(orig, mask, true) && self@.draw == mask_select(
                orig,
                mask,
                false,
            ) && mask.len() == old(self)@.draw.len() && forall|j: int|
                0 <= j < mask.len() ==> call_ensures(f, (&old(self)@.draw[j],), #[trigger] mask[j]));
        }
        out
    }

    /// Reads the item at position `i` of the visible sequence: the draw
    /// pile front to back, followed by the discard pile unless
    /// `stop_on_discards` hides it. Returns `None` past the end. Nothing
    /// moves; this is the read-only traversal, one position per call.
    pub fn peek(&self, i: usize) -> (out: Option<&C>)
        ensures
            match out {
                Some(c) => i < visible(self@).len() && *c == visible(self@)[i as int],
                None => i >= visible(self@).len(),
            },
    {
        if i < self.draw_pile.len() {
            Some(&self.draw_pile[i])
        } else if !self.stop_on_discards && i - self.draw_pile.len() < self.discard_pile.len() {
            Some(&self.discard_pile[i - self.draw_pile.len()])
        } else {
            None
        }
    }

    /// Replaces the item at position `i` of the visible sequence (as in
    /// [`Deck::peek`]) with `c`, returning the item that was there. No
    /// item moves position; this is the mutating traversal, one position
    /// per call.
    pub fn replace_at(&mut self, i: usize, c: C) -> (out: C)
        requires
            i < visible(old(self)@).len(),
        ensures
            same_policy(old(self)@, final(self)@),
            out == visible(old(self)@)[i as int],
            visible(final(self)@) == visible(old(self)@).update(i as int, c),
            final(self)@.draw.len() == old(self)@.draw.len(),
            final(self)@.discard.len() == old(self)@.discard.len(),
    {
        if i < self.draw_pile.len() {
            self.draw_pile.push(c);
            let out = self.draw_pile.swap_remove(i);
            proof {
                assert(self.draw_pile@ =~= old(self)@.draw.update(i as int, c));
                assert(visible(self@) =~= visible(old(self)@).update(i as int, c));
            }
            out
        } else {
            let j = i - self.draw_pile.len();
            self.discard_pile.push(c);
            let out = self.discard_pile.swap_remove(j);
            proof {
                assert(self.discard_pile@ =~= old(self)@.discard.update(j as int, c));
                assert(visible(self@) =~= visible(old(self)@).update(i as int, c));
            }
            out
        }
    }
}

/// `draw_1` is `draw(1)` with the first (and only) item taken out; this
/// lemma turns the relation of the one into the relation of the other.
proof fn lemma_draw_1_from_draw<C>(pre: DeckModel<C>, post: DeckModel<C>, out: Seq<C>)
    requires
        draw_rel(pre, 1, post, out),
    ensures
        out.len() > 0 ==> draw_1_rel(pre, post, Some(out[0])),
        out.len() == 0 ==> draw_1_rel(pre, post, None::<C>),
{
    if pre.draw.len() >= 1 {
        assert(out =~= pre.draw.take(1));
    } else if pre.stop_on_discards {
        assert(pre.draw =~= Seq::<C>::empty());
        assert(post.draw =~= pre.draw);
    } else {
        assert(pre.draw =~= Seq::<C>::empty());
        if pre.discard.len() == 0 {
            assert(post.draw =~= pre.draw);
        } else {
            let c = out[0];
            assert(out =~= seq![c]);
            assert(out.skip(0) =~= out);
            assert(seq![c].drop_first() =~= Seq::<C>::empty());
            assert(out.to_multiset() == Multiset::<C>::empty().insert(c));
            assert(out.to_multiset().add(post.draw.to_multiset()) == pre.discard.to_multiset());
            assert(post.draw.to_multiset().insert(c) == pre.discard.to_multiset());
            if !pre.shuffle_discards {
                assert((pre.draw + pre.discard) =~= pre.discard);
                assert(c == pre.discard[0]);
                assert(post.draw =~= pre.discard.skip(1));
            }
        }
    }
}

/// After a recycle, taking `m = min(n, len)` items off the front of the
/// combined pile satisfies the overall draw relation.
proof fn lemma_draw_from_recycle<C>(
    pre: DeckModel<C>,
    mid: DeckModel<C>,
    post: DeckModel<C>,
    out: Seq<C>,
    n: nat,
    m: nat,
)
    requires
        n > pre.draw.len(),
        !pre.stop_on_discards,
        recycle_rel(pre, mid),
        m == min(n as int, mid.draw.len() as int),
        out == mid.draw.take(m as int),
        same_policy(mid, post),
        post.draw == mid.draw.skip(m as int),
        post.discard == mid.discard,
    ensures
        draw_rel(pre, n, post, out),
{
    let k = pre.draw.len() as int;
    let total = pre.draw.len() + pre.discard.len();
    assert(mid.draw.len() == total);
    assert(m == min(n as int, total as int));
    assert(m >= k);
    // out starts with the old draw pile
    assert(out.take(k) =~= mid.draw.take(k));
    // the tail of out and the remaining pile split the recycled discards
    let p = mid.draw.skip(k);
    assert(p.to_multiset() == pre.discard.to_multiset());
    assert(out.skip(k) =~= p.take(m - k));
    assert(post.draw =~= p.skip(m - k));
    assert(p =~= p.take(m - k) + p.skip(m - k));
    assert(p.to_multiset() == p.take(m - k).to_multiset().add(p.skip(m - k).to_multiset()));
    if !pre.shuffle_discards {
        assert(mid.draw == pre.draw + pre.discard);
    }
}

} // verus!
