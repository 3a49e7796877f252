//! The shuffled-bag piece sequencer.
//!
//! Pieces are drawn from a "bag" holding each of the seven kinds
//! exactly once, in shuffled order.  Two bags are buffered — the one
//! being consumed and the next one — so that lookahead never observes
//! a bag that has not been generated yet.

use vstd::prelude::*;
use rand::seq::SliceRandom;
use crate::piece::PieceKind;

verus! {

/// The seven kinds in a fixed reference order.
pub open spec fn all_kinds() -> Seq<PieceKind> {
    seq![
        PieceKind::I,
        PieceKind::J,
        PieceKind::L,
        PieceKind::O,
        PieceKind::S,
        PieceKind::T,
        PieceKind::Z,
    ]
}

/// `s` holds each of the seven kinds exactly once, in some order.
pub open spec fn is_bag(s: Seq<PieceKind>) -> bool {
    s.to_multiset() == all_kinds().to_multiset()
}

/// A bag is always seven pieces long.
pub proof fn lemma_bag_len(s: Seq<PieceKind>)
    requires
        is_bag(s),
    ensures
        s.len() == 7,
{
    broadcast use vstd::seq_lib::to_multiset_len;

    assert(all_kinds().len() == 7);
    assert(s.to_multiset().len() == all_kinds().to_multiset().len());
}

/// Relies on rand's `SliceRandom::shuffle`, a Fisher-Yates shuffle
/// that only swaps elements of the slice in place, driven by
/// `rand::thread_rng`: afterwards the vector holds exactly the
/// elements it held before, rearranged.  Nothing is assumed about
/// the order that comes out.
#[verifier::external_body]
fn shuffle_kinds(v: &mut Vec<PieceKind>)
    ensures
        final(v)@.to_multiset() == old(v)@.to_multiset(),
        final(v)@.len() == old(v)@.len(),
{
    v.shuffle(&mut rand::thread_rng());
}

/// A freshly shuffled bag of the seven kinds.
fn fresh_bag() -> (r: Vec<PieceKind>)
    ensures
        is_bag(r@),
        r@.len() == 7,
{
    let mut v: Vec<PieceKind> = Vec::new();
    v.push(PieceKind::I);
    v.push(PieceKind::J);
    v.push(PieceKind::L);
    v.push(PieceKind::O);
    v.push(PieceKind::S);
    v.push(PieceKind::T);
    v.push(PieceKind::Z);
    proof {
        assert(v@ =~= all_kinds());
    }
    shuffle_kinds(&mut v);
    v
}

/// The upcoming-piece sequencer: the bag being consumed, the bag
/// after it, and a cursor into the first.
pub struct PieceSequencer {
    pub current: Vec<PieceKind>,
    pub next: Vec<PieceKind>,
    pub cursor: usize,
}

impl PieceSequencer {
    /// Both buffered bags hold each kind exactly once and the cursor
    /// points at an unconsumed slot.
    pub open spec fn wf(self) -> bool {
        &&& is_bag(self.current@)
        &&& is_bag(self.next@)
        &&& self.current@.len() == 7
        &&& self.next@.len() == 7
        &&& self.cursor < 7
    }

    /// How one `advance` call steps the sequencer: it hands out the
    /// kind under the cursor; within a bag only the cursor moves, and
    /// on exhausting the bag the buffered one takes its place while a
    /// fresh shuffled bag — about whose order nothing is promised —
    /// is buffered.
    pub open spec fn advance_rel(pre: PieceSequencer, post: PieceSequencer, k: PieceKind) -> bool {
        &&& k == pre.current@[pre.cursor as int]
        &&& if pre.cursor == 6 {
            &&& post.cursor == 0
            &&& post.current@ == pre.next@
            &&& is_bag(post.next@)
            &&& post.next@.len() == 7
        } else {
            &&& post.cursor == pre.cursor + 1
            &&& post.current@ == pre.current@
            &&& post.next@ == pre.next@
        }
    }

    /// A sequencer with two independently shuffled bags, cursor at
    /// the start.
    pub fn new() -> (r: PieceSequencer)
        ensures
            r.wf(),
            r.cursor == 0,
    {
        PieceSequencer { current: fresh_bag(), next: fresh_bag(), cursor: 0 }
    }

    /// The kind `offset` draws ahead of the cursor, without consuming
    /// anything.  Lookahead spans from the current bag into the
    /// buffered one; only those two bags exist, which bounds the
    /// offset.
    pub fn peek(&self, offset: usize) -> (r: PieceKind)
        requires
            self.wf(),
            self.cursor + offset < 14,
        ensures
            r == (if self.cursor + offset < 7 {
                self.current@[self.cursor as int + offset]
            } else {
                self.next@[self.cursor as int + offset - 7]
            }),
    {
        let slot = self.cursor + offset;
        if slot < 7 {
            self.current[slot]
        } else {
            self.next[slot - 7]
        }
    }

    /// Hand out the kind under the cursor and move past it.  When the
    /// bag is exhausted, the buffered bag takes its place and a fresh
    /// shuffle is buffered.
    pub fn advance(&mut self) -> (k: PieceKind)
        requires
            old(self).wf(),
        ensures
            final(self).wf(),
            Self::advance_rel(*old(self), *final(self), k),
    {
        let k = self.current[self.cursor];
        self.cursor = self.cursor + 1;
        if self.cursor == 7 {
            self.cursor = 0;
            core::mem::swap(&mut self.current, &mut self.next);
            shuffle_kinds(&mut self.next);
        }
        k
    }
}

/// Seven draws from a fresh cursor return each of the seven kinds
/// exactly once — the bag-randomizer guarantee.  `states` is the
/// chain of sequencer states and `drawn[i]` what the `i`-th `advance`
/// returned.
pub proof fn lemma_seven_draws_form_bag(states: Seq<PieceSequencer>, drawn: Seq<PieceKind>)
    requires
        states.len() == 8,
        drawn.len() == 7,
        states[0].wf(),
        states[0].cursor == 0,
        forall|i: int|
            0 <= i < 7 ==> PieceSequencer::advance_rel(states[i], states[i + 1], #[trigger] drawn[i]),
    ensures
        drawn =~= states[0].current@,
        is_bag(drawn),
{
    assert forall|i: int| 0 <= i < 7 implies states[i].cursor == i && states[i].current@
        == states[0].current@ by {
        lemma_cursor_chain(states, drawn, i);
    }
    assert forall|i: int| 0 <= i < 7 implies drawn[i] == states[0].current@[i] by {
        assert(PieceSequencer::advance_rel(states[i], states[i + 1], drawn[i]));
    }
    lemma_bag_len(states[0].current@);
}

/// Helper for the draw chain: before the bag is exhausted the cursor
/// counts the draws made and the bag itself never changes.
proof fn lemma_cursor_chain(states: Seq<PieceSequencer>, drawn: Seq<PieceKind>, i: int)
    requires
        states.len() == 8,
        drawn.len() == 7,
        states[0].cursor == 0,
        0 <= i < 7,
        forall|j: int|
            0 <= j < 7 ==> PieceSequencer::advance_rel(states[j], states[j + 1], #[trigger] drawn[j]),
    ensures
        states[i].cursor == i,
        states[i].current@ == states[0].current@,
    decreases i,
{
    if i > 0 {
        lemma_cursor_chain(states, drawn, i - 1);
        assert(PieceSequencer::advance_rel(states[i - 1], states[i], drawn[i - 1]));
    }
}

/// Fourteen draws from a fresh sequencer return two bags in a row:
/// the first seven are one permutation of the kinds, the next seven
/// another.
pub proof fn lemma_fourteen_draws_form_two_bags(states: Seq<PieceSequencer>, drawn: Seq<PieceKind>)
    requires
        states.len() == 15,
        drawn.len() == 14,
        states[0].wf(),
        states[0].cursor == 0,
        forall|i: int|
            0 <= i < 14 ==> PieceSequencer::advance_rel(
                states[i],
                states[i + 1],
                #[trigger] drawn[i],
            ),
    ensures
        is_bag(drawn.subrange(0, 7)),
        is_bag(drawn.subrange(7, 14)),
{
    lemma_seven_draws_form_bag(states.subrange(0, 8), drawn.subrange(0, 7));
    assert forall|i: int| 0 <= i < 7 implies states[i].wf() by {
        lemma_wf_chain(states, drawn, i, 14);
    }
    lemma_cursor_chain(states.subrange(0, 8), drawn.subrange(0, 7), 6);
    assert(states[6].cursor == 6);
    assert(PieceSequencer::advance_rel(states[6], states[7], drawn[6]));
    assert(states[7].wf());
    assert(states[7].cursor == 0);
    lemma_seven_draws_form_bag(states.subrange(7, 15), drawn.subrange(7, 14));
}

/// Helper: well-formedness flows along the draw chain.
proof fn lemma_wf_chain(states: Seq<PieceSequencer>, drawn: Seq<PieceKind>, i: int, m: int)
    requires
        states.len() == m + 1,
        drawn.len() == m,
        states[0].wf(),
        0 <= i <= m,
        forall|j: int|
            0 <= j < m ==> PieceSequencer::advance_rel(states[j], states[j + 1], #[trigger] drawn[j]),
    ensures
        states[i].wf(),
    decreases i,
{
    if i > 0 {
        lemma_wf_chain(states, drawn, i - 1, m);
        assert(PieceSequencer::advance_rel(states[i - 1], states[i], drawn[i - 1]));
        lemma_bag_len(states[i - 1].next@);
    }
}

} // verus!
