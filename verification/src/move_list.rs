//! The scratch buffer of candidate moves, segmented by ply.

use vstd::prelude::*;
use vstd::slice::slice_subrange;
use crate::moves::{Move, MoveExt, calm_code, code_of};

verus! {

/// Something that collects the moves of the ply being generated.
pub trait AddMove: Sized {
    /// A move can be added.
    spec fn open_ply(&self) -> bool;

    /// `after` is `before` with the moves `ms` added, in order, and nothing else changed.
    spec fn grown(before: &Self, after: &Self, ms: Seq<Move>) -> bool;

    proof fn grown_none(s: &Self)
        requires
            s.open_ply(),
        ensures
            Self::grown(s, s, Seq::empty()),
    ;

    proof fn grown_more(a: &Self, b: &Self, c: &Self, x: Seq<Move>, y: Seq<Move>)
        requires
            Self::grown(a, b, x),
            Self::grown(b, c, y),
        ensures
            Self::grown(a, c, x + y),
    ;

    fn add_move_to_ply(&mut self, m: Move)
        requires
            old(self).open_ply(),
        ensures
            final(self).open_ply(),
            Self::grown(old(self), final(self), seq![m]),
    ;
}

/// `s` with the elements at `i` and `j` exchanged.
pub open spec fn swapped(s: Seq<Move>, i: int, j: int) -> Seq<Move> {
    s.update(i, s[j]).update(j, s[i])
}

/// The index of the first occurrence of `m` in `s` at or after `from`; the length if there is none.
pub open spec fn first_at(s: Seq<Move>, m: Move, from: int) -> int
    decreases s.len() - from,
{
    if from < 0 || from >= s.len() {
        s.len() as int
    } else if s[from] == m {
        from
    } else {
        first_at(s, m, from + 1)
    }
}

/// The outcome of scanning `s` from `i` on with `k` places already settled:
/// each capture, castle or promotion is exchanged with the move at `k`, which then
/// moves up by one.
pub open spec fn loud_first(s: Seq<Move>, i: int, k: int) -> Seq<Move>
    decreases s.len() - i,
{
    if i < 0 || i >= s.len() || k < 0 || k > i {
        s
    } else if !calm_code(code_of(s[i])) {
        loud_first(swapped(s, i, k), i + 1, k + 1)
    } else {
        loud_first(s, i + 1, k)
    }
}

/// The ply `s` put in search order: the move `first`, where the ply holds it, comes
/// first; then the captures, castles and promotions; then the calm moves.
pub open spec fn ordered(s: Seq<Move>, first: Option<Move>) -> Seq<Move> {
    match first {
        Some(f) => {
            let i = first_at(s, f, 0);
            if i < s.len() {
                loud_first(swapped(s, i, 0), 1, 1)
            } else {
                loud_first(s, 0, 0)
            }
        },
        None => loud_first(s, 0, 0),
    }
}

/// `t` is as long as `s`, and each of the two holds every move of the other.
pub open spec fn all_from(t: Seq<Move>, s: Seq<Move>) -> bool {
    &&& t.len() == s.len()
    &&& forall|i: int| 0 <= i < t.len() ==> s.contains(#[trigger] t[i])
    &&& forall|i: int| 0 <= i < s.len() ==> t.contains(#[trigger] s[i])
}

/// Exchanging two elements keeps the members.
proof fn lemma_swapped_members(s0: Seq<Move>, s: Seq<Move>, i: int, k: int)
    requires
        all_from(s, s0),
        0 <= i < s.len(),
        0 <= k < s.len(),
    ensures
        all_from(swapped(s, i, k), s0),
{
    let t = swapped(s, i, k);
    assert forall|j: int| 0 <= j < t.len() implies s0.contains(#[trigger] t[j]) by {
        if j == i {
            assert(t[j] == s[k]);
        } else if j == k {
            assert(t[j] == s[i]);
        } else {
            assert(t[j] == s[j]);
        }
    }
    assert forall|j: int| 0 <= j < s0.len() implies t.contains(#[trigger] s0[j]) by {
        let x = choose|x: int| 0 <= x < s.len() && s[x] == s0[j];
        if x == i {
            assert(t[k] == s0[j]);
        } else if x == k {
            assert(t[i] == s0[j]);
        } else {
            assert(t[x] == s0[j]);
        }
    }
}

proof fn lemma_loud_first_members(s0: Seq<Move>, s: Seq<Move>, i: int, k: int)
    requires
        all_from(s, s0),
    ensures
        all_from(loud_first(s, i, k), s0),
    decreases s.len() - i,
{
    if i < 0 || i >= s.len() || k < 0 || k > i {
    } else if !calm_code(code_of(s[i])) {
        let t = swapped(s, i, k);
        lemma_swapped_members(s0, s, i, k);
        lemma_loud_first_members(s0, t, i + 1, k + 1);
    } else {
        lemma_loud_first_members(s0, s, i + 1, k);
    }
}

/// Ordering a ply moves its moves about: none is lost, none is made up.
pub proof fn lemma_ordered_members(s: Seq<Move>, first: Option<Move>)
    ensures
        all_from(ordered(s, first), s),
{
    assert(all_from(s, s)) by {
        assert forall|j: int| 0 <= j < s.len() implies s.contains(#[trigger] s[j]) by {}
    }
    match first {
        Some(f) => {
            let i = first_at(s, f, 0);
            lemma_first_at_bounds(s, f, 0);
            if i < s.len() {
                let t = swapped(s, i, 0);
                lemma_swapped_members(s, s, i, 0);
                lemma_loud_first_members(s, t, 1, 1);
            } else {
                lemma_loud_first_members(s, s, 0, 0);
            }
        },
        None => {
            lemma_loud_first_members(s, s, 0, 0);
        },
    }
}

proof fn lemma_first_at_bounds(s: Seq<Move>, m: Move, from: int)
    requires
        0 <= from,
    ensures
        from <= first_at(s, m, from) || first_at(s, m, from) == s.len(),
        0 <= first_at(s, m, from) <= s.len(),
    decreases s.len() - from,
{
    if from < s.len() && s[from] != m {
        lemma_first_at_bounds(s, m, from + 1);
    }
}

/// Exchanging two elements keeps each move as often as it was there.
proof fn lemma_swapped_multiset(s: Seq<Move>, i: int, k: int)
    requires
        0 <= i < s.len(),
        0 <= k < s.len(),
    ensures
        swapped(s, i, k).to_multiset() == s.to_multiset(),
{
    broadcast use {
        vstd::multiset::group_multiset_axioms,
        vstd::multiset::group_multiset_properties,
        vstd::seq_lib::to_multiset_contains,
    };
    let a = s.update(i, s[k]);
    vstd::seq_lib::to_multiset_update(s, i, s[k]);
    vstd::seq_lib::to_multiset_update(a, k, s[i]);
    assert(a[k] == s[k]);
    assert(s.contains(s[i]) && s.contains(s[k]));
    let m = s.to_multiset();
    assert(m.count(s[i]) > 0 && m.count(s[k]) > 0);
    assert(m.insert(s[k]).remove(s[i]).insert(s[i]).remove(s[k]) =~= m);
}

proof fn lemma_loud_first_shape(s: Seq<Move>, i: int, k: int, start: int)
    requires
        0 <= start <= k <= i <= s.len(),
        forall|j: int| start <= j < k ==> !calm_code(code_of(#[trigger] s[j])),
        forall|j: int| k <= j < i ==> calm_code(code_of(#[trigger] s[j])),
    ensures
        loud_first(s, i, k).len() == s.len(),
        loud_first(s, i, k).to_multiset() == s.to_multiset(),
        forall|j: int| 0 <= j < start ==> loud_first(s, i, k)[j] == s[j],
        exists|b: int|
            k <= b <= s.len() && #[trigger] loud_before(loud_first(s, i, k), start, b),
    decreases s.len() - i,
{
    if i >= s.len() {
        assert(loud_before(s, start, k));
    } else if !calm_code(code_of(s[i])) {
        let t = swapped(s, i, k);
        lemma_swapped_multiset(s, i, k);
        assert forall|j: int| start <= j < k + 1 implies !calm_code(code_of(#[trigger] t[j])) by {
            if j < k {
                assert(t[j] == s[j]);
            }
        }
        assert forall|j: int| k + 1 <= j < i + 1 implies calm_code(code_of(#[trigger] t[j])) by {
            if j < i {
                assert(t[j] == s[j]);
            } else {
                assert(t[j] == s[k]);
            }
        }
        lemma_loud_first_shape(t, i + 1, k + 1, start);
        let b = choose|b: int|
            k + 1 <= b <= t.len() && #[trigger] loud_before(loud_first(t, i + 1, k + 1), start, b);
        assert(k <= b <= s.len() && #[trigger] loud_before(loud_first(s, i, k), start, b));
        assert forall|j: int| 0 <= j < start implies loud_first(s, i, k)[j] == s[j] by {
            assert(t[j] == s[j]);
        }
    } else {
        lemma_loud_first_shape(s, i + 1, k, start);
        let b = choose|b: int| k <= b <= s.len() && #[trigger] loud_before(loud_first(s, i + 1, k), start, b);
        assert(k <= b <= s.len() && #[trigger] loud_before(loud_first(s, i, k), start, b));
    }
}

/// From `start` on, the moves before `b` are captures, castles or promotions and
/// those from `b` on are calm.
pub open spec fn loud_before(o: Seq<Move>, start: int, b: int) -> bool {
    &&& forall|j: int| start <= j < b ==> !calm_code(code_of(#[trigger] o[j]))
    &&& forall|j: int| b <= j < o.len() ==> calm_code(code_of(#[trigger] o[j]))
}

/// What ordering a ply comes to: the moves are the same, each as often as
/// before; the move to try first, where the ply holds it, is in front; behind
/// it, every capture, castle and promotion comes before every calm move.
pub proof fn lemma_ordered_shape(s: Seq<Move>, first: Option<Move>)
    ensures
        ordered(s, first).len() == s.len(),
        ordered(s, first).to_multiset() == s.to_multiset(),
        first is Some && s.contains(first.unwrap()) ==> ordered(s, first)[0] == first.unwrap()
            && exists|b: int| 1 <= b <= s.len() && #[trigger] loud_before(ordered(s, first), 1, b),
        !(first is Some && s.contains(first.unwrap())) ==> exists|b: int|
            0 <= b <= s.len() && #[trigger] loud_before(ordered(s, first), 0, b),
{
    match first {
        Some(f) => {
            let i = first_at(s, f, 0);
            lemma_first_at_bounds(s, f, 0);
            lemma_first_at_found(s, f, 0);
            if i < s.len() {
                let t = swapped(s, i, 0);
                lemma_swapped_multiset(s, i, 0);
                lemma_loud_first_shape(t, 1, 1, 1);
                let b = choose|b: int| 1 <= b <= t.len() && #[trigger] loud_before(loud_first(t, 1, 1), 1, b);
                assert(1 <= b <= s.len() && #[trigger] loud_before(ordered(s, first), 1, b));
                assert(t[0] == f);
            } else {
                lemma_loud_first_shape(s, 0, 0, 0);
                let b = choose|b: int| 0 <= b <= s.len() && #[trigger] loud_before(loud_first(s, 0, 0), 0, b);
                assert(0 <= b <= s.len() && #[trigger] loud_before(ordered(s, first), 0, b));
            }
        },
        None => {
            lemma_loud_first_shape(s, 0, 0, 0);
            let b = choose|b: int| 0 <= b <= s.len() && #[trigger] loud_before(loud_first(s, 0, 0), 0, b);
            assert(0 <= b <= s.len() && #[trigger] loud_before(ordered(s, first), 0, b));
        },
    }
}

/// The first occurrence is an occurrence, and there is one where the move occurs.
proof fn lemma_first_at_found(s: Seq<Move>, m: Move, from: int)
    requires
        0 <= from,
    ensures
        first_at(s, m, from) < s.len() ==> s[first_at(s, m, from)] == m,
        first_at(s, m, from) >= s.len() ==> forall|j: int| from <= j < s.len() ==> s[j] != m,
    decreases s.len() - from,
{
    if from < s.len() && s[from] != m {
        lemma_first_at_found(s, m, from + 1);
    }
}

/// Candidate moves in one flat buffer, with the start of each ply.
pub struct MoveList {
    moves: Vec<Move>,
    ply_first_move: Vec<usize>,
}

impl View for MoveList {
    type V = Seq<Seq<Move>>;

    /// The plies, oldest first, each with its moves in the order they were added.
    closed spec fn view(&self) -> Seq<Seq<Move>> {
        Seq::new(self.ply_first_move@.len(), |k: int| self.segment(k))
    }
}

impl MoveList {
    spec fn segment_end(&self, k: int) -> int {
        if k + 1 < self.ply_first_move@.len() {
            self.ply_first_move@[k + 1] as int
        } else {
            self.moves@.len() as int
        }
    }

    spec fn segment(&self, k: int) -> Seq<Move> {
        self.moves@.subrange(self.ply_first_move@[k] as int, self.segment_end(k))
    }

    /// The ply starts are in order and inside the buffer.
    pub closed spec fn wf(&self) -> bool {
        &&& forall|k: int|
            0 <= k < self.ply_first_move@.len() ==> self.ply_first_move@[k] <= self.moves@.len()
        &&& forall|j: int, k: int|
            0 <= j <= k < self.ply_first_move@.len() ==> self.ply_first_move@[j]
                <= self.ply_first_move@[k]
    }

    /// The number of moves in the buffer, over all plies.
    pub closed spec fn total(&self) -> nat {
        self.moves@.len()
    }

    pub fn new() -> (l: MoveList)
        ensures
            l.wf(),
            l@.len() == 0,
            l.total() == 0,
    {
        MoveList { moves: Vec::new(), ply_first_move: Vec::new() }
    }

    /// The number of the current ply: 0 before the first one is opened.
    pub fn get_ply_number(&self) -> (n: usize)
        ensures
            n == self@.len(),
    {
        self.ply_first_move.len()
    }

    /// The number of moves in the buffer, over all plies.
    pub fn total_count(&self) -> (n: usize)
        ensures
            n == self.total(),
    {
        self.moves.len()
    }

    /// The number of moves of ply `ply`; plies count from 1.
    pub fn get_ply_size(&self, ply: usize) -> (n: usize)
        requires
            self.wf(),
            1 <= ply <= self@.len(),
        ensures
            n == self@[ply - 1].len(),
    {
        let first_move_index = self.ply_first_move[ply - 1];
        let next_ply_first_move = if ply == self.ply_first_move.len() {
            self.moves.len()
        } else {
            self.ply_first_move[ply]
        };
        next_ply_first_move - first_move_index
    }

    /// Move `index` of ply `ply`; plies count from 1.
    pub fn get_move(&self, ply: usize, index: usize) -> (m: Move)
        requires
            self.wf(),
            1 <= ply <= self@.len(),
            index < self@[ply - 1].len(),
        ensures
            m == self@[ply - 1][index as int],
    {
        let first_move_index = self.ply_first_move[ply - 1];
        assert(self@[ply - 1] == self.segment(ply - 1));
        assert(first_move_index <= self.segment_end(ply - 1) <= self.moves@.len()) by {
            if ply < self.ply_first_move@.len() {
                assert(self.ply_first_move@[ply as int] <= self.moves@.len());
                assert(self.ply_first_move@[ply - 1] <= self.ply_first_move@[ply as int]);
            }
        }
        assert(self.segment(ply - 1).len() == self.segment_end(ply - 1) - first_move_index);
        let total = self.moves.len();
        self.moves[first_move_index + index]
    }

    /// Opens a ply after the current one.
    pub fn new_ply(&mut self)
        requires
            old(self).wf(),
        ensures
            final(self).wf(),
            final(self)@ == old(self)@.push(Seq::empty()),
            final(self).total() == old(self).total(),
    {
        let ghost before = *self;
        self.ply_first_move.push(self.moves.len());
        proof {
            let n = before.ply_first_move@.len() as int;
            assert forall|k: int| 0 <= k < n + 1 implies #[trigger] self@[k] == before@.push(
                Seq::empty(),
            )[k] by {
                if k < n {
                    assert(self.segment(k) =~= before.segment(k));
                } else {
                    assert(self.segment(k) =~= Seq::<Move>::empty());
                }
            }
            assert(self@ =~= before@.push(Seq::empty()));
        }
    }

    /// The moves of the current ply.
    pub fn get_current_ply(&self) -> (ply: &[Move])
        requires
            self.wf(),
            self@.len() > 0,
        ensures
            ply@ == self@.last(),
    {
        let first_move_index = self.ply_first_move[self.ply_first_move.len() - 1];
        slice_subrange(self.moves.as_slice(), first_move_index, self.moves.len())
    }

    /// Closes the current ply and forgets its moves.
    pub fn drop_current_ply(&mut self)
        requires
            old(self).wf(),
            old(self)@.len() > 0,
        ensures
            final(self).wf(),
            final(self)@ == old(self)@.drop_last(),
            final(self).total() == old(self).total() - old(self)@.last().len(),
    {
        let ghost before = *self;
        let start = self.ply_first_move.pop().unwrap();
        self.moves.truncate(start);
        proof {
            let n = before.ply_first_move@.len() as int;
            assert forall|k: int| 0 <= k < n - 1 implies #[trigger] self@[k]
                == before@.drop_last()[k] by {
                assert(before.ply_first_move@[k] <= before.ply_first_move@[n - 1]);
                if k + 1 < n - 1 {
                    assert(before.ply_first_move@[k + 1] <= before.ply_first_move@[n - 1]);
                }
                assert(self.segment(k) =~= before.segment(k));
            }
            assert(self@ =~= before@.drop_last());
        }
    }

    fn swap_moves(&mut self, i: usize, j: usize)
        requires
            i < old(self).moves@.len(),
            j < old(self).moves@.len(),
        ensures
            final(self).moves@ == swapped(old(self).moves@, i as int, j as int),
            final(self).ply_first_move == old(self).ply_first_move,
    {
        let a = self.moves[i];
        let b = self.moves[j];
        self.moves[i] = b;
        self.moves[j] = a;
    }

    /// Puts the current ply in search order, in place: the move `first`, where the ply
    /// holds it, is exchanged with the one in front; then, scanning on from there, each
    /// capture, castle or promotion is exchanged with the first move not yet settled.
    pub fn order_ply(&mut self, first: Option<Move>)
        requires
            old(self).wf(),
            old(self)@.len() > 0,
        ensures
            final(self).wf(),
            final(self)@ == old(self)@.update(
                old(self)@.len() - 1,
                ordered(old(self)@.last(), first),
            ),
            final(self).total() == old(self).total(),
    {
        let ghost before = *self;
        let ghost n = before.ply_first_move@.len() as int;
        let base = self.ply_first_move[self.ply_first_move.len() - 1];
        let total = self.moves.len();
        let len = total - base;
        let ghost ply0 = before@.last();
        assert(ply0 =~= before.moves@.subrange(base as int, before.moves@.len() as int));
        let mut sorted_index: usize = 0;

        if let Some(f) = first {
            let mut i: usize = 0;
            let mut found = false;
            while i < len && !found
                invariant
                    i <= len,
                    *self == before,
                    len == ply0.len(),
                    base + len == total,
                    total == self.moves@.len(),
                    ply0 == self.moves@.subrange(base as int, self.moves@.len() as int),
                    first_at(ply0, f, 0) == first_at(ply0, f, i as int),
                    found ==> i < len && ply0[i as int] == f,
                decreases len - i + (if found { 0int } else { 1int }),
            {
                if self.moves[base + i] == f {
                    found = true;
                } else {
                    i += 1;
                }
            }
            if found {
                assert(first_at(ply0, f, 0) == i);
                self.swap_moves(base + i, base);
                sorted_index = 1;
            } else {
                assert(first_at(ply0, f, 0) == len);
            }
        }
        let ghost ply1 = self.moves@.subrange(base as int, self.moves@.len() as int);
        proof {
            if sorted_index == 1 {
                let i = first_at(ply0, first.unwrap(), 0);
                assert(ply1 =~= swapped(ply0, i, 0));
            } else {
                assert(ply1 =~= ply0);
            }
            assert(ordered(ply0, first) == loud_first(ply1, sorted_index as int, sorted_index as int));
        }
        let mut i: usize = sorted_index;
        while i < len
            invariant
                sorted_index <= i <= len,
                base + len == total,
                total == self.moves@.len(),
                self.moves@.len() == before.moves@.len(),
                self.ply_first_move == before.ply_first_move,
                self.moves@.subrange(0, base as int) == before.moves@.subrange(0, base as int),
                ordered(ply0, first) == loud_first(
                    self.moves@.subrange(base as int, self.moves@.len() as int),
                    i as int,
                    sorted_index as int,
                ),
            decreases len - i,
        {
            let ghost cur = self.moves@.subrange(base as int, self.moves@.len() as int);
            let ghost prev = self.moves@;
            let m = self.moves[base + i];
            assert(m == cur[i as int]);
            if !m.is_quiet() || m.is_castle() {
                self.swap_moves(base + i, base + sorted_index);
                proof {
                    assert(self.moves@.subrange(base as int, self.moves@.len() as int) =~= swapped(
                        cur,
                        i as int,
                        sorted_index as int,
                    ));
                    assert(self.moves@.subrange(0, base as int) =~= prev.subrange(0, base as int));
                }
                sorted_index += 1;
            }
            i += 1;
        }
        proof {
            let fin = self.moves@.subrange(base as int, self.moves@.len() as int);
            assert(fin == ordered(ply0, first));
            assert forall|k: int| 0 <= k < n implies #[trigger] self@[k] == before@.update(
                n - 1,
                ordered(ply0, first),
            )[k] by {
                if k < n - 1 {
                    assert(before.ply_first_move@[k] <= before.ply_first_move@[n - 1]);
                    assert(before.ply_first_move@[k + 1] <= before.ply_first_move@[n - 1]);
                    assert forall|t: int| 0 <= t < self.segment(k).len() implies self.segment(k)[t]
                        == before.segment(k)[t] by {
                        let p = before.ply_first_move@[k] + t;
                        assert(self.moves@[p] == self.moves@.subrange(0, base as int)[p]);
                        assert(before.moves@[p] == before.moves@.subrange(0, base as int)[p]);
                    }
                    assert(self.segment(k) =~= before.segment(k));
                } else {
                    assert(self.segment(k) =~= fin);
                }
            }
            assert(self@ =~= before@.update(n - 1, ordered(ply0, first)));
        }
    }
}

impl AddMove for MoveList {
    open spec fn open_ply(&self) -> bool {
        self.wf() && self@.len() > 0
    }

    open spec fn grown(before: &Self, after: &Self, ms: Seq<Move>) -> bool {
        &&& before.open_ply()
        &&& after.open_ply()
        &&& after@ == before@.update(before@.len() - 1, before@.last() + ms)
        &&& after.total() == before.total() + ms.len()
    }

    proof fn grown_none(s: &Self) {
        assert(s@.last() + Seq::<Move>::empty() =~= s@.last());
        assert(s@ =~= s@.update(s@.len() - 1, s@.last()));
    }

    proof fn grown_more(a: &Self, b: &Self, c: &Self, x: Seq<Move>, y: Seq<Move>) {
        assert((a@.last() + x) + y =~= a@.last() + (x + y));
        assert(c@ =~= a@.update(a@.len() - 1, a@.last() + (x + y)));
    }

    fn add_move_to_ply(&mut self, m: Move) {
        let ghost before = *self;
        self.moves.push(m);
        proof {
            let n = before.ply_first_move@.len() as int;
            assert forall|k: int| 0 <= k < n implies #[trigger] self@[k] == before@.update(
                n - 1,
                before@.last() + seq![m],
            )[k] by {
                if k < n - 1 {
                    assert(self.segment(k) =~= before.segment(k));
                } else {
                    assert(self.segment(k) =~= before.segment(k) + seq![m]);
                }
            }
            assert(self@ =~= before@.update(n - 1, before@.last() + seq![m]));
        }
    }
}

impl AddMove for Vec<Move> {
    open spec fn open_ply(&self) -> bool {
        true
    }

    open spec fn grown(before: &Self, after: &Self, ms: Seq<Move>) -> bool {
        after@ == before@ + ms
    }

    proof fn grown_none(s: &Self) {
        assert(s@ + Seq::<Move>::empty() =~= s@);
    }

    proof fn grown_more(a: &Self, b: &Self, c: &Self, x: Seq<Move>, y: Seq<Move>) {
        assert((a@ + x) + y =~= a@ + (x + y));
    }

    fn add_move_to_ply(&mut self, m: Move) {
        self.push(m);
        assert(self@ =~= old(self)@ + seq![m]);
    }
}

} // verus!
