//! The walker: it advances across a map one vertex at a time and retreats
//! from dead ends, which it then avoids for a while.

use crate::aco::ACOMap;
use crate::grid::{adjacent, in_grid, VerticeLoc};
use crate::random::uniform_below;
use crate::roulette::total_weight;
use vstd::prelude::*;

verus! {

/// The number of abandoned vertices that a walker remembers.
pub const MAX_EXCLUSIONS: usize = 150;

/// What a walker holds: the vertex it stands on, the vertices it came
/// through, oldest first, and the vertices it has given up, oldest first.
pub struct WalkView {
    pub current: VerticeLoc,
    pub path: Seq<VerticeLoc>,
    pub exclusions: Seq<VerticeLoc>,
}

/// The state of a walk.
pub struct WalkState {
    current: VerticeLoc,
    path: Vec<VerticeLoc>,
    exclusions: Vec<VerticeLoc>,
}

/// How a step ended.
#[derive(Clone, Copy, PartialEq, Eq, Debug)]
pub enum StepOutcome {
    /// The walker moved forward to the vertex given.
    Moved(VerticeLoc),
    /// The walker is back where it started and no move is open to it.
    Exhausted,
}

impl View for WalkState {
    type V = WalkView;

    closed spec fn view(&self) -> WalkView {
        WalkView { current: self.current, path: self.path@, exclusions: self.exclusions@ }
    }
}

/// The vertices that the walker may not move to: those on its path and
/// those it has given up.
pub open spec fn avoided(walk: WalkView) -> Seq<VerticeLoc> {
    walk.path + walk.exclusions
}

/// Whether the walk is sound on `map`: the walker, its path and the
/// vertices it has given up are on the grid, no vertex occurs twice among
/// them all, and no more vertices are given up than the walker remembers.
pub open spec fn sound(map: &ACOMap, walk: WalkView) -> bool {
    &&& in_grid(map@.width, map@.height, walk.current)
    &&& forall|i: int| 0 <= i < walk.path.len() ==> in_grid(map@.width, map@.height, #[trigger] walk.path[i])
    &&& walk.path.no_duplicates()
    &&& !walk.path.contains(walk.current)
    &&& walk.exclusions.len() <= MAX_EXCLUSIONS
    &&& forall|i: int|
        0 <= i < walk.exclusions.len() ==> in_grid(map@.width, map@.height, #[trigger] walk.exclusions[i])
    &&& walk.exclusions.no_duplicates()
    &&& !walk.exclusions.contains(walk.current)
    &&& forall|i: int| 0 <= i < walk.exclusions.len() ==> !walk.path.contains(#[trigger] walk.exclusions[i])
}

/// Whether no move is open to the walker: no neighbour that it may move to
/// has a positive likelihood.
pub open spec fn stuck(map: &ACOMap, walk: WalkView) -> bool {
    total_weight(map.candidates(walk.current, avoided(walk))) == 0
}

/// A walker is stuck exactly where every neighbour on the grid is on its
/// path, is given up, or lies behind an edge without pheromone.
pub proof fn lemma_stuck(map: &ACOMap, walk: WalkView)
    ensures
        stuck(map, walk) <==> forall|to: VerticeLoc|
            in_grid(map@.width, map@.height, to) && adjacent(walk.current, to) ==> walk.path.contains(to)
                || walk.exclusions.contains(to) || #[trigger] map@.pheromone[(walk.current, to)] == 0,
{
    map.lemma_open_moves(walk.current, avoided(walk));
    assert forall|to: VerticeLoc|
        avoided(walk).contains(to) <==> walk.path.contains(to) || walk.exclusions.contains(to) by {
        lemma_avoided(walk, to);
    }
    if !stuck(map, walk) {
        let to = choose|to: VerticeLoc| #[trigger] map.open_move(walk.current, avoided(walk), to);
        assert(map@.pheromone[(walk.current, to)] > 0);
    }
    if stuck(map, walk) {
        assert forall|to: VerticeLoc|
            in_grid(map@.width, map@.height, to) && adjacent(walk.current, to) implies walk.path.contains(to)
            || walk.exclusions.contains(to) || #[trigger] map@.pheromone[(walk.current, to)] == 0 by {
            assert(!map.open_move(walk.current, avoided(walk), to));
        }
    }
}

/// The walker avoids a vertex exactly where it is on the path or given up.
pub proof fn lemma_avoided(walk: WalkView, v: VerticeLoc)
    ensures
        avoided(walk).contains(v) <==> walk.path.contains(v) || walk.exclusions.contains(v),
{
    let all = avoided(walk);
    if walk.path.contains(v) {
        let i = choose|i: int| 0 <= i < walk.path.len() && walk.path[i] == v;
        assert(all[i] == v);
    }
    if walk.exclusions.contains(v) {
        let i = choose|i: int| 0 <= i < walk.exclusions.len() && walk.exclusions[i] == v;
        assert(all[walk.path.len() + i] == v);
    }
    if all.contains(v) {
        let i = choose|i: int| 0 <= i < all.len() && all[i] == v;
        if i < walk.path.len() {
            assert(walk.path[i] == v);
        } else {
            assert(walk.exclusions[i - walk.path.len()] == v);
        }
    }
}

/// `exclusions` with `v` added as the newest entry, the oldest one dropped
/// where the walker remembers no more.
pub open spec fn excluded(exclusions: Seq<VerticeLoc>, v: VerticeLoc) -> Seq<VerticeLoc> {
    if exclusions.len() < MAX_EXCLUSIONS {
        exclusions.push(v)
    } else {
        exclusions.drop_first().push(v)
    }
}

/// The walk after one step back: the walker gives up the vertex it stands
/// on and returns to the last vertex of its path.
pub open spec fn backtracked(walk: WalkView) -> WalkView {
    WalkView {
        current: walk.path.last(),
        path: walk.path.drop_last(),
        exclusions: excluded(walk.exclusions, walk.current),
    }
}

/// The walk after the move forward to `next`.
pub open spec fn advanced(walk: WalkView, next: VerticeLoc) -> WalkView {
    WalkView { current: next, path: walk.path.push(walk.current), exclusions: walk.exclusions }
}

/// The walk after the walker has stepped back until a move is open to it
/// or its path is used up.
pub open spec fn retreated(map: &ACOMap, walk: WalkView) -> WalkView
    decreases walk.path.len(),
{
    if stuck(map, walk) && walk.path.len() > 0 {
        retreated(map, backtracked(walk))
    } else {
        walk
    }
}

/// The walker never remembers more than `MAX_EXCLUSIONS` vertices: the
/// vertex given up becomes the newest entry, and where the memory is full
/// the oldest entry leaves and every other entry moves up by one.
pub proof fn lemma_exclusions_bounded(exclusions: Seq<VerticeLoc>, v: VerticeLoc)
    requires
        exclusions.len() <= MAX_EXCLUSIONS,
    ensures
        excluded(exclusions, v).len() <= MAX_EXCLUSIONS,
        excluded(exclusions, v).last() == v,
        exclusions.len() < MAX_EXCLUSIONS ==> excluded(exclusions, v).drop_last() == exclusions,
        exclusions.len() == MAX_EXCLUSIONS ==> excluded(exclusions, v).drop_last() == exclusions.skip(1),
{
    if exclusions.len() < MAX_EXCLUSIONS {
        assert(exclusions.push(v).drop_last() == exclusions);
    } else {
        assert(exclusions.drop_first().push(v).drop_last() == exclusions.skip(1));
    }
}

/// Stepping back keeps a walk sound.
pub proof fn lemma_backtracked_sound(map: &ACOMap, walk: WalkView)
    requires
        sound(map, walk),
        walk.path.len() > 0,
    ensures
        sound(map, backtracked(walk)),
{
    let back = backtracked(walk);
    assert(forall|i: int| 0 <= i < back.path.len() ==> back.path[i] == walk.path[i]);
    if back.path.contains(back.current) {
        let i = choose|i: int| 0 <= i < back.path.len() && back.path[i] == back.current;
        assert(walk.path[i] == walk.path[walk.path.len() - 1]);
    }
}

/// Retreating keeps a walk sound, and ends either where a move is open or
/// where the path is used up.
pub proof fn lemma_retreated_sound(map: &ACOMap, walk: WalkView)
    requires
        sound(map, walk),
    ensures
        sound(map, retreated(map, walk)),
        stuck(map, retreated(map, walk)) ==> retreated(map, walk).path.len() == 0,
    decreases walk.path.len(),
{
    if stuck(map, walk) && walk.path.len() > 0 {
        lemma_backtracked_sound(map, walk);
        lemma_retreated_sound(map, backtracked(walk));
    }
}

/// A move to a neighbour that the walker may move to keeps a walk sound.
pub proof fn lemma_advanced_sound(map: &ACOMap, walk: WalkView, next: VerticeLoc)
    requires
        sound(map, walk),
        in_grid(map@.width, map@.height, next),
        adjacent(walk.current, next),
        !avoided(walk).contains(next),
    ensures
        sound(map, advanced(walk, next)),
{
    let ahead = advanced(walk, next);
    assert forall|i: int, j: int| 0 <= i < ahead.path.len() && 0 <= j < ahead.path.len() && i != j implies
        ahead.path[i] != ahead.path[j] by {
        if i == walk.path.len() {
            assert(walk.path.contains(walk.path[j]));
        } else if j == walk.path.len() {
            assert(walk.path.contains(walk.path[i]));
        }
    }
    lemma_avoided(walk, next);
    if ahead.path.contains(next) {
        let i = choose|i: int| 0 <= i < ahead.path.len() && ahead.path[i] == next;
        if i < walk.path.len() {
            assert(walk.path.contains(walk.path[i]));
        }
    }
    assert forall|i: int| 0 <= i < ahead.exclusions.len() implies !ahead.path.contains(
        #[trigger] ahead.exclusions[i],
    ) by {
        let given_up = walk.exclusions[i];
        assert(walk.exclusions.contains(given_up));
        if ahead.path.contains(given_up) {
            let j = choose|j: int| 0 <= j < ahead.path.len() && ahead.path[j] == given_up;
            if j < walk.path.len() {
                assert(walk.path.contains(walk.path[j]));
            }
        }
    }
}

impl WalkState {
    /// Whether the walk is sound on `map`.
    pub open spec fn wf(&self, map: &ACOMap) -> bool {
        sound(map, self@)
    }

    /// A walk that starts at `start`, with nothing behind it.
    pub fn new(start: VerticeLoc) -> (walk: Self)
        ensures
            walk@ == (WalkView { current: start, path: Seq::empty(), exclusions: Seq::empty() }),
    {
        WalkState { current: start, path: Vec::new(), exclusions: Vec::new() }
    }

    /// The vertex that the walker stands on.
    pub fn current(&self) -> (v: VerticeLoc)
        ensures
            v == self@.current,
    {
        self.current
    }

    /// The vertices that the walker came through, oldest first.
    pub fn path(&self) -> (path: &Vec<VerticeLoc>)
        ensures
            path@ == self@.path,
    {
        &self.path
    }

    /// The vertices that the walker has given up, oldest first.
    pub fn exclusions(&self) -> (exclusions: &Vec<VerticeLoc>)
        ensures
            exclusions@ == self@.exclusions,
    {
        &self.exclusions
    }

    /// The path followed by the exclusions, in one list.
    fn avoided(&self) -> (list: Vec<VerticeLoc>)
        ensures
            list@ == avoided(self@),
    {
        let mut list: Vec<VerticeLoc> = Vec::new();
        let mut i: usize = 0;
        while i < self.path.len()
            invariant
                i <= self.path@.len(),
                list@ == self.path@.take(i as int),
            decreases self.path@.len() - i,
        {
            list.push(self.path[i]);
            i += 1;
            assert(list@ == self.path@.take(i as int));
        }
        assert(self.path@.take(self.path@.len() as int) == self.path@);
        let mut j: usize = 0;
        while j < self.exclusions.len()
            invariant
                j <= self.exclusions@.len(),
                list@ == self.path@ + self.exclusions@.take(j as int),
            decreases self.exclusions@.len() - j,
        {
            list.push(self.exclusions[j]);
            j += 1;
            assert(list@ == self.path@ + self.exclusions@.take(j as int));
        }
        assert(self.exclusions@.take(self.exclusions@.len() as int) == self.exclusions@);
        list
    }

    /// Steps back while no move is open and the path is not used up, giving
    /// up each vertex that is left. Returns the total likelihood of the
    /// moves that are open where the walker then stands.
    pub fn retreat(&mut self, map: &ACOMap) -> (open: u128)
        requires
            map.wf(),
            old(self).wf(map),
        ensures
            final(self).wf(map),
            final(self)@ == retreated(map, old(self)@),
            open == total_weight(map.candidates(final(self)@.current, avoided(final(self)@))),
            open == 0 ==> final(self)@.path.len() == 0,
    {
        loop
            invariant
                map.wf(),
                self.wf(map),
                retreated(map, self@) == retreated(map, old(self)@),
            decreases self.path@.len(),
        {
            let avoid: Vec<VerticeLoc> = self.avoided();
            let open: u128 = map.weigh_neighbours(self.current, &avoid).total();
            if open > 0 || self.path.len() == 0 {
                return open;
            }
            let ghost before = self@;
            proof {
                lemma_backtracked_sound(map, before);
            }
            if self.exclusions.len() >= MAX_EXCLUSIONS {
                self.exclusions.remove(0);
            }
            self.exclusions.push(self.current);
            self.current = self.path.pop().unwrap();
            proof {
                assert(self@.exclusions =~= excluded(before.exclusions, before.current));
                assert(self@ == backtracked(before));
            }
        }
    }

    /// Moves forward to the neighbour that `draw` selects among those that
    /// the walker may move to, and returns it. A draw that selects none
    /// leaves the walk as it is.
    pub fn advance(&mut self, map: &ACOMap, draw: u128) -> (next: Option<VerticeLoc>)
        requires
            map.wf(),
            old(self).wf(map),
        ensures
            final(self).wf(map),
            next == map.selected(old(self)@.current, avoided(old(self)@), draw as nat),
            final(self)@ == (match next {
                Some(v) => advanced(old(self)@, v),
                None => old(self)@,
            }),
    {
        let avoid: Vec<VerticeLoc> = self.avoided();
        let next: Option<VerticeLoc> = map.pick_next_vertice(self.current, &avoid, draw);
        if let Some(v) = next {
            proof {
                map.lemma_selected_is_candidate(self@.current, avoided(self@), draw as nat);
                lemma_advanced_sound(map, self@, v);
            }
            self.path.push(self.current);
            self.current = v;
        }
        next
    }

    /// One step of the walk: the walker retreats from dead ends until a move
    /// is open, then moves to a neighbour drawn at random with a
    /// probability proportional to its likelihood. Where the walker has
    /// retreated to its start and still no move is open, the walk is
    /// exhausted and stays there.
    pub fn step(&mut self, map: &ACOMap) -> (outcome: StepOutcome)
        requires
            map.wf(),
            old(self).wf(map),
        ensures
            final(self).wf(map),
            outcome == StepOutcome::Exhausted <==> stuck(map, retreated(map, old(self)@)),
            outcome == StepOutcome::Exhausted ==> final(self)@ == retreated(map, old(self)@),
            outcome matches StepOutcome::Moved(next) ==> {
                let settled = retreated(map, old(self)@);
                &&& final(self)@ == advanced(settled, next)
                &&& exists|draw: nat|
                    draw < total_weight(map.candidates(settled.current, avoided(settled))) && Some(next)
                        == #[trigger] map.selected(settled.current, avoided(settled), draw)
                &&& in_grid(map@.width, map@.height, next)
                &&& adjacent(settled.current, next)
                &&& !settled.path.contains(next)
                &&& !settled.exclusions.contains(next)
                &&& map@.pheromone[(settled.current, next)] > 0
                &&& map.likelihood(settled.current, next) > 0
            },
    {
        let open: u128 = self.retreat(map);
        if open == 0 {
            return StepOutcome::Exhausted;
        }
        let ghost settled = self@;
        let draw: u128 = uniform_below(open);
        proof {
            map.lemma_selected_is_candidate(settled.current, avoided(settled), draw as nat);
        }
        match self.advance(map, draw) {
            Some(next) => {
                proof {
                    lemma_avoided(settled, next);
                }
                StepOutcome::Moved(next)
            },
            // A draw below the total always selects a neighbour.
            None => StepOutcome::Exhausted,
        }
    }
}

} // verus!
