//! Document-wide multilevel heading counters.
//!
//! Word's heading styles reference a multilevel numbering scheme; heading
//! paragraphs inherit the numbering from their style, so the converter keeps
//! one counter per level (0..=8) for every numbering scheme and advances the
//! right level each time a heading appears, resetting every deeper level.

use std::collections::HashMap;
use vstd::prelude::*;

verus! {

broadcast use vstd::std_specs::hash::group_hash_axioms;

/// Number of levels a multilevel numbering scheme can have (ilvl 0..=8).
pub const LEVEL_COUNT: usize = 9;

/// Counter state of one numbering scheme.
#[derive(Clone, Copy)]
pub struct PerSchemeState {
    /// Current counter value at each level; 0 means "not yet started".
    pub counters: [u32; 9],
    /// Whether each level has been advanced since it was last reset.
    pub initialized: [bool; 9],
}

/// Mathematical view of a scheme's counters.
pub struct SchemeView {
    pub counters: Seq<u32>,
    pub initialized: Seq<bool>,
}

impl View for PerSchemeState {
    type V = SchemeView;

    open spec fn view(&self) -> SchemeView {
        SchemeView { counters: self.counters@, initialized: self.initialized@ }
    }
}

/// The view of a scheme that has never been advanced.
pub open spec fn fresh_scheme() -> SchemeView {
    SchemeView { counters: Seq::new(9, |d: int| 0u32), initialized: Seq::new(9, |d: int| false) }
}

/// `x + 1`, saturating at `u32::MAX`.
pub open spec fn saturating_succ(x: u32) -> u32 {
    if x == u32::MAX { u32::MAX } else { (x + 1) as u32 }
}

/// The counter a level takes when it is advanced.
pub open spec fn advanced_counter(s: SchemeView, level: int, start_at: u32) -> u32 {
    if s.initialized[level] {
        saturating_succ(s.counters[level])
    } else {
        start_at
    }
}

/// The scheme after advancing `level`: that level moves on, shallower
/// levels are untouched, deeper levels are reset.
pub open spec fn advance_scheme(s: SchemeView, level: int, start_at: u32) -> SchemeView {
    SchemeView {
        counters: Seq::new(9, |d: int|
            if d < level { s.counters[d] } else if d == level { advanced_counter(s, level, start_at) } else { 0u32 }),
        initialized: Seq::new(9, |d: int|
            if d < level { s.initialized[d] } else if d == level { true } else { false }),
    }
}

/// Tracks one `PerSchemeState` per numbering id.
pub struct HeadingCounterContext {
    pub states: HashMap<usize, PerSchemeState>,
}

impl HeadingCounterContext {
    /// The scheme state of `num_id` (a fresh state when it was never advanced).
    pub open spec fn scheme(&self, num_id: usize) -> SchemeView {
        if self.states@.contains_key(num_id) { self.states@[num_id]@ } else { fresh_scheme() }
    }

    pub fn new() -> (ctx: Self)
        ensures
            ctx.states@ == Map::<usize, PerSchemeState>::empty(),
    {
        HeadingCounterContext { states: HashMap::new() }
    }

    /// Advance the counter at `(num_id, level)` and return the counters of
    /// levels `0..=level` of that scheme. The advanced level takes
    /// `start_at` on its first appearance since its last reset and
    /// increments (saturating) afterwards; every deeper level is reset. A
    /// level beyond 8 leaves the state alone and yields no counters.
    pub fn advance(&mut self, num_id: usize, level: u32, start_at: u32) -> (counters: Vec<u32>)
        ensures
            level > 8 ==> counters@ == Seq::<u32>::empty() && final(self).states@ == old(self).states@,
            level <= 8 ==> {
                &&& final(self).states@.dom() == old(self).states@.dom().insert(num_id)
                &&& final(self).scheme(num_id) == advance_scheme(old(self).scheme(num_id), level as int, start_at)
                &&& forall|k: usize| k != num_id ==> #[trigger] final(self).scheme(k) == old(self).scheme(k)
                &&& counters@ == final(self).scheme(num_id).counters.take(level + 1)
            },
    {
        let lvl = level as usize;
        if lvl > 8 {
            return Vec::new();
        }
        let ghost before = self.scheme(num_id);
        let mut state = match self.states.get(&num_id) {
            Some(existing) => *existing,
            None => PerSchemeState { counters: [0u32; 9], initialized: [false; 9] },
        };
        assert(state@.counters =~= before.counters);
        assert(state@.initialized =~= before.initialized);
        if state.initialized[lvl] {
            let next = state.counters[lvl].saturating_add(1);
            state.counters[lvl] = next;
        } else {
            state.counters[lvl] = start_at;
            state.initialized[lvl] = true;
        }
        let mut deeper = lvl + 1;
        while deeper < LEVEL_COUNT
            invariant
                lvl < deeper <= 9,
                state@.counters.len() == 9,
                state@.initialized.len() == 9,
                forall|d: int| 0 <= d < deeper ==> state@.counters[d] == #[trigger] advance_scheme(before, lvl as int, start_at).counters[d],
                forall|d: int| 0 <= d < deeper ==> state@.initialized[d] == #[trigger] advance_scheme(before, lvl as int, start_at).initialized[d],
            decreases LEVEL_COUNT - deeper,
        {
            state.counters[deeper] = 0;
            state.initialized[deeper] = false;
            deeper = deeper + 1;
        }
        assert(state@.counters =~= advance_scheme(before, lvl as int, start_at).counters);
        assert(state@.initialized =~= advance_scheme(before, lvl as int, start_at).initialized);
        self.states.insert(num_id, state);
        let mut counters: Vec<u32> = Vec::new();
        let mut i: usize = 0;
        while i <= lvl
            invariant
                lvl <= 8,
                i <= lvl + 1,
                state@.counters.len() == 9,
                counters@ == state@.counters.take(i as int),
            decreases lvl + 1 - i,
        {
            counters.push(state.counters[i]);
            i = i + 1;
        }
        counters
    }
}

/// Advancing a level never changes the counters of its parent levels.
pub proof fn law_advance_keeps_parent_levels(s: SchemeView, level: int, start_at: u32)
    requires
        0 <= level < 9,
    ensures
        forall|d: int| 0 <= d < level ==> #[trigger] advance_scheme(s, level, start_at).counters[d] == s.counters[d],
{
}

/// Advancing the same level twice in a row moves its counter on by one
/// (saturating), whatever start value the second call passes.
pub proof fn law_repeat_advance_increments(s: SchemeView, level: int, first_start: u32, second_start: u32)
    requires
        0 <= level < 9,
    ensures
        advance_scheme(advance_scheme(s, level, first_start), level, second_start).counters[level]
            == saturating_succ(advance_scheme(s, level, first_start).counters[level]),
{
}

/// After a parent level advances, the next advance of a deeper level starts
/// again from its start value.
pub proof fn law_deeper_level_restarts(s: SchemeView, parent: int, level: int, parent_start: u32, start_at: u32)
    requires
        0 <= parent < level < 9,
    ensures
        advance_scheme(advance_scheme(s, parent, parent_start), level, start_at).counters[level]
            == start_at,
{
}

/// The first advance of a level in a fresh scheme yields its start value.
pub proof fn law_first_advance_uses_start(level: int, start_at: u32)
    requires
        0 <= level < 9,
    ensures
        advance_scheme(fresh_scheme(), level, start_at).counters[level] == start_at,
{
}

/// Advancing a level never touches its parent levels: their counters and
/// whether they have started stay as they were.
pub proof fn law_advance_keeps_parents_started(s: SchemeView, level: int, start_at: u32)
    requires
        0 <= level < 9,
    ensures
        forall|d: int| 0 <= d < level ==> #[trigger] advance_scheme(s, level, start_at).initialized[d] == s.initialized[d],
        forall|d: int| 0 <= d < level ==> #[trigger] advance_scheme(s, level, start_at).counters[d] == s.counters[d],
{
}

/// After a parent level advances and then a deeper one, advancing the parent
/// again moves its counter on by one (headings 1, 1.1, then 2): the deeper
/// heading does not restart its parent.
pub proof fn law_parent_continues_after_child(s: SchemeView, parent: int, child: int, a: u32, b: u32, c: u32)
    requires
        0 <= parent < child < 9,
    ensures
        advance_scheme(advance_scheme(advance_scheme(s, parent, a), child, b), parent, c).counters[parent]
            == saturating_succ(advance_scheme(s, parent, a).counters[parent]),
        advance_scheme(advance_scheme(s, parent, a), child, b).initialized[parent],
{
}

} // verus!
