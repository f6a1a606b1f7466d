//! Target selection: the closest planets (nearest first) are targetable, T
//! cycles through them, G engages the autopilot toward the selected one, and
//! the autopilot stops on arrival or on any manual thrust.

use vstd::prelude::*;

verus! {

/// How many of the nearest planets are targetable.
pub const TARGET_COUNT: usize = 10;

/// `i` is the first place where `e` occurs in `list`.
pub open spec fn first_at(list: Seq<u64>, e: u64, i: int) -> bool {
    &&& 0 <= i < list.len()
    &&& list[i] == e
    &&& forall|j: int| 0 <= j < i ==> list[j] != e
}

/// The first place where `e` occurs in `list`, if any.
pub open spec fn position_of(list: Seq<u64>, e: u64) -> Option<int> {
    if list.contains(e) {
        Some(choose|i: int| first_at(list, e, i))
    } else {
        None
    }
}

/// `first_at` picks out one place.
pub proof fn lemma_first_at_unique(list: Seq<u64>, e: u64, i: int, k: int)
    requires
        first_at(list, e, i),
        first_at(list, e, k),
    ensures
        i == k,
{
    if i < k {
        assert(list[i] != e);
    } else if k < i {
        assert(list[k] != e);
    }
}

/// Where `position_of` finds an element it is first.
pub proof fn lemma_position_of(list: Seq<u64>, e: u64, i: int)
    requires
        first_at(list, e, i),
    ensures
        position_of(list, e) == Some(i),
{
    assert(list.contains(e));
    let k = choose|k: int| first_at(list, e, k);
    lemma_first_at_unique(list, e, i, k);
}

/// The first place where `e` occurs in `list`.
pub fn position(list: &Vec<u64>, e: u64) -> (pos: Option<usize>)
    ensures
        match pos {
            Some(i) => i < list@.len() && position_of(list@, e) == Some(i as int),
            None => position_of(list@, e) is None,
        },
{
    let mut i: usize = 0;
    while i < list.len()
        invariant
            i <= list@.len(),
            forall|j: int| 0 <= j < i ==> list@[j] != e,
        decreases list@.len() - i,
    {
        if list[i] == e {
            proof {
                lemma_position_of(list@, e, i as int);
            }
            return Some(i);
        }
        i += 1;
    }
    None
}

/// The selection T moves to: the target after the current one, wrapping
/// around; the first target when nothing, or something no longer listed, is
/// selected.
pub open spec fn next_selection(list: Seq<u64>, selected: Option<u64>) -> u64
    recommends
        list.len() > 0,
{
    match selected {
        Some(e) => match position_of(list, e) {
            Some(i) => list[(i + 1) % (list.len() as int)],
            None => list[0],
        },
        None => list[0],
    }
}

/// The selection after `k` presses of T, starting from `selected`.
pub open spec fn cycled(list: Seq<u64>, selected: Option<u64>, k: nat) -> Option<u64>
    decreases k,
{
    if k == 0 {
        selected
    } else {
        Some(next_selection(list, cycled(list, selected, (k - 1) as nat)))
    }
}

/// With distinct targets, each press of T moves one place down the list,
/// wrapping around: after `k` presses from the `i`th target the selection is
/// the `(i + k) % n`th, so `n` presses come back to the start.
pub proof fn lemma_cycle_walks_the_list(list: Seq<u64>, i: int, k: nat)
    requires
        list.no_duplicates(),
        0 <= i < list.len(),
    ensures
        cycled(list, Some(list[i]), k) == Some(list[(i + k) % (list.len() as int)]),
    decreases k,
{
    let n = list.len() as int;
    if k == 0 {
        vstd::arithmetic::div_mod::lemma_small_mod(i as nat, n as nat);
    } else {
        lemma_cycle_walks_the_list(list, i, (k - 1) as nat);
        let m = (i + k - 1) % n;
        assert(0 <= m < n);
        assert(first_at(list, list[m], m));
        lemma_position_of(list, list[m], m);
        vstd::arithmetic::div_mod::lemma_add_mod_noop(i + k - 1, 1, n);
        if n > 1 {
            vstd::arithmetic::div_mod::lemma_small_mod(1, n as nat);
        }
        assert((m + 1) % n == (i + k) % n);
    }
}

/// The targetable planets (by id, nearest first) and the selected one.
pub struct Targets {
    pub list: Vec<u64>,
    pub selected: Option<u64>,
}

impl Default for Targets {
    /// Nothing listed or selected.
    fn default() -> (t: Targets)
        ensures
            t.list@.len() == 0,
            t.selected is None,
    {
        Targets { list: Vec::new(), selected: None }
    }
}

impl Targets {
    /// The selection is one of the listed targets, and something is selected
    /// whenever anything is listed.
    pub open spec fn well_formed(&self) -> bool {
        &&& (self.selected matches Some(e) ==> self.list@.contains(e))
        &&& (self.list@.len() > 0 ==> self.selected is Some)
    }

    /// Take the freshly ranked targets, keeping the selection when it is still
    /// listed and otherwise selecting the nearest.
    pub fn set_list(&mut self, list: Vec<u64>)
        ensures
            final(self).list@ == list@,
            final(self).selected == (match old(self).selected {
                Some(e) => if list@.contains(e) {
                    Some(e)
                } else if list@.len() > 0 {
                    Some(list@[0])
                } else {
                    None::<u64>
                },
                None => if list@.len() > 0 {
                    Some(list@[0])
                } else {
                    None::<u64>
                },
            }),
            final(self).well_formed(),
    {
        let keep = match self.selected {
            Some(e) => position(&list, e).is_some(),
            None => false,
        };
        if !keep {
            self.selected = if list.len() > 0 {
                Some(list[0])
            } else {
                None
            };
        }
        self.list = list;
    }

    /// T moves the selection on to the next listed target; with nothing
    /// listed, or T not pressed, nothing changes.
    pub fn cycle(&mut self, pressed: bool)
        ensures
            final(self).list@ == old(self).list@,
            final(self).selected == (if pressed && old(self).list@.len() > 0 {
                Some(next_selection(old(self).list@, old(self).selected))
            } else {
                old(self).selected
            }),
            old(self).well_formed() ==> final(self).well_formed(),
    {
        if !pressed || self.list.len() == 0 {
            return;
        }
        let next = match self.selected {
            Some(e) => match position(&self.list, e) {
                Some(i) => (i + 1) % self.list.len(),
                None => 0,
            },
            None => 0,
        };
        self.selected = Some(self.list[next]);
        assert(self.list@.contains(self.list@[next as int]));
    }
}

/// The autopilot flag.
pub struct Autopilot {
    pub on: bool,
}

/// What the autopilot does this frame.
#[derive(Clone, Copy, PartialEq, Eq, Debug, Structural)]
pub enum AutopilotStep {
    /// Not engaged.
    Idle,
    /// Disengage and leave the ship as it is (manual thrust, or no target).
    Cancel,
    /// Disengage and stop the ship: it has arrived.
    Arrive,
    /// Keep flying toward the target at warp speed.
    Fly,
}

/// The autopilot's decision, given whether it is on, whether manual thrust is
/// held, whether the selected target still exists, and whether the ship is
/// within stopping distance of it.
pub open spec fn step_for(on: bool, manual: bool, has_target: bool, arrived: bool) -> AutopilotStep {
    if !on {
        AutopilotStep::Idle
    } else if manual || !has_target {
        AutopilotStep::Cancel
    } else if arrived {
        AutopilotStep::Arrive
    } else {
        AutopilotStep::Fly
    }
}

impl Default for Autopilot {
    /// Off at start.
    fn default() -> (a: Autopilot)
        ensures
            !a.on,
    {
        Autopilot { on: false }
    }
}

impl Autopilot {
    /// G engages the autopilot when a target is selected.
    pub fn engage(&mut self, pressed: bool, targets: &Targets)
        ensures
            final(self).on == (old(self).on || (pressed && targets.selected is Some)),
    {
        if pressed && targets.selected.is_some() {
            self.on = true;
        }
    }

    /// One frame of the autopilot: decide, and switch off unless it keeps
    /// flying.
    pub fn step(&mut self, manual: bool, has_target: bool, arrived: bool) -> (s: AutopilotStep)
        ensures
            s == step_for(old(self).on, manual, has_target, arrived),
            final(self).on == (s == AutopilotStep::Fly),
    {
        if !self.on {
            return AutopilotStep::Idle;
        }
        if manual || !has_target {
            self.on = false;
            return AutopilotStep::Cancel;
        }
        if arrived {
            self.on = false;
            return AutopilotStep::Arrive;
        }
        AutopilotStep::Fly
    }
}

} // verus!
