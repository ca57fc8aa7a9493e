//! Per-(staff, day) personal constraints.
use std::collections::HashMap;
use vstd::prelude::*;

verus! {

broadcast use vstd::std_specs::hash::group_hash_axioms;

/// A personal constraint on one (staff, day) cell.
#[derive(Clone, Copy, PartialEq, Eq, Debug, Structural)]
pub enum Tag {
    /// The staff member must be off ("NG").
    Ng,
    /// No morning shift ("NO_MORNING").
    NoMorning,
    /// No night shift ("NO_NIGHT").
    NoNight,
}

/// The tag spelled by `name`, if it is one of the three known spellings.
pub open spec fn tag_named(name: Seq<char>) -> Option<Tag> {
    if name == "NG"@ {
        Some(Tag::Ng)
    } else if name == "NO_MORNING"@ {
        Some(Tag::NoMorning)
    } else if name == "NO_NIGHT"@ {
        Some(Tag::NoNight)
    } else {
        None
    }
}

impl Tag {
    /// Reads a tag from its textual form; any other text names no tag.
    pub fn from_name(name: &String) -> (r: Option<Tag>)
        ensures
            r == tag_named(name@),
    {
        let ng = "NG".to_owned();
        let no_morning = "NO_MORNING".to_owned();
        let no_night = "NO_NIGHT".to_owned();
        if *name == ng {
            Some(Tag::Ng)
        } else if *name == no_morning {
            Some(Tag::NoMorning)
        } else if *name == no_night {
            Some(Tag::NoNight)
        } else {
            None
        }
    }
}

/// Spacing between the keys of consecutive staff members: one more than the
/// largest 64-bit day index.
pub const STAFF_STRIDE: u128 = 18446744073709551616;

/// Whether a (staff, day) pair can be stored in a `ConstraintSet`.
pub open spec fn storable(staff: int, day: int) -> bool {
    0 <= staff < STAFF_STRIDE && 0 <= day < STAFF_STRIDE
}

/// The single integer under which a (staff, day) pair is stored.
pub open spec fn cell_key(staff: int, day: int) -> u128 {
    (staff * STAFF_STRIDE + day) as u128
}

/// A sparse mapping from (staff index, day index) to a constraint tag;
/// each pair carries at most one tag.
pub struct ConstraintSet {
    cells: HashMap<u128, Tag>,
}

impl View for ConstraintSet {
    type V = Map<(int, int), Tag>;

    closed spec fn view(&self) -> Map<(int, int), Tag> {
        Map::new(
            |k: (int, int)| storable(k.0, k.1) && self.cells@.contains_key(cell_key(k.0, k.1)),
            |k: (int, int)| self.cells@[cell_key(k.0, k.1)],
        )
    }
}

fn key_of(staff: usize, day: usize) -> (k: u128)
    ensures
        k == cell_key(staff as int, day as int),
        storable(staff as int, day as int),
{
    (staff as u128) * STAFF_STRIDE + (day as u128)
}

impl ConstraintSet {
    /// A set with no constraints.
    pub fn new() -> (s: ConstraintSet)
        ensures
            s@ == Map::<(int, int), Tag>::empty(),
    {
        let s = ConstraintSet { cells: HashMap::new() };
        assert(s@ =~= Map::<(int, int), Tag>::empty());
        s
    }

    /// Sets the tag of (staff, day), replacing any tag it had.
    pub fn insert(&mut self, staff: usize, day: usize, tag: Tag)
        ensures
            final(self)@ == old(self)@.insert((staff as int, day as int), tag),
    {
        let k = key_of(staff, day);
        self.cells.insert(k, tag);
        assert forall|a: int, b: int|
            storable(a, b) && cell_key(a, b) == k implies a == staff && b == day by {
            assert(a * STAFF_STRIDE + b == staff * STAFF_STRIDE + day);
        }
        assert(final(self)@ =~= old(self)@.insert((staff as int, day as int), tag));
    }

    /// The tag of (staff, day), if it has one.
    pub fn get(&self, staff: usize, day: usize) -> (r: Option<Tag>)
        ensures
            r == (if self@.contains_key((staff as int, day as int)) {
                Some(self@[(staff as int, day as int)])
            } else {
                None
            }),
    {
        let k = key_of(staff, day);
        match self.cells.get(&k) {
            Some(t) => Some(*t),
            None => None,
        }
    }
}

} // verus!
