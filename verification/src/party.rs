//! The party / collection viewer, toggled with C (or gamepad Select) while on
//! foot and out of battle: whether it is open, and the text it lists.

use vstd::prelude::*;
use crate::battle::Phase;
use crate::creatures::{CaughtCreature, Collection, Element, kind_name, species_in, all_kinds};
use crate::onfoot::Mode;
use crate::text::{decimal, push_decimal};

verus! {

/// The viewer's state.
pub struct PartyView {
    pub open: bool,
}

impl Default for PartyView {
    /// Closed at start.
    fn default() -> (v: PartyView)
        ensures
            !v.open,
    {
        PartyView { open: false }
    }
}

impl PartyView {
    /// C (or Select) flips the viewer.
    pub fn toggle(&mut self, pressed: bool)
        ensures
            final(self).open == (old(self).open != pressed),
    {
        if pressed {
            self.open = !self.open;
        }
    }

    /// The viewer only makes sense while walking around: in flight or in a
    /// battle it is forced shut.
    pub fn restrict(&mut self, mode: Mode, phase: Phase)
        ensures
            final(self).open == (old(self).open && mode == Mode::OnFoot && phase == Phase::Roam),
    {
        if mode != Mode::OnFoot || phase != Phase::Roam {
            self.open = false;
        }
    }
}

/// The name `{:?}` gives an element.
pub open spec fn element_text(e: Element) -> Seq<char> {
    match e {
        Element::Grass => "Grass"@,
        Element::Water => "Water"@,
        Element::Rock => "Rock"@,
        Element::Fire => "Fire"@,
    }
}

/// The element's name.
pub fn element_name(e: Element) -> (name: &'static str)
    ensures
        name@ == element_text(e),
{
    match e {
        Element::Grass => "Grass",
        Element::Water => "Water",
        Element::Rock => "Rock",
        Element::Fire => "Fire",
    }
}

/// The viewer's title: party size, then species caught out of all species.
pub open spec fn header_text(party_len: nat, species: nat) -> Seq<char> {
    "PARTY  ("@ + decimal(party_len) + ")        DEX  "@ + decimal(species) + "/"@ + decimal(
        all_kinds().len(),
    )
}

/// One card's line: a marker for the lead, then name, level and element.
pub open spec fn row_text(c: CaughtCreature, lead: bool) -> Seq<char> {
    (if lead {
        "> "@
    } else {
        ""@
    }) + kind_name(c.kind) + "   Lv"@ + decimal(c.level as nat) + "   "@ + element_text(
        crate::creatures::kind_element(c.kind),
    )
}

/// The title line of the viewer.
pub fn party_header(collection: &Collection) -> (text: String)
    ensures
        text@ == header_text(collection.party@.len(), species_in(collection.party@)),
{
    let species = collection.species_count();
    let mut out = String::from_str("PARTY  (");
    push_decimal(&mut out, collection.party.len() as u64);
    out.append(")        DEX  ");
    push_decimal(&mut out, species as u64);
    out.append("/");
    push_decimal(&mut out, 4);
    proof {
        assert(all_kinds().len() == 4);
    }
    out
}

/// The lines the viewer lists: one card per party member in party order, the
/// head (the active lead) first and marked as the lead; with nobody caught, a
/// single notice saying so.
pub fn party_rows(collection: &Collection) -> (rows: Vec<String>)
    ensures
        collection.party@.len() == 0 ==> rows@.len() == 1 && rows@[0]@ == "No creatures caught yet."@,
        collection.party@.len() > 0 ==> rows@.len() == collection.party@.len(),
        collection.party@.len() > 0 ==> forall|i: int|
            0 <= i < rows@.len() ==> #[trigger] rows@[i]@ == row_text(collection.party@[i], i == 0),
{
    let n = collection.party.len();
    let mut rows: Vec<String> = Vec::new();
    if n == 0 {
        rows.push(String::from_str("No creatures caught yet."));
        return rows;
    }
    let mut i: usize = 0;
    while i < n
        invariant
            n == collection.party@.len(),
            i <= n,
            rows@.len() == i,
            forall|j: int| 0 <= j < i ==> #[trigger] rows@[j]@ == row_text(collection.party@[j], j == 0),
        decreases n - i,
    {
        let c = collection.party[i];
        let mut line = if i == 0 {
            String::from_str("> ")
        } else {
            String::from_str("")
        };
        line.append(c.kind.name());
        line.append("   Lv");
        push_decimal(&mut line, c.level as u64);
        line.append("   ");
        line.append(element_name(c.kind.element()));
        rows.push(line);
        i += 1;
    }
    rows
}

} // verus!
