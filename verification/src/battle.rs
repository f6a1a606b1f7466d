//! Turn-based battles driven by a Pokémon-style 2x2 action menu: cursor
//! movement, what each cell selects on each page, the consumables an action
//! spends, and the EXP a battle's end awards.

use vstd::prelude::*;
use crate::creatures::{Element, Move, move_set, move_view, Inventory, Collection, Progress, CaughtCreature, CreatureKind, CAPTURE_REWARD, gain_exp, gain_fits, levels_gained, exp_left, kind_name};
use crate::hud::Wallet;
use crate::rng::random_u32;
use crate::text::{decimal, push_decimal};

verus! {

/// Where the on-foot game stands with respect to battles.
#[derive(Clone, Copy, PartialEq, Eq, Debug, Structural)]
pub enum Phase {
    Roam,
    Encounter,
    Battle,
}

/// The page the action menu shows.
#[derive(Clone, Copy, PartialEq, Eq, Debug, Structural)]
pub enum Page {
    Main,
    Move,
    Item,
}

/// 2x2 menu state: which page and the cursor (0 = top left, 1 = top right,
/// 2 = bottom left, 3 = bottom right). The cursor never leaves the grid.
pub struct Menu {
    page: Page,
    cursor: usize,
}

/// The buttons pressed this frame (keyboard or gamepad).
#[derive(Clone, Copy)]
pub struct MenuInput {
    pub up: bool,
    pub down: bool,
    pub left: bool,
    pub right: bool,
    pub confirm: bool,
    pub back: bool,
}

/// What a confirmed menu cell asks for.
#[derive(Clone, Copy, PartialEq, Eq, Debug, Structural)]
pub enum Act {
    OpenMove,
    Move(usize),
    Capture,
    OpenItem,
    Flee,
    Heal,
    Bait,
    Flash,
    Back,
}

/// The action behind cell `cursor` of `page`.
pub open spec fn act_at(page: Page, cursor: usize) -> Act {
    match page {
        Page::Main => if cursor == 0 {
            Act::OpenMove
        } else if cursor == 1 {
            Act::Capture
        } else if cursor == 2 {
            Act::OpenItem
        } else {
            Act::Flee
        },
        Page::Move => if cursor == 3 {
            Act::Back
        } else {
            Act::Move(cursor)
        },
        Page::Item => if cursor == 0 {
            Act::Heal
        } else if cursor == 1 {
            Act::Bait
        } else if cursor == 2 {
            Act::Flash
        } else {
            Act::Back
        },
    }
}

/// The cursor after the arrows of `input`: up/down pick the row, left/right
/// the column, each keeping the other coordinate.
pub open spec fn moved_cursor(cursor: usize, input: MenuInput) -> int {
    let r = if input.down {
        1
    } else if input.up {
        0
    } else {
        cursor / 2
    };
    let c = if input.right {
        1
    } else if input.left {
        0
    } else {
        cursor % 2
    };
    r * 2 + c
}

/// Whether a confirmed action only turns the page.
pub open spec fn turns_page(a: Act) -> bool {
    a == Act::OpenMove || a == Act::OpenItem || a == Act::Back
}

impl Menu {
    /// The page shown.
    pub closed spec fn page_view(self) -> Page {
        self.page
    }

    /// The cell the cursor is on.
    pub closed spec fn cursor_view(self) -> usize {
        self.cursor
    }

    #[verifier::type_invariant]
    spec fn cursor_in_grid(self) -> bool {
        self.cursor < 4
    }

    /// The page shown.
    pub fn page(&self) -> (p: Page)
        ensures
            p == self.page_view(),
    {
        self.page
    }

    /// The cell the cursor is on, always one of the four.
    pub fn cursor(&self) -> (c: usize)
        ensures
            c == self.cursor_view(),
            c < 4,
    {
        proof {
            use_type_invariant(self);
        }
        self.cursor
    }

    /// Back to the main page, top-left cell.
    pub fn reset(&mut self)
        ensures
            final(self).page_view() == Page::Main,
            final(self).cursor_view() == 0,
    {
        proof {
            use_type_invariant(&*self);
        }
        self.page = Page::Main;
        self.cursor = 0;
    }
}

impl Default for Menu {
    /// The menu a battle opens on: main page, top-left cell.
    fn default() -> (m: Menu)
        ensures
            m.page_view() == Page::Main,
            m.cursor_view() == 0,
    {
        Menu { page: Page::Main, cursor: 0 }
    }
}

/// Sets up the battle screen: the menu opens on the main page, top-left cell,
/// and an empty battle log gets the opening line.
pub fn open_battle(menu: &mut Menu, log: &mut String)
    ensures
        final(menu).page_view() == Page::Main,
        final(menu).cursor_view() == 0,
        final(log)@ == (if old(log)@.len() == 0 {
            "A wild creature blocks your path!"@
        } else {
            old(log)@
        }),
{
    menu.reset();
    if log.as_str().unicode_len() == 0 {
        *log = String::from_str("A wild creature blocks your path!");
    }
}

/// The action behind cell `cursor` of `page`.
pub fn select(page: Page, cursor: usize) -> (a: Act)
    ensures
        a == act_at(page, cursor),
{
    match page {
        Page::Main => if cursor == 0 {
            Act::OpenMove
        } else if cursor == 1 {
            Act::Capture
        } else if cursor == 2 {
            Act::OpenItem
        } else {
            Act::Flee
        },
        Page::Move => if cursor == 3 {
            Act::Back
        } else {
            Act::Move(cursor)
        },
        Page::Item => if cursor == 0 {
            Act::Heal
        } else if cursor == 1 {
            Act::Bait
        } else if cursor == 2 {
            Act::Flash
        } else {
            Act::Back
        },
    }
}

/// One frame of menu input: move the cursor, let Back (Esc / B) leave the
/// move or item page for the main page, and on Confirm either turn the page
/// (which also homes the cursor) or hand back the action to resolve.
pub fn menu_step(menu: &mut Menu, input: MenuInput) -> (act: Option<Act>)
    ensures
        ({
            let moved = moved_cursor(old(menu).cursor_view(), input);
            if input.back && old(menu).page_view() != Page::Main {
                &&& act is None
                &&& final(menu).page_view() == Page::Main
                &&& final(menu).cursor_view() == 0
            } else if !input.confirm {
                &&& act is None
                &&& final(menu).page_view() == old(menu).page_view()
                &&& final(menu).cursor_view() == moved
            } else {
                let a = act_at(old(menu).page_view(), moved as usize);
                if turns_page(a) {
                    &&& act is None
                    &&& final(menu).page_view() == (if a == Act::OpenMove {
                        Page::Move
                    } else if a == Act::OpenItem {
                        Page::Item
                    } else {
                        Page::Main
                    })
                    &&& final(menu).cursor_view() == 0
                } else {
                    &&& act == Some(a)
                    &&& final(menu).page_view() == old(menu).page_view()
                    &&& final(menu).cursor_view() == moved
                }
            }
        }),
{
    proof {
        use_type_invariant(&*menu);
    }
    let mut r = menu.cursor / 2;
    let mut c = menu.cursor % 2;
    if input.up {
        r = 0;
    }
    if input.down {
        r = 1;
    }
    if input.left {
        c = 0;
    }
    if input.right {
        c = 1;
    }
    menu.cursor = r * 2 + c;

    if input.back && menu.page != Page::Main {
        menu.page = Page::Main;
        menu.cursor = 0;
        return None;
    }
    if !input.confirm {
        return None;
    }
    let act = select(menu.page, menu.cursor);
    match act {
        Act::OpenMove => {
            menu.page = Page::Move;
            menu.cursor = 0;
            None
        },
        Act::OpenItem => {
            menu.page = Page::Item;
            menu.cursor = 0;
            None
        },
        Act::Back => {
            menu.page = Page::Main;
            menu.cursor = 0;
            None
        },
        _ => Some(act),
    }
}

/// A consumable spent in battle.
#[derive(Clone, Copy, PartialEq, Eq, Debug, Structural)]
pub enum Consumable {
    CaptureDisc,
    HealSpray,
    Bait,
    FlashBomb,
}

/// How many of `item` the inventory holds.
pub open spec fn count_of(inv: &Inventory, item: Consumable) -> u32 {
    match item {
        Consumable::CaptureDisc => inv.capture_disc,
        Consumable::HealSpray => inv.heal_spray,
        Consumable::Bait => inv.bait,
        Consumable::FlashBomb => inv.flash_bomb,
    }
}

/// The inventory is unchanged apart from `item`.
pub open spec fn others_kept(a: &Inventory, b: &Inventory, item: Consumable) -> bool {
    &&& a.revive == b.revive
    &&& a.antidote == b.antidote
    &&& (item != Consumable::CaptureDisc ==> a.capture_disc == b.capture_disc)
    &&& (item != Consumable::HealSpray ==> a.heal_spray == b.heal_spray)
    &&& (item != Consumable::Bait ==> a.bait == b.bait)
    &&& (item != Consumable::FlashBomb ==> a.flash_bomb == b.flash_bomb)
}

/// The consumable an action spends, if any.
pub open spec fn cost_of(a: Act) -> Option<Consumable> {
    match a {
        Act::Capture => Some(Consumable::CaptureDisc),
        Act::Heal => Some(Consumable::HealSpray),
        Act::Bait => Some(Consumable::Bait),
        Act::Flash => Some(Consumable::FlashBomb),
        _ => None,
    }
}

/// The consumable an action spends, if any.
pub fn cost(a: Act) -> (c: Option<Consumable>)
    ensures
        c == cost_of(a),
{
    match a {
        Act::Capture => Some(Consumable::CaptureDisc),
        Act::Heal => Some(Consumable::HealSpray),
        Act::Bait => Some(Consumable::Bait),
        Act::Flash => Some(Consumable::FlashBomb),
        _ => None,
    }
}

/// Spends one `item` when there is one. Returns whether it was spent; when
/// there is none the inventory is left as it was.
pub fn spend(inv: &mut Inventory, item: Consumable) -> (spent: bool)
    ensures
        spent == (count_of(old(inv), item) > 0),
        count_of(final(inv), item) == (if spent {
            count_of(old(inv), item) - 1
        } else {
            count_of(old(inv), item) as int
        }),
        others_kept(old(inv), final(inv), item),
{
    match item {
        Consumable::CaptureDisc => {
            if inv.capture_disc == 0 {
                return false;
            }
            inv.capture_disc -= 1;
        },
        Consumable::HealSpray => {
            if inv.heal_spray == 0 {
                return false;
            }
            inv.heal_spray -= 1;
        },
        Consumable::Bait => {
            if inv.bait == 0 {
                return false;
            }
            inv.bait -= 1;
        },
        Consumable::FlashBomb => {
            if inv.flash_bomb == 0 {
                return false;
            }
            inv.flash_bomb -= 1;
        },
    }
    true
}

/// Which of the enemy's `count` moves a random roll picks.
pub fn enemy_move_index(roll: u32, count: usize) -> (i: usize)
    requires
        count > 0,
    ensures
        i == roll as int % count as int,
        i < count,
{
    (roll as usize) % count
}

/// The move a roll picks for a wild creature of `kind`: move `roll % 3` of
/// its three.
pub fn enemy_move_for_roll(kind: CreatureKind, roll: u32) -> (m: Move)
    ensures
        move_view(m) == move_set(kind)[(roll % 3) as int],
{
    let moves = kind.moves();
    let i = enemy_move_index(roll, 3);
    let m = moves[i];
    assert(moves@.map_values(|m: Move| move_view(m))[i as int] == move_view(m));
    m
}

/// The move a wild creature of `kind` answers with: one of its three moves,
/// picked by a random roll.
pub fn enemy_move(kind: CreatureKind) -> (m: Move)
    ensures
        exists|i: int| 0 <= i < 3 && move_view(m) == #[trigger] move_set(kind)[i],
{
    let roll = random_u32();
    enemy_move_for_roll(kind, roll)
}

/// EXP for catching a creature of level `level`.
pub fn capture_exp(level: u32) -> (exp: u32)
    requires
        level * 20 <= u32::MAX,
    ensures
        exp == level * 20,
{
    level * 20
}

/// EXP for a creature that fled exhausted.
pub fn defeat_exp(level: u32) -> (exp: u32)
    requires
        level * 8 <= u32::MAX,
    ensures
        exp == level * 8,
{
    level * 8
}

/// Books a successful capture: the creature joins the party, the player earns
/// the capture EXP and the crystal reward. Returns the levels gained.
pub fn record_capture(
    collection: &mut Collection,
    progress: &mut Progress,
    wallet: &mut Wallet,
    kind: CreatureKind,
    level: u32,
) -> (levels: u32)
    requires
        level * 20 <= u32::MAX,
        old(progress).exp + level * 20 <= u32::MAX,
        gain_fits(old(progress).level as nat, (old(progress).exp + level * 20) as nat),
        old(wallet).crystals + CAPTURE_REWARD <= u32::MAX,
    ensures
        final(collection).party@ == old(collection).party@.push(CaughtCreature { kind, level }),
        levels == levels_gained(old(progress).level as nat, (old(progress).exp + level * 20) as nat),
        final(progress).level == old(progress).level + levels,
        final(progress).exp == exp_left(old(progress).level as nat, (old(progress).exp + level * 20) as nat),
        final(wallet).crystals == old(wallet).crystals + CAPTURE_REWARD,
{
    collection.party.push(CaughtCreature { kind, level });
    let levels = gain_exp(progress, capture_exp(level));
    wallet.crystals = wallet.crystals + CAPTURE_REWARD;
    levels
}

/// Books a creature that fled exhausted: the player earns the defeat EXP.
/// Returns the levels gained.
pub fn record_defeat(progress: &mut Progress, level: u32) -> (levels: u32)
    requires
        level * 8 <= u32::MAX,
        old(progress).exp + level * 8 <= u32::MAX,
        gain_fits(old(progress).level as nat, (old(progress).exp + level * 8) as nat),
    ensures
        levels == levels_gained(old(progress).level as nat, (old(progress).exp + level * 8) as nat),
        final(progress).level == old(progress).level + levels,
        final(progress).exp == exp_left(old(progress).level as nat, (old(progress).exp + level * 8) as nat),
{
    gain_exp(progress, defeat_exp(level))
}

/// The notice for a catch.
pub fn caught_message(kind: CreatureKind) -> (msg: String)
    ensures
        msg@ == "Caught "@ + kind_name(kind) + "!"@,
{
    let mut msg = String::from_str("Caught ");
    msg.append(kind.name());
    msg.append("!");
    msg
}

/// The notice for reaching `level`.
pub fn level_up_message(level: u32) -> (msg: String)
    ensures
        msg@ == "Level up!  Lv."@ + decimal(level as nat),
{
    let mut msg = String::from_str("Level up!  Lv.");
    push_decimal(&mut msg, level as u64);
    msg
}

/// A move's menu label: its name, with its SP cost after it unless it is free.
pub open spec fn move_label(m: (Seq<char>, u32, u32, Element, bool)) -> Seq<char> {
    if m.2 == 0 {
        m.0
    } else {
        m.0 + " "@ + decimal(m.2 as nat) + "sp"@
    }
}

/// An item's label: its name and, in brackets, how many are left.
pub open spec fn counted_text(name: Seq<char>, n: u32) -> Seq<char> {
    name + " ("@ + decimal(n as nat) + ")"@
}

/// The label of cell `i` of `page`, for a party led by `lead` and the item
/// counts given.
pub open spec fn label_at(page: Page, lead: CreatureKind, heal: u32, bait: u32, flash: u32, i: int) -> Seq<
    char,
> {
    match page {
        Page::Main => if i == 0 {
            "Attack"@
        } else if i == 1 {
            "Capture"@
        } else if i == 2 {
            "Item"@
        } else {
            "Flee"@
        },
        Page::Move => if i < 3 {
            move_label(move_set(lead)[i])
        } else {
            "Back"@
        },
        Page::Item => if i == 0 {
            counted_text("Heal"@, heal)
        } else if i == 1 {
            counted_text("Bait"@, bait)
        } else if i == 2 {
            counted_text("Flash"@, flash)
        } else {
            "Back"@
        },
    }
}

fn counted(name: &str, n: u32) -> (label: String)
    ensures
        label@ == counted_text(name@, n),
{
    let mut label = String::from_str(name);
    label.append(" (");
    push_decimal(&mut label, n as u64);
    label.append(")");
    label
}

fn move_label_of(m: Move) -> (label: String)
    ensures
        label@ == move_label(move_view(m)),
{
    let mut label = String::from_str(m.name);
    if m.sp_cost != 0 {
        label.append(" ");
        push_decimal(&mut label, m.sp_cost as u64);
        label.append("sp");
    }
    label
}

/// The four labels the menu shows on `page`, top left first.
pub fn menu_labels(page: Page, lead: CreatureKind, inv: &Inventory) -> (labels: Vec<String>)
    ensures
        labels@.len() == 4,
        forall|i: int|
            0 <= i < 4 ==> #[trigger] labels@[i]@ == label_at(page, lead, inv.heal_spray, inv.bait, inv.flash_bomb, i),
{
    let mut labels: Vec<String> = Vec::new();
    match page {
        Page::Main => {
            labels.push(String::from_str("Attack"));
            labels.push(String::from_str("Capture"));
            labels.push(String::from_str("Item"));
            labels.push(String::from_str("Flee"));
        },
        Page::Move => {
            let moves = lead.moves();
            proof {
                assert(moves@.map_values(|m: Move| move_view(m))[0] == move_view(moves@[0]));
                assert(moves@.map_values(|m: Move| move_view(m))[1] == move_view(moves@[1]));
                assert(moves@.map_values(|m: Move| move_view(m))[2] == move_view(moves@[2]));
            }
            labels.push(move_label_of(moves[0]));
            labels.push(move_label_of(moves[1]));
            labels.push(move_label_of(moves[2]));
            labels.push(String::from_str("Back"));
        },
        Page::Item => {
            labels.push(counted("Heal", inv.heal_spray));
            labels.push(counted("Bait", inv.bait));
            labels.push(counted("Flash", inv.flash_bomb));
            labels.push(String::from_str("Back"));
        },
    }
    assert forall|i: int| 0 <= i < 4 implies #[trigger] labels@[i]@ == label_at(
        page,
        lead,
        inv.heal_spray,
        inv.bait,
        inv.flash_bomb,
        i,
    ) by {
        if i == 0 {
        } else if i == 1 {
        } else if i == 2 {
        } else {
        }
    }
    labels
}

/// The enemy's name line.
pub fn enemy_line(kind: CreatureKind, level: u32) -> (line: String)
    ensures
        line@ == "Wild "@ + kind_name(kind) + "   Lv"@ + decimal(level as nat),
{
    let mut line = String::from_str("Wild ");
    line.append(kind.name());
    line.append("   Lv");
    push_decimal(&mut line, level as u64);
    line
}

/// The lead's tag that opens the player's status line: its name and level,
/// or nothing when the party is empty.
pub fn lead_tag(collection: &Collection) -> (tag: String)
    ensures
        tag@ == (if collection.party@.len() > 0 {
            kind_name(collection.party@[0].kind) + " Lv"@ + decimal(collection.party@[0].level as nat)
                + "   "@
        } else {
            Seq::<char>::empty()
        }),
{
    if collection.party.len() > 0 {
        let lead = collection.party[0];
        let mut tag = String::from_str(lead.kind.name());
        tag.append(" Lv");
        push_decimal(&mut tag, lead.level as u64);
        tag.append("   ");
        tag
    } else {
        let tag = String::new();
        assert(tag@ =~= Seq::<char>::empty());
        tag
    }
}

/// From any cell, the arrows reach every cell, and the cursor never leaves the
/// 2x2 grid.
pub proof fn lemma_cursor_stays_in_grid(cursor: usize, input: MenuInput)
    requires
        cursor < 4,
    ensures
        0 <= moved_cursor(cursor, input) < 4,
        !input.up && !input.down && !input.left && !input.right ==> moved_cursor(cursor, input)
            == cursor,
{
}

/// The arrows choose the row and the column independently: Down picks the
/// bottom row (over Up), Up the top row, and with neither the row stays;
/// Right picks the right column (over Left), Left the left column, and with
/// neither the column stays.
pub proof fn lemma_arrows_pick_row_and_column(cursor: usize, input: MenuInput)
    requires
        cursor < 4,
    ensures
        ({
            let m = moved_cursor(cursor, input);
            &&& input.down ==> m / 2 == 1
            &&& input.up && !input.down ==> m / 2 == 0
            &&& !input.up && !input.down ==> m / 2 == cursor / 2
            &&& input.right ==> m % 2 == 1
            &&& input.left && !input.right ==> m % 2 == 0
            &&& !input.left && !input.right ==> m % 2 == cursor % 2
        }),
{
}

/// A confirmed cell does what its label says: a cell acts as Back exactly when
/// it is labelled "Back", and each of the move page's first three cells uses
/// the move it is labelled with, so every one of the lead's moves can be used.
pub proof fn lemma_cells_do_what_their_labels_say(
    page: Page,
    lead: CreatureKind,
    heal: u32,
    bait: u32,
    flash: u32,
    i: int,
)
    requires
        0 <= i < 4,
    ensures
        (act_at(page, i as usize) == Act::Back) == (label_at(page, lead, heal, bait, flash, i) == "Back"@),
        i < 3 ==> act_at(Page::Move, i as usize) == Act::Move(i as usize) && label_at(
            Page::Move,
            lead,
            heal,
            bait,
            flash,
            i,
        ) == move_label(move_set(lead)[i]),
{
    reveal_strlit("Back");
    reveal_strlit("Attack");
    reveal_strlit("Capture");
    reveal_strlit("Item");
    reveal_strlit("Flee");
    reveal_strlit("Heal");
    reveal_strlit("Bait");
    reveal_strlit("Flash");
    reveal_strlit(" (");
    reveal_strlit("Tackle");
    reveal_strlit("Vine Lash");
    reveal_strlit("Leaf Storm");
    reveal_strlit("Bubble");
    reveal_strlit("Torrent");
    reveal_strlit("Rock Throw");
    reveal_strlit("Boulder");
    reveal_strlit("Ember");
    reveal_strlit("Flamethrow");
    let back = "Back"@;
    assert(back.len() == 4 && back[0] == 'B' && back[1] == 'a');
    let l = label_at(page, lead, heal, bait, flash, i);
    if act_at(page, i as usize) != Act::Back && l == back {
        assert(l[0] == 'B' && l.len() == 4);
        if page == Page::Move {
            let m = move_set(lead)[i];
            assert(m.0[0] == l[0]);
        } else if page == Page::Item {
            assert(l[1] == back[1]);
        }
    }
}

} // verus!
