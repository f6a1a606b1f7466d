//! Creature species, their elements and moves, the type chart, player
//! progression and the consumables carried on foot.

use rand::rngs::ThreadRng;
use vstd::prelude::*;
use crate::rng::{thread_below, thread_range_u32};

verus! {

#[derive(Clone, Copy, PartialEq, Eq, Debug, Structural)]
pub enum CreatureKind {
    Grasshog,
    Aquabud,
    Rockfang,
    Flarehog,
}

#[derive(Clone, Copy, PartialEq, Eq, Debug, Structural)]
pub enum Element {
    Grass,
    Water,
    Rock,
    Fire,
}

/// The terrain of the world landed on; it decides which creatures roam there.
#[derive(Clone, Copy, PartialEq, Eq, Debug, Structural)]
pub enum Biome {
    Grass,
    Desert,
    Tundra,
    Volcanic,
    Alien,
}

/// How a move's element fares against a defender's element.
#[derive(Clone, Copy, PartialEq, Eq, Debug, Structural)]
pub enum Matchup {
    /// Double damage.
    Super,
    /// Normal damage.
    Neutral,
    /// Half damage.
    Weak,
}

// ── Names ────────────────────────────────────────────────────────────────────

pub open spec fn ailment_text(e: Element) -> Seq<char> {
    match e {
        Element::Grass => "Poisoned"@,
        Element::Water => "Drenched"@,
        Element::Rock => "Cracked"@,
        Element::Fire => "Burned"@,
    }
}

pub open spec fn kind_name(k: CreatureKind) -> Seq<char> {
    match k {
        CreatureKind::Grasshog => "Grasshog"@,
        CreatureKind::Aquabud => "Aquabud"@,
        CreatureKind::Rockfang => "Rockfang"@,
        CreatureKind::Flarehog => "Flarehog"@,
    }
}

/// The species named exactly `s`.
pub open spec fn kind_named(s: Seq<char>) -> Option<CreatureKind> {
    if s == kind_name(CreatureKind::Grasshog) {
        Some(CreatureKind::Grasshog)
    } else if s == kind_name(CreatureKind::Aquabud) {
        Some(CreatureKind::Aquabud)
    } else if s == kind_name(CreatureKind::Rockfang) {
        Some(CreatureKind::Rockfang)
    } else if s == kind_name(CreatureKind::Flarehog) {
        Some(CreatureKind::Flarehog)
    } else {
        None
    }
}

pub open spec fn kind_element(k: CreatureKind) -> Element {
    match k {
        CreatureKind::Grasshog => Element::Grass,
        CreatureKind::Aquabud => Element::Water,
        CreatureKind::Rockfang => Element::Rock,
        CreatureKind::Flarehog => Element::Fire,
    }
}

impl Element {
    /// The lingering ailment this element inflicts (flavour for a shared
    /// damage-over-time mechanic).
    pub fn ailment_label(self) -> (label: &'static str)
        ensures
            label@ == ailment_text(self),
    {
        match self {
            Element::Grass => "Poisoned",
            Element::Water => "Drenched",
            Element::Rock => "Cracked",
            Element::Fire => "Burned",
        }
    }
}

/// The two texts hold the same characters.
pub fn same_text(a: &str, b: &str) -> (same: bool)
    ensures
        same == (a@ == b@),
{
    let x = String::from_str(a);
    let y = String::from_str(b);
    x == y
}

// ── Type chart ───────────────────────────────────────────────────────────────

/// `atk` is strong against `def`: fire burns grass, water douses fire and wears
/// rock, grass drinks water and splits rock, rock smothers fire.
pub open spec fn strong_against(atk: Element, def: Element) -> bool {
    ||| atk == Element::Fire && def == Element::Grass
    ||| atk == Element::Water && def == Element::Fire
    ||| atk == Element::Water && def == Element::Rock
    ||| atk == Element::Grass && def == Element::Water
    ||| atk == Element::Grass && def == Element::Rock
    ||| atk == Element::Rock && def == Element::Fire
}

/// Damage multiplier class when `atk` hits `def` (classic triangle + rock):
/// super effective when `atk` is strong against `def`, weak when `def` is strong
/// against `atk`, neutral otherwise.
pub open spec fn matchup(atk: Element, def: Element) -> Matchup {
    if strong_against(atk, def) {
        Matchup::Super
    } else if strong_against(def, atk) {
        Matchup::Weak
    } else {
        Matchup::Neutral
    }
}

/// How a move of element `atk` fares against a defender of element `def`.
pub fn effectiveness(atk: Element, def: Element) -> (m: Matchup)
    ensures
        m == matchup(atk, def),
{
    match (atk, def) {
        (Element::Fire, Element::Grass)
        | (Element::Water, Element::Fire)
        | (Element::Water, Element::Rock)
        | (Element::Grass, Element::Water)
        | (Element::Grass, Element::Rock)
        | (Element::Rock, Element::Fire) => Matchup::Super,
        (Element::Grass, Element::Fire)
        | (Element::Fire, Element::Water)
        | (Element::Fire, Element::Rock)
        | (Element::Water, Element::Grass)
        | (Element::Rock, Element::Water)
        | (Element::Rock, Element::Grass) => Matchup::Weak,
        _ => Matchup::Neutral,
    }
}

impl Matchup {
    /// The damage multiplier, counted in halves: 4 for double, 2 for normal and
    /// 1 for half damage.
    pub fn halves(self) -> (h: u32)
        ensures
            h == (match self {
                Matchup::Super => 4u32,
                Matchup::Neutral => 2u32,
                Matchup::Weak => 1u32,
            }),
    {
        match self {
            Matchup::Super => 4,
            Matchup::Neutral => 2,
            Matchup::Weak => 1,
        }
    }
}

/// Matchups mirror each other: a super-effective hit one way is a weak hit the
/// other way, and a neutral one stays neutral.
pub proof fn lemma_matchup_mirrors(a: Element, b: Element)
    ensures
        matchup(a, b) == Matchup::Super <==> matchup(b, a) == Matchup::Weak,
        matchup(a, b) == Matchup::Neutral <==> matchup(b, a) == Matchup::Neutral,
{
}

// ── Moves ────────────────────────────────────────────────────────────────────

/// A battle move: display name, base power, SP cost, damage element, and whether
/// it inflicts that element's lingering ailment (damage over the next few turns).
#[derive(Clone, Copy)]
pub struct Move {
    pub name: &'static str,
    pub power: u32,
    pub sp_cost: u32,
    pub element: Element,
    pub ailment: bool,
}

/// The spec of one move.
pub open spec fn mv(name: Seq<char>, power: u32, sp_cost: u32, element: Element, ailment: bool) -> (
    Seq<char>,
    u32,
    u32,
    Element,
    bool,
) {
    (name, power, sp_cost, element, ailment)
}

pub open spec fn move_view(m: Move) -> (Seq<char>, u32, u32, Element, bool) {
    (m.name@, m.power, m.sp_cost, m.element, m.ailment)
}

/// Each species' move set: a free typed Tackle, an SP special, and an SP
/// ultimate that inflicts the element's ailment.
pub open spec fn move_set(k: CreatureKind) -> Seq<(Seq<char>, u32, u32, Element, bool)> {
    match k {
        CreatureKind::Grasshog => seq![
            mv("Tackle"@, 10, 0, Element::Grass, false),
            mv("Vine Lash"@, 18, 6, Element::Grass, false),
            mv("Leaf Storm"@, 26, 12, Element::Grass, true),
        ],
        CreatureKind::Aquabud => seq![
            mv("Tackle"@, 10, 0, Element::Water, false),
            mv("Bubble"@, 18, 6, Element::Water, false),
            mv("Torrent"@, 26, 12, Element::Water, true),
        ],
        CreatureKind::Rockfang => seq![
            mv("Tackle"@, 10, 0, Element::Rock, false),
            mv("Rock Throw"@, 18, 6, Element::Rock, false),
            mv("Boulder"@, 28, 13, Element::Rock, true),
        ],
        CreatureKind::Flarehog => seq![
            mv("Tackle"@, 10, 0, Element::Fire, false),
            mv("Ember"@, 18, 6, Element::Fire, false),
            mv("Flamethrow"@, 26, 12, Element::Fire, true),
        ],
    }
}

/// The spec of the roaming pool of a biome; repeated kinds are likelier.
pub open spec fn pool_of(b: Biome) -> Seq<CreatureKind> {
    match b {
        Biome::Grass => seq![
            CreatureKind::Grasshog,
            CreatureKind::Grasshog,
            CreatureKind::Grasshog,
            CreatureKind::Aquabud,
            CreatureKind::Flarehog,
        ],
        Biome::Desert => seq![
            CreatureKind::Rockfang,
            CreatureKind::Rockfang,
            CreatureKind::Flarehog,
            CreatureKind::Flarehog,
            CreatureKind::Grasshog,
        ],
        Biome::Tundra => seq![
            CreatureKind::Aquabud,
            CreatureKind::Aquabud,
            CreatureKind::Aquabud,
            CreatureKind::Rockfang,
            CreatureKind::Grasshog,
        ],
        Biome::Volcanic => seq![
            CreatureKind::Flarehog,
            CreatureKind::Flarehog,
            CreatureKind::Flarehog,
            CreatureKind::Rockfang,
            CreatureKind::Aquabud,
        ],
        Biome::Alien => seq![
            CreatureKind::Grasshog,
            CreatureKind::Aquabud,
            CreatureKind::Rockfang,
            CreatureKind::Flarehog,
        ],
    }
}

pub open spec fn all_kinds() -> Seq<CreatureKind> {
    seq![CreatureKind::Grasshog, CreatureKind::Aquabud, CreatureKind::Rockfang, CreatureKind::Flarehog]
}

impl CreatureKind {
    /// Every species, in a fixed order.
    pub fn all() -> (kinds: Vec<CreatureKind>)
        ensures
            kinds@ == all_kinds(),
    {
        let mut kinds = Vec::new();
        kinds.push(CreatureKind::Grasshog);
        kinds.push(CreatureKind::Aquabud);
        kinds.push(CreatureKind::Rockfang);
        kinds.push(CreatureKind::Flarehog);
        assert(kinds@ =~= all_kinds());
        kinds
    }

    /// The species' move set, basic move first.
    pub fn moves(self) -> (moves: [Move; 3])
        ensures
            moves@.map_values(|m: Move| move_view(m)) == move_set(self),
    {
        let moves = match self {
            CreatureKind::Grasshog => [
                Move { name: "Tackle", power: 10, sp_cost: 0, element: Element::Grass, ailment: false },
                Move { name: "Vine Lash", power: 18, sp_cost: 6, element: Element::Grass, ailment: false },
                Move { name: "Leaf Storm", power: 26, sp_cost: 12, element: Element::Grass, ailment: true },
            ],
            CreatureKind::Aquabud => [
                Move { name: "Tackle", power: 10, sp_cost: 0, element: Element::Water, ailment: false },
                Move { name: "Bubble", power: 18, sp_cost: 6, element: Element::Water, ailment: false },
                Move { name: "Torrent", power: 26, sp_cost: 12, element: Element::Water, ailment: true },
            ],
            CreatureKind::Rockfang => [
                Move { name: "Tackle", power: 10, sp_cost: 0, element: Element::Rock, ailment: false },
                Move { name: "Rock Throw", power: 18, sp_cost: 6, element: Element::Rock, ailment: false },
                Move { name: "Boulder", power: 28, sp_cost: 13, element: Element::Rock, ailment: true },
            ],
            CreatureKind::Flarehog => [
                Move { name: "Tackle", power: 10, sp_cost: 0, element: Element::Fire, ailment: false },
                Move { name: "Ember", power: 18, sp_cost: 6, element: Element::Fire, ailment: false },
                Move { name: "Flamethrow", power: 26, sp_cost: 12, element: Element::Fire, ailment: true },
            ],
        };
        assert(moves@.map_values(|m: Move| move_view(m)) =~= move_set(self));
        moves
    }

    pub fn name(self) -> (name: &'static str)
        ensures
            name@ == kind_name(self),
    {
        match self {
            CreatureKind::Grasshog => "Grasshog",
            CreatureKind::Aquabud => "Aquabud",
            CreatureKind::Rockfang => "Rockfang",
            CreatureKind::Flarehog => "Flarehog",
        }
    }

    /// The species whose name is exactly `s`.
    pub fn from_name(s: &str) -> (kind: Option<CreatureKind>)
        ensures
            kind == kind_named(s@),
    {
        if same_text(s, "Grasshog") {
            Some(CreatureKind::Grasshog)
        } else if same_text(s, "Aquabud") {
            Some(CreatureKind::Aquabud)
        } else if same_text(s, "Rockfang") {
            Some(CreatureKind::Rockfang)
        } else if same_text(s, "Flarehog") {
            Some(CreatureKind::Flarehog)
        } else {
            None
        }
    }

    pub fn element(self) -> (e: Element)
        ensures
            e == kind_element(self),
    {
        match self {
            CreatureKind::Grasshog => Element::Grass,
            CreatureKind::Aquabud => Element::Water,
            CreatureKind::Rockfang => Element::Rock,
            CreatureKind::Flarehog => Element::Fire,
        }
    }

    /// Weighted pool for a biome, so creatures suit the world you land on.
    pub fn biome_pool(biome: Biome) -> (pool: Vec<CreatureKind>)
        ensures
            pool@ == pool_of(biome),
    {
        let mut pool = Vec::new();
        match biome {
            Biome::Grass => {
                pool.push(CreatureKind::Grasshog);
                pool.push(CreatureKind::Grasshog);
                pool.push(CreatureKind::Grasshog);
                pool.push(CreatureKind::Aquabud);
                pool.push(CreatureKind::Flarehog);
            },
            Biome::Desert => {
                pool.push(CreatureKind::Rockfang);
                pool.push(CreatureKind::Rockfang);
                pool.push(CreatureKind::Flarehog);
                pool.push(CreatureKind::Flarehog);
                pool.push(CreatureKind::Grasshog);
            },
            Biome::Tundra => {
                pool.push(CreatureKind::Aquabud);
                pool.push(CreatureKind::Aquabud);
                pool.push(CreatureKind::Aquabud);
                pool.push(CreatureKind::Rockfang);
                pool.push(CreatureKind::Grasshog);
            },
            Biome::Volcanic => {
                pool.push(CreatureKind::Flarehog);
                pool.push(CreatureKind::Flarehog);
                pool.push(CreatureKind::Flarehog);
                pool.push(CreatureKind::Rockfang);
                pool.push(CreatureKind::Aquabud);
            },
            Biome::Alien => {
                pool.push(CreatureKind::Grasshog);
                pool.push(CreatureKind::Aquabud);
                pool.push(CreatureKind::Rockfang);
                pool.push(CreatureKind::Flarehog);
            },
        }
        assert(pool@ =~= pool_of(biome));
        pool
    }
}

/// Names tell species apart: reading a species' name back gives that species.
pub proof fn lemma_name_round_trip(k: CreatureKind)
    ensures
        kind_named(kind_name(k)) == Some(k),
{
    reveal_strlit("Grasshog");
    reveal_strlit("Aquabud");
    reveal_strlit("Rockfang");
    reveal_strlit("Flarehog");
    let g = kind_name(CreatureKind::Grasshog);
    let a = kind_name(CreatureKind::Aquabud);
    let r = kind_name(CreatureKind::Rockfang);
    let f = kind_name(CreatureKind::Flarehog);
    assert(g[0] != a[0] && g[0] != r[0] && g[0] != f[0] && a[0] != r[0] && a[0] != f[0] && r[0] != f[0]);
}

// ── Wild creatures ───────────────────────────────────────────────────────────

/// The biome a name selects: "desert", "tundra", "volcanic" and "alien" name
/// theirs, anything else is grassland.
pub fn biome_named(name: &str) -> (b: Biome)
    ensures
        b == (if name@ == "desert"@ {
            Biome::Desert
        } else if name@ == "tundra"@ {
            Biome::Tundra
        } else if name@ == "volcanic"@ {
            Biome::Volcanic
        } else if name@ == "alien"@ {
            Biome::Alien
        } else {
            Biome::Grass
        }),
{
    if same_text(name, "desert") {
        Biome::Desert
    } else if same_text(name, "tundra") {
        Biome::Tundra
    } else if same_text(name, "volcanic") {
        Biome::Volcanic
    } else if same_text(name, "alien") {
        Biome::Alien
    } else {
        Biome::Grass
    }
}

/// Levels of wild creatures lie in `WILD_LEVELS_FROM..WILD_LEVELS_TO`.
pub const WILD_LEVELS_FROM: u32 = 2;
pub const WILD_LEVELS_TO: u32 = 18;

/// The wild creature two draws give: entry `pick` of the biome's pool and the
/// level drawn.
pub fn wild_creature_from_draws(biome: Biome, pick: usize, level: u32) -> (c: (CreatureKind, u32))
    requires
        pick < pool_of(biome).len(),
    ensures
        c == (pool_of(biome)[pick as int], level),
{
    let pool = CreatureKind::biome_pool(biome);
    (pool[pick], level)
}

/// A wild creature for the field of a biome: a species drawn from the biome's
/// pool (so the pool's repeats weight the draw) and a level drawn from
/// `WILD_LEVELS_FROM..WILD_LEVELS_TO`.
pub fn roll_wild_creature(biome: Biome, rng: &mut ThreadRng) -> (c: (CreatureKind, u32))
    ensures
        pool_of(biome).contains(c.0),
        WILD_LEVELS_FROM <= c.1 < WILD_LEVELS_TO,
{
    let n = CreatureKind::biome_pool(biome).len();
    let pick = thread_below(rng, n);
    let level = thread_range_u32(rng, WILD_LEVELS_FROM, WILD_LEVELS_TO);
    let c = wild_creature_from_draws(biome, pick, level);
    assert(pool_of(biome)[pick as int] == c.0);
    c
}

// ── Progression ──────────────────────────────────────────────────────────────

/// Crystals reward per successful capture.
pub const CAPTURE_REWARD: u32 = 40;

/// EXP needed to advance from level `level` to the next.
pub open spec fn exp_needed(level: nat) -> nat {
    50 + level * 50
}

/// Levels gained by holding `exp` points at level `level`, spending the
/// requirement of each level in turn.
pub open spec fn levels_gained(level: nat, exp: nat) -> nat
    decreases exp,
{
    if exp >= exp_needed(level) {
        1 + levels_gained(level + 1, (exp - exp_needed(level)) as nat)
    } else {
        0
    }
}

/// EXP left over after those level-ups.
pub open spec fn exp_left(level: nat, exp: nat) -> nat
    decreases exp,
{
    if exp >= exp_needed(level) {
        exp_left(level + 1, (exp - exp_needed(level)) as nat)
    } else {
        exp
    }
}

/// EXP needed to advance from `level` to the next.
pub fn exp_to_next(level: u32) -> (need: u32)
    requires
        exp_needed(level as nat) <= u32::MAX,
    ensures
        need == exp_needed(level as nat),
{
    50 + level * 50
}

/// The player's level and EXP.
pub struct Progress {
    pub level: u32,
    pub exp: u32,
}

impl Progress {
    /// A fresh player: level 1, no EXP.
    pub fn new() -> (p: Progress)
        ensures
            p.level == 1,
            p.exp == 0,
    {
        Progress { level: 1, exp: 0 }
    }
}

/// The leftover EXP is always short of the next level.
pub proof fn lemma_exp_left_below_next(level: nat, exp: nat)
    ensures
        exp_left(level, exp) < exp_needed(level + levels_gained(level, exp)),
    decreases exp,
{
    if exp >= exp_needed(level) {
        lemma_exp_left_below_next(level + 1, (exp - exp_needed(level)) as nat);
    }
}

/// Gaining EXP in two installments ends at the same level with the same EXP as
/// gaining it all at once.
pub proof fn lemma_gain_is_additive(level: nat, exp: nat, a: nat, b: nat)
    ensures
        levels_gained(level, exp + a + b) == levels_gained(level, exp + a) + levels_gained(
            level + levels_gained(level, exp + a),
            exp_left(level, exp + a) + b,
        ),
        exp_left(level, exp + a + b) == exp_left(
            level + levels_gained(level, exp + a),
            exp_left(level, exp + a) + b,
        ),
    decreases exp + a,
{
    if exp + a >= exp_needed(level) {
        let rest = (exp + a - exp_needed(level)) as nat;
        lemma_gain_is_additive(level + 1, rest, 0, b);
        assert(exp + a + b - exp_needed(level) == rest + 0 + b);
    }
}

/// The largest level a gain passes through stays addressable.
pub open spec fn gain_fits(level: nat, exp: nat) -> bool {
    exp_needed(level + levels_gained(level, exp)) <= u32::MAX
}

proof fn lemma_needed_grows(a: nat, b: nat)
    requires
        a <= b,
    ensures
        exp_needed(a) <= exp_needed(b),
{
    assert(a * 50 <= b * 50) by (nonlinear_arith)
        requires
            a <= b,
    ;
}

/// Applies EXP, levelling up while the EXP covers the next level's requirement
/// and carrying the overflow. Returns the number of levels gained so callers can
/// surface a level-up notice (and grow the player's vital stats by it).
pub fn gain_exp(stats: &mut Progress, amount: u32) -> (levels: u32)
    requires
        old(stats).exp + amount <= u32::MAX,
        gain_fits(old(stats).level as nat, (old(stats).exp + amount) as nat),
    ensures
        levels == levels_gained(old(stats).level as nat, (old(stats).exp + amount) as nat),
        final(stats).level == old(stats).level + levels,
        final(stats).exp == exp_left(old(stats).level as nat, (old(stats).exp + amount) as nat),
{
    let ghost l0 = stats.level as nat;
    let ghost e0 = (stats.exp + amount) as nat;
    stats.exp += amount;
    let mut levels: u32 = 0;
    proof {
        lemma_needed_grows(l0, l0 + levels_gained(l0, e0));
    }
    while stats.exp >= exp_to_next(stats.level)
        invariant
            stats.level == l0 + levels,
            levels_gained(l0, e0) == levels + levels_gained(stats.level as nat, stats.exp as nat),
            exp_left(l0, e0) == exp_left(stats.level as nat, stats.exp as nat),
            exp_needed(l0 + levels_gained(l0, e0)) <= u32::MAX,
            exp_needed(stats.level as nat) <= u32::MAX,
        decreases stats.exp,
    {
        stats.exp -= exp_to_next(stats.level);
        stats.level += 1;
        levels += 1;
        proof {
            lemma_needed_grows(stats.level as nat, l0 + levels_gained(l0, e0));
        }
    }
    levels
}

// ── Inventory and party ──────────────────────────────────────────────────────

/// On-foot consumables.
pub struct Inventory {
    pub capture_disc: u32,
    pub bait: u32,
    pub heal_spray: u32,
    pub revive: u32,
    pub flash_bomb: u32,
    pub antidote: u32,
}

impl Inventory {
    /// The reference starting counts.
    pub fn starting() -> (inv: Inventory)
        ensures
            inv.capture_disc == 23,
            inv.bait == 12,
            inv.heal_spray == 8,
            inv.revive == 3,
            inv.flash_bomb == 6,
            inv.antidote == 0,
    {
        Inventory { capture_disc: 23, bait: 12, heal_spray: 8, revive: 3, flash_bomb: 6, antidote: 0 }
    }
}

/// A captured creature in the player's collection/party.
#[derive(Clone, Copy, PartialEq, Eq, Debug, Structural)]
pub struct CaughtCreature {
    pub kind: CreatureKind,
    pub level: u32,
}

/// The captured creatures; the party head is the active lead.
pub struct Collection {
    pub party: Vec<CaughtCreature>,
}

/// Some member of `party` is of species `k`.
pub open spec fn caught(party: Seq<CaughtCreature>, k: CreatureKind) -> bool {
    exists|i: int| 0 <= i < party.len() && party[i].kind == k
}

/// Number of distinct species among `party`.
pub open spec fn species_in(party: Seq<CaughtCreature>) -> nat {
    all_kinds().filter(|k: CreatureKind| caught(party, k)).len()
}

impl Collection {
    /// The starting collection: a level-5 Grasshog buddy, so battles always have
    /// a lead creature.
    pub fn starting() -> (c: Collection)
        ensures
            c.party@ == seq![CaughtCreature { kind: CreatureKind::Grasshog, level: 5 }],
    {
        let mut party = Vec::new();
        party.push(CaughtCreature { kind: CreatureKind::Grasshog, level: 5 });
        assert(party@ =~= seq![CaughtCreature { kind: CreatureKind::Grasshog, level: 5 }]);
        Collection { party }
    }

    /// The species of the party lead, or a Grasshog when the party is empty.
    pub fn lead_kind(&self) -> (k: CreatureKind)
        ensures
            k == (if self.party@.len() > 0 {
                self.party@[0].kind
            } else {
                CreatureKind::Grasshog
            }),
    {
        if self.party.len() > 0 {
            self.party[0].kind
        } else {
            CreatureKind::Grasshog
        }
    }

    /// Whether some party member is of species `k`.
    pub fn has_species(&self, k: CreatureKind) -> (found: bool)
        ensures
            found == caught(self.party@, k),
    {
        let mut i: usize = 0;
        while i < self.party.len()
            invariant
                i <= self.party@.len(),
                forall|j: int| 0 <= j < i ==> self.party@[j].kind != k,
            decreases self.party@.len() - i,
        {
            if self.party[i].kind == k {
                return true;
            }
            i += 1;
        }
        false
    }

    /// How many distinct species have been caught (the "dex" count).
    pub fn species_count(&self) -> (count: usize)
        ensures
            count == species_in(self.party@),
    {
        let kinds = CreatureKind::all();
        let ghost pred = |k: CreatureKind| caught(self.party@, k);
        let mut count: usize = 0;
        let mut j: usize = 0;
        while j < kinds.len()
            invariant
                j <= kinds@.len(),
                kinds@ == all_kinds(),
                pred == |k: CreatureKind| caught(self.party@, k),
                count == kinds@.take(j as int).filter(pred).len(),
                count <= j,
            decreases kinds@.len() - j,
        {
            proof {
                reveal(Seq::filter);
                let t = kinds@.take(j as int + 1);
                assert(t.drop_last() =~= kinds@.take(j as int));
                assert(t.last() == kinds@[j as int]);
                assert(t.filter(pred) == (if pred(t.last()) {
                    t.drop_last().filter(pred).push(t.last())
                } else {
                    t.drop_last().filter(pred)
                }));
            }
            let found = self.has_species(kinds[j]);
            assert(found == pred(kinds@[j as int]));
            if found {
                count += 1;
            }
            j += 1;
        }
        assert(kinds@.take(kinds@.len() as int) =~= kinds@);
        count
    }
}

} // verus!
