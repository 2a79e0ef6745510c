//! The selection panel: what it says about one unit, one building, or many.
//!
//! Health, damage and the like are thousandths; times thousandths of a second.

use vstd::prelude::*;
use vstd::string::*;

use crate::catalog::{
    titles_are_capitalised, building_name, building_title, item_name, item_title, research_name, research_title,
    resource_name, resource_title, unit_name, unit_title, BuildingKind, Catalog, ItemId,
    ResearchKind, ResourceKind, UnitKind,
};
use crate::entity::{entity_index, names_entity, slot_of};
use crate::lists::{in_order, in_order_sorts, order_by_key, values};
use crate::map::{clamped, round_away};
use crate::readouts::{badge, squad_badge};
use crate::text::{
    dec, fixed0, fixed1, join, joined, number, owned, percent_of, push_dec, push_fixed0,
    push_fixed1, push_number, push_text, round_even, texts,
};

verus! {

/// Selection tiles: two rows of six.
pub const MAX_CARDS: usize = 12;

/// A letter's capital; anything else stands for itself.
pub open spec fn capital(c: char) -> char {
    match "abcdefghijklmnopqrstuvwxyz"@.index_of_first(c) {
        Some(i) => "ABCDEFGHIJKLMNOPQRSTUVWXYZ"@[i],
        None => c,
    }
}

/// The first letter of a name, as a capital.
pub open spec fn first_letter(name: Seq<char>) -> Seq<char> {
    if name.len() > 0 {
        seq![capital(name[0])]
    } else {
        Seq::empty()
    }
}

/// The first letter of a name, as a capital. Names start in ASCII.
pub fn initial(name: &str) -> (r: String)
    requires
        name@.len() > 0 ==> name@[0] as u32 <= 127,
    ensures
        r@ == first_letter(name@),
{
    if name.unicode_len() == 0 {
        let out = String::new();
        assert(out@ =~= Seq::empty());
        return out;
    }
    let lower = "abcdefghijklmnopqrstuvwxyz";
    let upper = "ABCDEFGHIJKLMNOPQRSTUVWXYZ";
    proof {
        reveal_strlit("abcdefghijklmnopqrstuvwxyz");
        reveal_strlit("ABCDEFGHIJKLMNOPQRSTUVWXYZ");
        lower@.index_of_first_ensures(name@[0]);
    }
    let c = name.get_char(0);
    let mut i: usize = 0;
    while i < 26
        invariant
            i <= 26,
            lower@.len() == 26,
            upper@.len() == 26,
            lower@ == "abcdefghijklmnopqrstuvwxyz"@,
            upper@ == "ABCDEFGHIJKLMNOPQRSTUVWXYZ"@,
            name@.len() > 0,
            c == name@[0],
            forall|j: int| 0 <= j < i ==> lower@[j] != c,
        decreases 26 - i,
    {
        if lower.get_char(i) == c {
            let letter = upper.substring_char(i, i + 1);
            proof {
                lower@.index_of_first_ensures(c);
                assert(lower@.contains(c)) by {
                    assert(lower@[i as int] == c);
                }
                assert(letter@ =~= seq![capital(c)]);
            }
            return owned(letter);
        }
        i = i + 1;
    }
    let letter = name.substring_char(0, 1);
    proof {
        lower@.index_of_first_ensures(c);
        assert(letter@ =~= seq![capital(c)]);
    }
    owned(letter)
}

/// A number of thousandths as a whole number: away from zero on a tie, and no
/// further out than thirty-two bits go.
pub open spec fn whole(milli: int) -> int {
    clamped(round_away(milli, 1_000), i32::MIN as int, i32::MAX as int)
}

/// A number, where it is not negative.
pub open spec fn held(v: int) -> int {
    if v < 0 {
        0
    } else {
        v
    }
}

/// A largest value that a share can be taken of.
pub open spec fn most_of(max: int) -> int {
    if max < 1 {
        1
    } else {
        max
    }
}

fn push_whole(out: &mut String, milli: i64)
    ensures
        final(out)@ == old(out)@ + number(whole(milli as int)),
{
    let n: i128 = if milli >= 0 {
        (2 * (milli as i128) + 1_000) / 2_000
    } else {
        -((2 * (-(milli as i128)) + 1_000) / 2_000)
    };
    let fit: i64 = if n > 2_147_483_647 {
        2_147_483_647
    } else if n < -2_147_483_648 {
        -2_147_483_648
    } else {
        n as i64
    };
    push_number(out, fit);
}

fn push_held(out: &mut String, milli: i64)
    ensures
        final(out)@ == old(out)@ + number(whole(held(milli as int))),
{
    push_whole(
        out,
        if milli < 0 {
            0
        } else {
            milli
        },
    );
}

fn push_most(out: &mut String, milli: i64)
    ensures
        final(out)@ == old(out)@ + number(whole(most_of(milli as int))),
{
    push_whole(
        out,
        if milli < 1 {
            1
        } else {
            milli
        },
    );
}

/// Health as the panel shows it.
pub open spec fn hp_reads(current: int, max: int) -> Seq<char> {
    "HP "@ + number(whole(held(current))) + "/"@ + number(whole(max))
}

/// Health as the panel shows it.
pub fn hp_text(current: i64, max: i64) -> (r: String)
    ensures
        r@ == hp_reads(current as int, max as int),
{
    let mut s = owned("HP ");
    push_held(&mut s, current);
    s.append("/");
    push_whole(&mut s, max);
    s
}

/// How well something is.
#[derive(Clone, Copy, PartialEq, Eq, Debug, Structural)]
pub enum HpTint {
    /// More than half.
    Green,
    /// More than a quarter.
    Yellow,
    Red,
}

/// The tint of a health bar.
pub open spec fn health_tint(current: int, max: int) -> HpTint {
    if 2 * current > most_of(max) {
        HpTint::Green
    } else if 4 * current > most_of(max) {
        HpTint::Yellow
    } else {
        HpTint::Red
    }
}

/// The tint of a health bar.
pub fn hp_color(current: i64, max: i64) -> (r: HpTint)
    ensures
        r == health_tint(current as int, max as int),
{
    let m: i128 = if max < 1 {
        1
    } else {
        max as i128
    };
    if 2 * current as i128 > m {
        HpTint::Green
    } else if 4 * current as i128 > m {
        HpTint::Yellow
    } else {
        HpTint::Red
    }
}

/// A part of a whole, for a bar to fill.
#[derive(Clone, Copy, PartialEq, Eq, Debug, Structural)]
pub struct Bar {
    pub part: u64,
    pub of: u64,
}

impl Bar {
    /// Whole per cent filled.
    pub open spec fn percent(self) -> nat {
        round_even(100 * self.part as nat, self.of as nat)
    }
}

/// How much of a largest value there is: none of it at least, all of it at most.
pub open spec fn filled(current: int, max: int) -> Bar {
    Bar { part: clamped(current, 0, most_of(max)) as u64, of: most_of(max) as u64 }
}

fn fill(current: i64, max: i64) -> (r: Bar)
    ensures
        r == filled(current as int, max as int),
        r.part <= r.of,
        r.of > 0,
{
    let of: i64 = if max < 1 {
        1
    } else {
        max
    };
    let part: i64 = if current < 0 {
        0
    } else if current > of {
        of
    } else {
        current
    };
    Bar { part: part as u64, of: of as u64 }
}

/// A health bar: how far it is filled, and how it is tinted.
#[derive(Clone, Copy, PartialEq, Eq, Debug, Structural)]
pub struct HealthBar {
    pub bar: Bar,
    pub tint: HpTint,
}

/// The health bar of something.
pub open spec fn health(current: int, max: int) -> HealthBar {
    HealthBar { bar: filled(current, max), tint: health_tint(current, max) }
}

/// The health bar of something.
pub fn card_health(hp: i64, max: i64) -> (r: HealthBar)
    ensures
        r == health(hp as int, max as int),
        r.bar.part <= r.bar.of,
        r.bar.of > 0,
{
    HealthBar { bar: fill(hp, max), tint: hp_color(hp, max) }
}

// ---------------------------------------------------------------------------
// One unit
// ---------------------------------------------------------------------------

/// A hero's progress.
#[derive(Clone, Copy, PartialEq, Eq, Debug, Structural)]
pub struct HeroFacts {
    pub level: u32,
    pub xp: i64,
    pub xp_to_next: i64,
    pub mana: i64,
    pub max_mana: i64,
}

/// A hero's two bars.
#[derive(Clone, Copy, PartialEq, Eq, Debug, Structural)]
pub struct HeroBars {
    pub xp: Bar,
    pub mana: Bar,
}

impl HeroFacts {
    /// How far to the next level, and how much mana is left.
    pub open spec fn bars(self) -> HeroBars {
        HeroBars {
            xp: filled(self.xp as int, self.xp_to_next as int),
            mana: filled(self.mana as int, self.max_mana as int),
        }
    }
}

/// A hero's two bars.
pub fn hero_bars(h: &HeroFacts) -> (r: HeroBars)
    ensures
        r == h.bars(),
        r.xp.part <= r.xp.of,
        r.xp.of > 0,
        r.mana.part <= r.mana.of,
        r.mana.of > 0,
{
    HeroBars { xp: fill(h.xp, h.xp_to_next), mana: fill(h.mana, h.max_mana) }
}

/// What the panel reads about one unit.
#[derive(Clone, Copy, Debug)]
pub struct PanelUnit {
    pub kind: UnitKind,
    pub hp: i64,
    pub max_hp: i64,
    pub damage: i64,
    /// How much harder it hits buildings.
    pub vs_building: i64,
    pub range: i64,
    pub speed: i64,
    /// A worker under arms.
    pub militia: bool,
    pub hero: Option<HeroFacts>,
    pub items: Option<(Option<ItemId>, Option<ItemId>)>,
    pub carrying: Option<(u32, ResourceKind)>,
}

impl PanelUnit {
    pub open spec fn title(self) -> Seq<char> {
        unit_title(self.kind) + (if self.militia {
            " (Militia)"@
        } else {
            Seq::empty()
        }) + (match self.hero {
            Some(h) => "  Lv "@ + dec(h.level as nat),
            None => Seq::empty(),
        })
    }

    pub open spec fn stats(self) -> Seq<char> {
        "Damage "@ + fixed0(self.damage as int) + (if self.vs_building > 1_000 {
            " (x"@ + fixed0(self.vs_building as int) + " vs buildings)"@
        } else {
            Seq::empty()
        }) + "    Range "@ + fixed1(self.range as int) + "    Speed "@ + fixed0(self.speed as int)
    }

    /// A hero's progress, else what a worker carries.
    pub open spec fn extra(self) -> Seq<char> {
        match self.hero {
            Some(h) => "XP "@ + number(whole(held(h.xp as int))) + "/"@ + number(
                whole(most_of(h.xp_to_next as int)),
            ) + "    Mana "@ + number(whole(held(h.mana as int))) + "/"@ + number(
                whole(most_of(h.max_mana as int)),
            ),
            None => match self.carrying {
                Some((amount, kind)) => "Carrying: "@ + dec(amount as nat) + " "@ + resource_title(
                    kind,
                ),
                None => Seq::empty(),
            },
        }
    }

    /// A hero's bars; nobody else has any.
    pub open spec fn bars(self) -> Option<HeroBars> {
        match self.hero {
            Some(h) => Some(h.bars()),
            None => None,
        }
    }

    /// A hero's two slots; an empty one shows as room.
    pub open spec fn bag(self) -> Seq<char> {
        match self.hero {
            Some(_) => {
                let (a, b) = match self.items {
                    Some(slots) => slots,
                    None => (None, None),
                };
                "[1] "@ + slot_title(a) + "  [2] "@ + slot_title(b)
            },
            None => Seq::empty(),
        }
    }
}

pub open spec fn slot_title(item: Option<ItemId>) -> Seq<char> {
    match item {
        Some(id) => item_title(id),
        None => "-"@,
    }
}

fn slot_name(item: Option<ItemId>) -> (r: &'static str)
    ensures
        r@ == slot_title(item),
{
    match item {
        Some(id) => item_name(id),
        None => "-",
    }
}

/// What the panel says.
#[derive(Debug)]
pub struct Pane {
    pub name: String,
    pub letter: String,
    pub hp: String,
    pub health: HealthBar,
    /// A hero's bars.
    pub hero: Option<HeroBars>,
    pub stats: String,
    pub extra: String,
    pub items: String,
    /// How far along something is.
    pub progress: Option<Bar>,
    /// One letter per unit in the queue.
    pub queue: Vec<String>,
}

fn unit_title_text(u: &PanelUnit) -> (r: String)
    ensures
        r@ == u.title(),
{
    let mut s = owned(unit_name(u.kind));
    if u.militia {
        s.append(" (Militia)");
    }
    if let Some(h) = u.hero {
        s.append("  Lv ");
        push_dec(&mut s, h.level as u64);
    }
    assert(s@ =~= u.title());
    s
}

fn unit_stats_text(u: &PanelUnit) -> (r: String)
    ensures
        r@ == u.stats(),
{
    let mut s = owned("Damage ");
    push_fixed0(&mut s, u.damage);
    if u.vs_building > 1_000 {
        s.append(" (x");
        push_fixed0(&mut s, u.vs_building);
        s.append(" vs buildings)");
    }
    s.append("    Range ");
    push_fixed1(&mut s, u.range);
    s.append("    Speed ");
    push_fixed0(&mut s, u.speed);
    assert(s@ =~= u.stats());
    s
}

fn unit_extra_text(u: &PanelUnit) -> (r: String)
    ensures
        r@ == u.extra(),
{
    let mut s = String::new();
    if let Some(h) = u.hero {
        s.append("XP ");
        push_held(&mut s, h.xp);
        s.append("/");
        push_most(&mut s, h.xp_to_next);
        s.append("    Mana ");
        push_held(&mut s, h.mana);
        s.append("/");
        push_most(&mut s, h.max_mana);
    } else if let Some((amount, kind)) = u.carrying {
        s.append("Carrying: ");
        push_dec(&mut s, amount as u64);
        s.append(" ");
        s.append(resource_name(kind));
    }
    assert(s@ =~= u.extra());
    s
}

fn unit_bag_text(u: &PanelUnit) -> (r: String)
    ensures
        r@ == u.bag(),
{
    let mut s = String::new();
    if u.hero.is_some() {
        let (a, b): (Option<ItemId>, Option<ItemId>) = match u.items {
            Some(slots) => slots,
            None => (None, None),
        };
        s.append("[1] ");
        s.append(slot_name(a));
        s.append("  [2] ");
        s.append(slot_name(b));
    }
    assert(s@ =~= u.bag());
    s
}

/// The panel of one unit.
pub fn unit_pane(u: &PanelUnit) -> (r: Pane)
    ensures
        r.name@ == u.title(),
        r.letter@ == first_letter(unit_title(u.kind)),
        r.hp@ == hp_reads(u.hp as int, u.max_hp as int),
        r.health == health(u.hp as int, u.max_hp as int),
        r.hero == u.bars(),
        r.stats@ == u.stats(),
        r.extra@ == u.extra(),
        r.items@ == u.bag(),
        r.progress is None,
        r.queue@.len() == 0,
{
    proof {
        titles_are_capitalised(u.kind, BuildingKind::Farm);
    }
    Pane {
        name: unit_title_text(u),
        letter: initial(unit_name(u.kind)),
        hp: hp_text(u.hp, u.max_hp),
        health: card_health(u.hp, u.max_hp),
        hero: match &u.hero {
            Some(h) => Some(hero_bars(h)),
            None => None,
        },
        stats: unit_stats_text(u),
        extra: unit_extra_text(u),
        items: unit_bag_text(u),
        progress: None,
        queue: Vec::new(),
    }
}

// ---------------------------------------------------------------------------
// One building
// ---------------------------------------------------------------------------

/// Work with an end: what is left of a whole.
#[derive(Clone, Copy, PartialEq, Eq, Debug, Structural)]
pub struct Work {
    pub remaining: u64,
    pub total: u64,
}

impl Work {
    /// How much is done.
    pub open spec fn bar(self) -> Bar {
        let of = most_of(self.total as int);
        Bar { part: held(of - self.remaining) as u64, of: of as u64 }
    }

    fn share(self) -> (r: Bar)
        ensures
            r == self.bar(),
            r.part <= r.of,
            r.of > 0,
    {
        let of: u64 = if self.total > 0 {
            self.total
        } else {
            1
        };
        Bar {
            part: if self.remaining >= of {
                0
            } else {
                of - self.remaining
            },
            of,
        }
    }
}

/// Training under way: how much of a whole is done.
#[derive(Clone, Copy, PartialEq, Eq, Debug, Structural)]
pub struct Drill {
    pub progress: u64,
    pub total: u64,
}

impl Drill {
    /// How much is done.
    pub open spec fn bar(self) -> Bar {
        let of = most_of(self.total as int);
        Bar { part: clamped(self.progress as int, 0, of) as u64, of: of as u64 }
    }

    fn share(self) -> (r: Bar)
        ensures
            r == self.bar(),
            r.part <= r.of,
            r.of > 0,
    {
        let of: u64 = if self.total > 0 {
            self.total
        } else {
            1
        };
        Bar {
            part: if self.progress > of {
                of
            } else {
                self.progress
            },
            of,
        }
    }
}

/// A building's attack.
#[derive(Clone, Copy, PartialEq, Eq, Debug, Structural)]
pub struct AttackFacts {
    pub damage: i64,
    pub range: i64,
    pub cooldown: i64,
}

/// A forge at work.
#[derive(Clone, Copy, PartialEq, Eq, Debug, Structural)]
pub struct ForgeFacts {
    pub kind: ResearchKind,
    pub to_level: u32,
    pub work: Work,
    /// What the level adds to every unit.
    pub bonus: i64,
}

/// What the panel reads about one building.
#[derive(Clone, Debug)]
pub struct PanelBuilding {
    pub kind: BuildingKind,
    pub hp: i64,
    pub max_hp: i64,
    /// Still going up.
    pub construction: Option<Work>,
    pub attack: Option<AttackFacts>,
    pub supply_provided: u32,
    /// The team's levels of the ladders this building offers.
    pub ladders: Vec<(ResearchKind, u32)>,
    pub tier: u32,
    /// There is a next rung.
    pub upgradable: bool,
    pub upgrading: Option<(BuildingKind, Work)>,
    pub researching: Option<ForgeFacts>,
    pub queue: Option<Vec<UnitKind>>,
    /// How far the first of the queue is.
    pub training: Drill,
}

pub open spec fn ladder_reads(cat: &Catalog, l: (ResearchKind, u32)) -> Seq<char> {
    research_title(l.0) + " "@ + dec(l.1 as nat) + "/"@ + dec(cat.research_max as nat)
}

pub open spec fn ladder_pieces(cat: &Catalog, list: Seq<(ResearchKind, u32)>) -> Seq<Seq<char>> {
    list.map_values(|l: (ResearchKind, u32)| ladder_reads(cat, l))
}

pub open spec fn queue_kinds(queue: Option<Vec<UnitKind>>) -> Seq<UnitKind> {
    match queue {
        Some(list) => list@,
        None => Seq::empty(),
    }
}

pub open spec fn letters(kinds: Seq<UnitKind>) -> Seq<Seq<char>> {
    kinds.map_values(|k: UnitKind| first_letter(unit_title(k)))
}

impl PanelBuilding {
    /// What a finished building is good for, before its tier.
    pub open spec fn trade(&self, cat: &Catalog) -> Seq<char> {
        if self.ladders@.len() > 0 {
            joined(ladder_pieces(cat, self.ladders@), "    "@)
        } else {
            match self.attack {
                Some(a) => "Damage "@ + fixed0(a.damage as int) + "    Range "@ + fixed1(
                    a.range as int,
                ) + "    Attack "@ + fixed1(a.cooldown as int) + "s"@,
                None => if self.supply_provided > 0 {
                    "Supply +"@ + dec(self.supply_provided as nat)
                } else {
                    Seq::empty()
                },
            }
        }
    }

    pub open spec fn has_tier(&self) -> bool {
        self.tier > 1 || self.upgradable
    }

    pub open spec fn stats(&self, cat: &Catalog) -> Seq<char> {
        match self.construction {
            Some(w) => "Under construction: "@ + dec(w.bar().percent()) + "%"@,
            None => if self.has_tier() {
                let tier = "Tier "@ + dec(self.tier as nat);
                if self.trade(cat).len() == 0 {
                    tier
                } else {
                    self.trade(cat) + "    "@ + tier
                }
            } else {
                self.trade(cat)
            },
        }
    }

    /// What the building is at: a conversion first, then research, then its
    /// queue.
    pub open spec fn extra(&self) -> Seq<char> {
        if self.construction is Some {
            Seq::empty()
        } else {
            match (self.upgrading, self.researching) {
                (Some((to, w)), _) => "Upgrading to "@ + building_title(to) + ": "@ + dec(
                    w.bar().percent(),
                ) + "%   (training paused, "@ + dec(queue_kinds(self.queue).len()) + " queued)"@,
                (None, Some(f)) => "Researching "@ + research_title(f.kind) + " "@ + dec(
                    f.to_level as nat,
                ) + ": "@ + dec(f.work.bar().percent()) + "%   ("@ + dec(
                    round_even(f.work.remaining as nat, 1000),
                ) + "s left, +"@ + fixed0(f.bonus as int) + " to every unit)"@,
                (None, None) => match self.queue {
                    Some(list) => if list@.len() > 0 {
                        "Training "@ + unit_title(list@[0]) + ": "@ + dec(
                            self.training.bar().percent(),
                        ) + "%   ("@ + dec(list@.len()) + " queued)"@
                    } else {
                        "Ready to train"@
                    },
                    None => Seq::empty(),
                },
            }
        }
    }

    /// What the progress bar shows, if there is one.
    pub open spec fn bar(&self) -> Option<Bar> {
        match (self.construction, self.upgrading, self.researching) {
            (Some(w), _, _) => Some(w.bar()),
            (None, Some((_, w)), _) => Some(w.bar()),
            (None, None, Some(f)) => Some(f.work.bar()),
            (None, None, None) => if queue_kinds(self.queue).len() > 0 {
                Some(self.training.bar())
            } else {
                None
            },
        }
    }

    /// The units whose letters the queue shows: none while the building is
    /// going up or the forge is at work.
    pub open spec fn waiting(&self) -> Seq<UnitKind> {
        if self.construction is Some || (self.upgrading is None && self.researching is Some) {
            Seq::empty()
        } else {
            queue_kinds(self.queue)
        }
    }
}

fn push_percent_done(out: &mut String, b: Bar)
    requires
        b.part <= b.of,
        b.of > 0,
    ensures
        final(out)@ == old(out)@ + dec(b.percent()),
{
    push_dec(out, percent_of(b.part, b.of));
}

fn building_trade(cat: &Catalog, b: &PanelBuilding) -> (r: String)
    ensures
        r@ == b.trade(cat),
{
    let mut s = String::new();
    if b.ladders.len() > 0 {
        let mut parts: Vec<String> = Vec::new();
        let ghost all = ladder_pieces(cat, b.ladders@);
        let mut i: usize = 0;
        assert(texts(parts@) =~= all.take(0));
        while i < b.ladders.len()
            invariant
                i <= b.ladders.len(),
                all == ladder_pieces(cat, b.ladders@),
                texts(parts@) == all.take(i as int),
            decreases b.ladders.len() - i,
        {
            let (kind, level) = b.ladders[i];
            let mut p = owned(research_name(kind));
            p.append(" ");
            push_dec(&mut p, level as u64);
            p.append("/");
            push_dec(&mut p, cat.research_max as u64);
            push_text(&mut parts, p);
            assert(all.take(i + 1) =~= all.take(i as int).push(all[i as int]));
            i = i + 1;
        }
        assert(all.take(i as int) =~= all);
        return join(&parts, "    ");
    }
    if let Some(a) = b.attack {
        s.append("Damage ");
        push_fixed0(&mut s, a.damage);
        s.append("    Range ");
        push_fixed1(&mut s, a.range);
        s.append("    Attack ");
        push_fixed1(&mut s, a.cooldown);
        s.append("s");
    } else if b.supply_provided > 0 {
        s.append("Supply +");
        push_dec(&mut s, b.supply_provided as u64);
    }
    assert(s@ =~= b.trade(cat));
    s
}

fn building_stats_text(cat: &Catalog, b: &PanelBuilding) -> (r: String)
    ensures
        r@ == b.stats(cat),
{
    if let Some(w) = b.construction {
        let mut s = owned("Under construction: ");
        push_percent_done(&mut s, w.share());
        s.append("%");
        return s;
    }
    let mut s = building_trade(cat, b);
    if b.tier > 1 || b.upgradable {
        let ghost trade = s@;
        if s.as_str().unicode_len() > 0 {
            s.append("    ");
        }
        s.append("Tier ");
        push_dec(&mut s, b.tier as u64);
        assert(s@ =~= b.stats(cat));
    }
    s
}

fn queue_len(queue: &Option<Vec<UnitKind>>) -> (r: usize)
    ensures
        r == queue_kinds(*queue).len(),
{
    match queue {
        Some(list) => list.len(),
        None => 0,
    }
}

fn building_extra_text(b: &PanelBuilding) -> (r: String)
    ensures
        r@ == b.extra(),
{
    let mut s = String::new();
    if b.construction.is_some() {
        assert(s@ =~= Seq::empty());
        return s;
    }
    if let Some((to, w)) = b.upgrading {
        s.append("Upgrading to ");
        s.append(building_name(to));
        s.append(": ");
        push_percent_done(&mut s, w.share());
        s.append("%   (training paused, ");
        push_dec(&mut s, queue_len(&b.queue) as u64);
        s.append(" queued)");
        assert(s@ =~= b.extra());
        return s;
    }
    if let Some(f) = b.researching {
        s.append("Researching ");
        s.append(research_name(f.kind));
        s.append(" ");
        push_dec(&mut s, f.to_level as u64);
        s.append(": ");
        push_percent_done(&mut s, f.work.share());
        s.append("%   (");
        crate::text::push_thousandths(&mut s, f.work.remaining);
        s.append("s left, +");
        push_fixed0(&mut s, f.bonus);
        s.append(" to every unit)");
        assert(s@ =~= b.extra());
        return s;
    }
    if let Some(list) = &b.queue {
        if list.len() > 0 {
            s.append("Training ");
            s.append(unit_name(list[0]));
            s.append(": ");
            push_percent_done(&mut s, b.training.share());
            s.append("%   (");
            push_dec(&mut s, list.len() as u64);
            s.append(" queued)");
        } else {
            s.append("Ready to train");
        }
    }
    assert(s@ =~= b.extra());
    s
}

fn list_letters(kinds: &Vec<UnitKind>) -> (r: Vec<String>)
    ensures
        texts(r@) == letters(kinds@),
{
    let mut out: Vec<String> = Vec::new();
    let ghost all = letters(kinds@);
    let mut i: usize = 0;
    assert(texts(out@) =~= all.take(0));
    while i < kinds.len()
        invariant
            i <= kinds.len(),
            all == letters(kinds@),
            texts(out@) == all.take(i as int),
        decreases kinds.len() - i,
    {
        proof {
            titles_are_capitalised(kinds@[i as int], BuildingKind::Farm);
        }
        push_text(&mut out, initial(unit_name(kinds[i])));
        assert(all.take(i + 1) =~= all.take(i as int).push(all[i as int]));
        i = i + 1;
    }
    assert(all.take(i as int) =~= all);
    out
}

/// The panel of one building.
pub fn building_pane(cat: &Catalog, b: &PanelBuilding) -> (r: Pane)
    ensures
        r.name@ == building_title(b.kind),
        r.letter@ == first_letter(building_title(b.kind)),
        r.hp@ == hp_reads(b.hp as int, b.max_hp as int),
        r.health == health(b.hp as int, b.max_hp as int),
        r.hero is None,
        r.stats@ == b.stats(cat),
        r.extra@ == b.extra(),
        r.items@ == Seq::<char>::empty(),
        r.progress == b.bar(),
        texts(r.queue@) == letters(b.waiting()),
{
    let progress: Option<Bar> = if let Some(w) = b.construction {
        Some(w.share())
    } else if let Some((_, w)) = b.upgrading {
        Some(w.share())
    } else if let Some(f) = b.researching {
        Some(f.work.share())
    } else if queue_len(&b.queue) > 0 {
        Some(b.training.share())
    } else {
        None
    };
    let mut queue: Vec<String> = Vec::new();
    if b.construction.is_none() && (b.upgrading.is_some() || b.researching.is_none()) {
        if let Some(list) = &b.queue {
            queue = list_letters(list);
        }
    }
    assert(texts(queue@) =~= letters(b.waiting()));
    proof {
        titles_are_capitalised(UnitKind::Worker, b.kind);
    }
    let name = owned(building_name(b.kind));
    let letter = initial(building_name(b.kind));
    Pane {
        name,
        letter,
        hp: hp_text(b.hp, b.max_hp),
        health: card_health(b.hp, b.max_hp),
        hero: None,
        stats: building_stats_text(cat, b),
        extra: building_extra_text(b),
        items: String::new(),
        progress,
        queue,
    }
}

// ---------------------------------------------------------------------------
// Many
// ---------------------------------------------------------------------------

/// One of many selected.
#[derive(Clone, Copy, PartialEq, Eq, Debug, Structural)]
pub struct CardFacts {
    pub id: u64,
    pub face: Face,
    pub own: bool,
    pub squad: Option<u8>,
    pub hp: i64,
    pub max_hp: i64,
}

/// What a tile shows for it.
#[derive(Clone, Copy, PartialEq, Eq, Debug, Structural)]
pub enum Face {
    Unit(UnitKind),
    /// A hero, by level.
    Hero(u32),
    Building(BuildingKind),
}

impl CardFacts {
    pub open spec fn letter(self) -> Seq<char> {
        match self.face {
            Face::Unit(kind) => first_letter(unit_title(kind)),
            Face::Hero(level) => "H"@ + dec(level as nat),
            Face::Building(kind) => first_letter(building_title(kind)),
        }
    }

    /// The bar across its tile.
    pub open spec fn health(self) -> HealthBar {
        health(self.hp as int, self.max_hp as int)
    }

    /// The squad badge: ours only, and never a building's.
    pub open spec fn mark(self) -> Seq<char> {
        if self.own && !(self.face is Building) {
            badge(self.squad)
        } else {
            Seq::empty()
        }
    }
}

/// A tile's letter.
pub fn card_letter(c: &CardFacts) -> (r: String)
    ensures
        r@ == c.letter(),
{
    proof {
        match c.face {
            Face::Unit(kind) => titles_are_capitalised(kind, BuildingKind::Farm),
            Face::Building(kind) => titles_are_capitalised(UnitKind::Worker, kind),
            _ => {},
        }
    }
    match c.face {
        Face::Unit(kind) => initial(unit_name(kind)),
        Face::Hero(level) => {
            let mut s = owned("H");
            push_dec(&mut s, level as u64);
            s
        },
        Face::Building(kind) => initial(building_name(kind)),
    }
}

/// A tile's squad badge.
pub fn card_badge(c: &CardFacts) -> (r: String)
    ensures
        r@ == c.mark(),
{
    let unit = match c.face {
        Face::Building(_) => false,
        _ => true,
    };
    if c.own && unit {
        squad_badge(c.squad)
    } else {
        let s = String::new();
        assert(s@ =~= Seq::empty());
        s
    }
}

pub open spec fn by_slot_key(c: CardFacts) -> (i64, CardFacts) {
    (slot_of(c.id) as i64, c)
}

/// The selection in slot order.
pub open spec fn ordered_cards(list: Seq<CardFacts>) -> Seq<CardFacts> {
    values(in_order(list.map_values(|c: CardFacts| by_slot_key(c))))
}

/// The tiles that fit.
pub open spec fn shown_cards(list: Seq<CardFacts>) -> Seq<CardFacts> {
    let all = ordered_cards(list);
    if all.len() > MAX_CARDS {
        all.take(MAX_CARDS as int)
    } else {
        all
    }
}

/// How many do not fit.
pub open spec fn overflow_reads(list: Seq<CardFacts>) -> Seq<char> {
    if list.len() > MAX_CARDS {
        "+"@ + dec((list.len() - MAX_CARDS) as nat)
    } else {
        Seq::empty()
    }
}

/// The tiles of a selection of many, in slot order, and how many did not fit.
pub fn selection_cards(list: &Vec<CardFacts>) -> (r: (Vec<CardFacts>, String))
    requires
        forall|i: int| 0 <= i < list@.len() ==> names_entity((#[trigger] list@[i]).id),
    ensures
        r.0@ == shown_cards(list@),
        r.0@.len() <= MAX_CARDS,
        r.1@ == overflow_reads(list@),
{
    let mut keyed: Vec<(i64, CardFacts)> = Vec::new();
    let ghost all = list@.map_values(|c: CardFacts| by_slot_key(c));
    let mut i: usize = 0;
    while i < list.len()
        invariant
            forall|i: int| 0 <= i < list@.len() ==> names_entity((#[trigger] list@[i]).id),
            i <= list.len(),
            all == list@.map_values(|c: CardFacts| by_slot_key(c)),
            keyed@ == all.take(i as int),
        decreases list.len() - i,
    {
        let c = list[i];
        assert(names_entity(list@[i as int].id));
        if let Some(slot) = entity_index(c.id) {
            keyed.push((slot as i64, c));
        }
        i = i + 1;
        assert(keyed@ =~= all.take(i as int));
    }
    assert(keyed@ =~= all);
    let sorted = order_by_key(&keyed);
    proof {
        in_order_sorts(all);
    }
    let mut out: Vec<CardFacts> = Vec::new();
    let mut j: usize = 0;
    while j < sorted.len() && j < MAX_CARDS
        invariant
            j <= sorted.len(),
            j <= MAX_CARDS,
            out@ == values(sorted@).take(j as int),
        decreases sorted.len() - j,
    {
        out.push(sorted[j].1);
        j = j + 1;
        assert(out@ =~= values(sorted@).take(j as int));
    }
    assert(out@ =~= shown_cards(list@));
    let mut more = String::new();
    if list.len() > MAX_CARDS {
        more.append("+");
        push_dec(&mut more, (list.len() - MAX_CARDS) as u64);
    }
    assert(more@ =~= overflow_reads(list@));
    (out, more)
}

} // verus!
