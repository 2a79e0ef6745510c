//! The command card: what a selection can be told, in priority order.
//!
//! The keyboard and the tiles drive off the same list, so a click and a key
//! press are the same command. The list is complete; `paginate` decides which
//! slice of it is on screen.

use vstd::prelude::*;
use vstd::string::*;

use crate::catalog::{
    building_name, building_title, item_name, item_title, research_name, research_title,
    unit_name, unit_title, AbilityDef, BuildingKind, Catalog, ItemId, ResearchKind, TechTier,
    UnitKind,
};
use crate::doctrine::{
    fine_percent, mostly, percent, push_fine_percent, push_percent, push_trimmed, trimmed,
    DoctrineState, PostureKind, PrioPreset, TemplateView, AUTOCAST_MIN_ENEMIES,
    MAX_AUTOCAST_SLOTS,
};
use crate::hotkeys::{Action, Hotkeys, Key};
use crate::lists::{only_if, picked, picked_at, picked_at_step, picked_step};
use crate::readouts::MAX_REGIONS_PER_TEAM;
use crate::text::{
    dec, fixed0, owned, percent_of, push_dec, push_fixed0, round_even,
};

verus! {

/// Tiles on the card: four columns of three.
pub const CMD_SLOTS: usize = 12;

/// The two vocabularies of the card.
#[derive(Clone, Copy, PartialEq, Eq, Debug, Structural)]
pub enum CardPage {
    Orders,
    Doctrine,
}

/// Everything a tile or a raw key can ask for.
#[derive(Clone, Copy, PartialEq, Eq, Debug, Structural)]
pub enum CmdAction {
    AttackMove,
    Stop,
    Place(BuildingKind),
    Train(UnitKind),
    /// Cast an ability slot of every selected caster of ours.
    CastHero(usize),
    /// Cast an ability slot of the one selected building.
    CastBuilding(usize),
    /// Buy an item at the one selected Shop.
    Buy(ItemId),
    /// Turn the one selected building into its next rung.
    Upgrade(BuildingKind),
    /// Start the next rung of a research ladder.
    Research(ResearchKind),
    /// Use the selected hero's inventory slot.
    UseSlot(usize),
    ToggleGuard,
    ToggleFallback,
    CyclePriority,
    /// Toggle auto-cast of the first ability.
    ToggleAutoCast,
    /// Toggle auto-cast of one ability slot.
    ToggleAutoCastSlot(usize),
    /// Flip between the orders card and the doctrine card.
    TogglePage,
    SetPosture(PostureKind),
    ClearPosture,
    CycleFallback,
    CycleLeash,
    /// One increment of the retreat threshold; `true` is up.
    NudgeFallback(bool),
    /// One increment of the leash radius; `true` is up.
    NudgeLeash(bool),
    TemplateSquad,
    TemplateFallback,
    TemplatePriority,
    TemplateAutoCast,
    TemplateClear,
    /// Arm or clear the home-guard trigger.
    ToggleHomeGuard,
    /// Arm the region marker.
    MarkRegion,
    /// Forget every region of ours.
    ClearRegions,
    /// One increment of the next mark's radius; `true` is bigger.
    NudgeRegion(bool),
}

/// One tile.
#[derive(Debug)]
pub struct CmdEntry {
    pub action: CmdAction,
    pub key: Key,
    pub label: String,
    /// Small caption under the label.
    pub cost: String,
    /// Gold and lumber, when the action has a price.
    pub afford: Option<(u32, u32)>,
    /// False draws the tile dark.
    pub enabled: bool,
    /// True draws the tile lit.
    pub active: bool,
    /// A tech requirement is unmet: the tile stays visible and does nothing.
    pub locked: bool,
}

/// A tile's contents.
pub struct EntryView {
    pub action: CmdAction,
    pub key: Key,
    pub label: Seq<char>,
    pub cost: Seq<char>,
    pub afford: Option<(u32, u32)>,
    pub enabled: bool,
    pub active: bool,
    pub locked: bool,
}

impl View for CmdEntry {
    type V = EntryView;

    open spec fn view(&self) -> EntryView {
        EntryView {
            action: self.action,
            key: self.key,
            label: self.label@,
            cost: self.cost@,
            afford: self.afford,
            enabled: self.enabled,
            active: self.active,
            locked: self.locked,
        }
    }
}

/// The contents of a list of tiles.
pub open spec fn tiles(list: Seq<CmdEntry>) -> Seq<EntryView> {
    list.map_values(|e: CmdEntry| e@)
}

/// A price tag. Nothing is "0g": what costs nothing says so.
pub open spec fn price(gold: u32, lumber: u32) -> Seq<char> {
    if gold == 0 && lumber == 0 {
        "Free"@
    } else if lumber > 0 {
        dec(gold as nat) + "g "@ + dec(lumber as nat) + "l"@
    } else {
        dec(gold as nat) + "g"@
    }
}

impl EntryView {
    /// A tile that is ready, unpriced and unlit.
    pub open spec fn plain(action: CmdAction, key: Key, label: Seq<char>) -> EntryView {
        EntryView {
            action,
            key,
            label,
            cost: Seq::empty(),
            afford: None,
            enabled: true,
            active: false,
            locked: false,
        }
    }

    pub open spec fn lit(self, active: bool) -> EntryView {
        EntryView { active, ..self }
    }

    pub open spec fn captioned(self, cost: Seq<char>) -> EntryView {
        EntryView { cost, ..self }
    }

    pub open spec fn ready(self, enabled: bool) -> EntryView {
        EntryView { enabled, ..self }
    }

    pub open spec fn at_price(self, gold: u32, lumber: u32) -> EntryView {
        EntryView { cost: price(gold, lumber), afford: Some((gold, lumber)), ..self }
    }

    /// Dark and inert while a requirement is open, and then the caption names
    /// the first one that is.
    pub open spec fn gated(
        self,
        cat: &Catalog,
        reqs: Seq<BuildingKind>,
        completed: Seq<BuildingKind>,
    ) -> EntryView {
        match cat.first_missing(reqs, completed) {
            Some(missing) => EntryView {
                cost: "needs "@ + building_title(missing),
                enabled: false,
                locked: true,
                ..self
            },
            None => self,
        }
    }
}

impl CmdEntry {
    /// A tile that is ready, unpriced and unlit.
    pub fn plain(action: CmdAction, key: Key, label: &str) -> (r: CmdEntry)
        ensures
            r@ == EntryView::plain(action, key, label@),
    {
        CmdEntry {
            action,
            key,
            label: owned(label),
            cost: String::new(),
            afford: None,
            enabled: true,
            active: false,
            locked: false,
        }
    }

    /// Lights a toggle that is on.
    pub fn active(self, active: bool) -> (r: CmdEntry)
        ensures
            r@ == self@.lit(active),
    {
        CmdEntry {
            action: self.action,
            key: self.key,
            label: self.label,
            cost: self.cost,
            afford: self.afford,
            enabled: self.enabled,
            active,
            locked: self.locked,
        }
    }

    fn caption(self, cost: String) -> (r: CmdEntry)
        ensures
            r@ == self@.captioned(cost@),
    {
        CmdEntry {
            action: self.action,
            key: self.key,
            label: self.label,
            cost,
            afford: self.afford,
            enabled: self.enabled,
            active: self.active,
            locked: self.locked,
        }
    }

    fn enable(self, enabled: bool) -> (r: CmdEntry)
        ensures
            r@ == self@.ready(enabled),
    {
        CmdEntry {
            action: self.action,
            key: self.key,
            label: self.label,
            cost: self.cost,
            afford: self.afford,
            enabled,
            active: self.active,
            locked: self.locked,
        }
    }

    /// The tech gate: dark and inert while a requirement is open.
    pub fn gate(
        self,
        cat: &Catalog,
        reqs: &Vec<BuildingKind>,
        completed: &Vec<BuildingKind>,
    ) -> (r: CmdEntry)
        requires
            cat.wf(),
        ensures
            r@ == self@.gated(cat, reqs@, completed@),
    {
        match cat.missing_requirement(reqs, completed) {
            Some(missing) => {
                let mut cost = owned("needs ");
                cost.append(building_name(missing));
                CmdEntry {
                    action: self.action,
                    key: self.key,
                    label: self.label,
                    cost,
                    afford: self.afford,
                    enabled: false,
                    active: self.active,
                    locked: true,
                }
            },
            None => self,
        }
    }

    /// Puts a price on the tile.
    pub fn priced(self, gold: u32, lumber: u32) -> (r: CmdEntry)
        ensures
            r@ == self@.at_price(gold, lumber),
    {
        let mut cost = String::new();
        if gold == 0 && lumber == 0 {
            cost.append("Free");
            assert(cost@ =~= "Free"@);
        } else if lumber > 0 {
            push_dec(&mut cost, gold as u64);
            cost.append("g ");
            push_dec(&mut cost, lumber as u64);
            cost.append("l");
            assert(cost@ =~= price(gold, lumber));
        } else {
            push_dec(&mut cost, gold as u64);
            cost.append("g");
            assert(cost@ =~= price(gold, lumber));
        }
        CmdEntry {
            action: self.action,
            key: self.key,
            label: self.label,
            cost,
            afford: Some((gold, lumber)),
            enabled: self.enabled,
            active: self.active,
            locked: self.locked,
        }
    }

    /// Puts a building's price on the tile.
    pub fn priced_as_building(self, cat: &Catalog, kind: BuildingKind) -> (r: CmdEntry)
        requires
            cat.wf(),
        ensures
            r@ == self@.at_price(
                cat.building_row(kind).cost_gold,
                cat.building_row(kind).cost_lumber,
            ),
    {
        let row = cat.building(kind);
        self.priced(row.cost_gold, row.cost_lumber)
    }
}

fn push_tile(list: &mut Vec<CmdEntry>, e: CmdEntry)
    ensures
        tiles(final(list)@) == tiles(old(list)@).push(e@),
{
    list.push(e);
    assert(tiles(list@) =~= tiles(old(list)@).push(e@));
}

fn add_tiles(list: &mut Vec<CmdEntry>, more: Vec<CmdEntry>)
    ensures
        tiles(final(list)@) == tiles(old(list)@) + tiles(more@),
{
    let mut more = more;
    let ghost extra = more@;
    list.append(&mut more);
    assert(tiles(list@) =~= tiles(old(list)@) + tiles(extra));
}

// ---------------------------------------------------------------------------
// Abilities
// ---------------------------------------------------------------------------

/// One ability the selection can cast.
#[derive(Clone, Copy, Debug)]
pub struct AbilitySlot {
    /// The slot in the caster's list.
    pub index: usize,
    pub def: AbilityDef,
    /// Off cooldown, and affordable.
    pub ready: bool,
    /// Cooldown left, in thousandths of a second.
    pub cooldown: i64,
}

/// How one ability of a caster stands.
#[derive(Clone, Copy, PartialEq, Eq, Debug, Structural)]
pub struct AbilityState {
    pub unlocked: bool,
    pub ready: bool,
    pub cooldown: i64,
}

pub open spec fn slot_at(
    list: Seq<AbilityDef>,
) -> spec_fn(int, AbilityState) -> Option<AbilitySlot> {
    |i: int, s: AbilityState|
        if s.unlocked && i < list.len() {
            Some(
                AbilitySlot {
                    index: i as usize,
                    def: list[i],
                    ready: s.ready,
                    cooldown: s.cooldown,
                },
            )
        } else {
            None
        }
}

/// The unlocked abilities of a caster, in slot order.
pub open spec fn unlocked_slots(
    list: Seq<AbilityDef>,
    states: Seq<AbilityState>,
) -> Seq<AbilitySlot> {
    picked_at(states, slot_at(list))
}

/// The unlocked abilities of a caster, in slot order.
pub fn ability_slots(list: &Vec<AbilityDef>, states: &Vec<AbilityState>) -> (r: Vec<AbilitySlot>)
    ensures
        r@ == unlocked_slots(list@, states@),
{
    let mut out: Vec<AbilitySlot> = Vec::new();
    let mut i: usize = 0;
    while i < states.len()
        invariant
            i <= states.len(),
            out@ == unlocked_slots(list@, states@.take(i as int)),
        decreases states.len() - i,
    {
        proof {
            picked_at_step(states@, i as int, slot_at(list@));
        }
        let s = states[i];
        if s.unlocked && i < list.len() {
            out.push(
                AbilitySlot { index: i, def: list[i], ready: s.ready, cooldown: s.cooldown },
            );
        }
        i = i + 1;
    }
    assert(states@.take(i as int) =~= states@);
    out
}

/// Whole seconds, rounded up.
pub open spec fn whole_seconds(milli: int) -> int {
    (milli + 999) / 1000
}

/// An ability's caption: its name, and the countdown while it cools down.
pub open spec fn ability_caption(name: Seq<char>, cooldown: int) -> Seq<char> {
    if cooldown > 0 {
        name + " "@ + dec(whole_seconds(cooldown) as nat) + "s"@
    } else {
        name
    }
}

/// An ability's caption.
pub fn ability_label(def: &AbilityDef, cooldown: i64) -> (r: String)
    ensures
        r@ == ability_caption(def.name@, cooldown as int),
{
    let mut s = owned(def.name);
    if cooldown > 0 {
        s.append(" ");
        let whole: u64 = ((cooldown as i128 + 999) / 1000) as u64;
        push_dec(&mut s, whole);
        s.append("s");
    }
    s
}

// ---------------------------------------------------------------------------
// Hero training
// ---------------------------------------------------------------------------

/// The price of one hero class.
#[derive(Clone, Copy, PartialEq, Eq, Debug, Structural)]
pub struct HeroPrice {
    pub kind: UnitKind,
    pub gold: u32,
    pub lumber: u32,
    /// The class has died and is on record.
    pub revival: bool,
}

/// What a hall can do about heroes.
#[derive(Debug)]
pub struct HeroTrain {
    /// Hero classes on the field or in a queue.
    pub held: Vec<UnitKind>,
    pub tier: TechTier,
    pub costs: Vec<HeroPrice>,
}

pub struct HeroTrainView {
    pub held: Seq<UnitKind>,
    pub tier: TechTier,
    pub costs: Seq<HeroPrice>,
}

impl View for HeroTrain {
    type V = HeroTrainView;

    open spec fn view(&self) -> HeroTrainView {
        HeroTrainView { held: self.held@, tier: self.tier, costs: self.costs@ }
    }
}

/// Whether one more hero of a class fits.
#[derive(Clone, Copy, PartialEq, Eq, Debug, Structural)]
pub enum HeroSlotVerdict {
    Fits,
    DuplicateClass,
    NoSlot,
}

/// Classes are distinct, and there are as many slots as the tier has halls.
pub open spec fn slot_verdict(held: Seq<UnitKind>, kind: UnitKind, tier: TechTier) -> HeroSlotVerdict {
    if held.contains(kind) {
        HeroSlotVerdict::DuplicateClass
    } else if held.len() >= tier.rank() {
        HeroSlotVerdict::NoSlot
    } else {
        HeroSlotVerdict::Fits
    }
}

/// Whether one more hero of a class fits.
pub fn hero_slot_check(held: &Vec<UnitKind>, kind: UnitKind, tier: TechTier) -> (r: HeroSlotVerdict)
    ensures
        r == slot_verdict(held@, kind, tier),
{
    let mut i: usize = 0;
    while i < held.len()
        invariant
            i <= held.len(),
            forall|j: int| 0 <= j < i ==> held@[j] != kind,
        decreases held.len() - i,
    {
        if held[i] == kind {
            return HeroSlotVerdict::DuplicateClass;
        }
        i = i + 1;
    }
    if held.len() >= tier.number() as usize {
        HeroSlotVerdict::NoSlot
    } else {
        HeroSlotVerdict::Fits
    }
}

/// A hero button: its price, whether it revives, and whether it can be pressed.
#[derive(Clone, Copy, PartialEq, Eq, Debug, Structural)]
pub struct HeroOffer {
    pub gold: u32,
    pub lumber: u32,
    pub revival: bool,
    pub enabled: bool,
}

pub open spec fn price_of(kind: UnitKind) -> spec_fn(HeroPrice) -> Option<HeroPrice> {
    |p: HeroPrice|
        if p.kind == kind {
            Some(p)
        } else {
            None
        }
}

impl HeroTrainView {
    /// The button of one class: hidden while the class is held, dark while
    /// every slot is taken.
    pub open spec fn offered(self, kind: UnitKind) -> Option<HeroOffer> {
        let verdict = slot_verdict(self.held, kind, self.tier);
        if verdict == HeroSlotVerdict::DuplicateClass {
            None
        } else {
            match crate::lists::first_some(self.costs, price_of(kind)) {
                Some(p) => Some(
                    HeroOffer {
                        gold: p.gold,
                        lumber: p.lumber,
                        revival: p.revival,
                        enabled: verdict == HeroSlotVerdict::Fits,
                    },
                ),
                None => None,
            }
        }
    }
}

impl HeroTrain {
    /// The button of one hero class, or nothing where it should not appear.
    pub fn offer(&self, kind: UnitKind) -> (r: Option<HeroOffer>)
        ensures
            r == self@.offered(kind),
    {
        let verdict = hero_slot_check(&self.held, kind, self.tier);
        if verdict == HeroSlotVerdict::DuplicateClass {
            return None;
        }
        let mut i: usize = 0;
        while i < self.costs.len()
            invariant
                i <= self.costs.len(),
                verdict == slot_verdict(self.held@, kind, self.tier),
                verdict != HeroSlotVerdict::DuplicateClass,
                crate::lists::first_some(self.costs@.take(i as int), price_of(kind)) is None,
            decreases self.costs.len() - i,
        {
            proof {
                crate::lists::first_some_step(self.costs@, i as int, price_of(kind));
            }
            let p = self.costs[i];
            if p.kind == kind {
                proof {
                    crate::lists::first_stays(self.costs@, i + 1, price_of(kind));
                }
                return Some(
                    HeroOffer {
                        gold: p.gold,
                        lumber: p.lumber,
                        revival: p.revival,
                        enabled: verdict == HeroSlotVerdict::Fits,
                    },
                );
            }
            i = i + 1;
        }
        assert(self.costs@.take(i as int) =~= self.costs@);
        None
    }
}

/// What a hero's button says.
pub open spec fn hero_caption(kind: UnitKind, revival: bool) -> Seq<char> {
    if revival {
        "Revive"@
    } else {
        unit_title(kind)
    }
}

// ---------------------------------------------------------------------------
// Research
// ---------------------------------------------------------------------------

/// The next rung of a ladder.
#[derive(Clone, Copy, PartialEq, Eq, Debug, Structural)]
pub struct ResearchStep {
    pub level: u32,
    pub cost_gold: u32,
    pub cost_lumber: u32,
}

/// What a team has of one ladder.
#[derive(Clone, Copy, PartialEq, Eq, Debug, Structural)]
pub struct Ladder {
    pub kind: ResearchKind,
    pub level: u32,
    /// The next rung, and nothing at the top.
    pub next: Option<ResearchStep>,
}

/// A forge at work. Times are thousandths of a second.
#[derive(Clone, Copy, PartialEq, Eq, Debug, Structural)]
pub struct Researching {
    pub kind: ResearchKind,
    pub remaining: u64,
    pub total: u64,
}

impl Researching {
    /// Whole per cent done, from nought to a hundred.
    pub open spec fn done_percent(self) -> nat {
        let whole = if self.total > 0 {
            self.total as nat
        } else {
            1
        };
        let part = if self.remaining >= self.total {
            0
        } else {
            (self.total - self.remaining) as nat
        };
        round_even(100 * part, whole)
    }

    fn percent_done(self) -> (r: u64)
        ensures
            r == self.done_percent(),
            r <= 100,
    {
        let whole: u64 = if self.total > 0 {
            self.total
        } else {
            1
        };
        let part: u64 = if self.remaining >= self.total {
            0
        } else {
            self.total - self.remaining
        };
        percent_of(part, whole)
    }
}

/// One research button's state.
#[derive(Clone, Copy, PartialEq, Eq, Debug, Structural)]
pub struct ResearchCmd {
    pub kind: ResearchKind,
    /// Levels the team holds.
    pub level: u32,
    pub next: Option<ResearchStep>,
    /// Per cent done, while this forge works on this ladder.
    pub in_progress: Option<u64>,
    /// This forge is busy with the other ladder.
    pub blocked: bool,
}

pub open spec fn ladder_of(kind: ResearchKind) -> spec_fn(Ladder) -> Option<Ladder> {
    |l: Ladder|
        if l.kind == kind {
            Some(l)
        } else {
            None
        }
}

/// What a team has of a ladder; one that is not on the list is untouched and
/// offers nothing.
pub open spec fn ladder(ladders: Seq<Ladder>, kind: ResearchKind) -> Ladder {
    match crate::lists::first_some(ladders, ladder_of(kind)) {
        Some(l) => l,
        None => Ladder { kind, level: 0, next: None },
    }
}

fn find_ladder(ladders: &Vec<Ladder>, kind: ResearchKind) -> (r: Ladder)
    ensures
        r == ladder(ladders@, kind),
{
    let mut i: usize = 0;
    while i < ladders.len()
        invariant
            i <= ladders.len(),
            crate::lists::first_some(ladders@.take(i as int), ladder_of(kind)) is None,
        decreases ladders.len() - i,
    {
        proof {
            crate::lists::first_some_step(ladders@, i as int, ladder_of(kind));
        }
        if ladders[i].kind == kind {
            let found = ladders[i];
            proof {
                crate::lists::first_stays(ladders@, i + 1, ladder_of(kind));
            }
            return found;
        }
        i = i + 1;
    }
    assert(ladders@.take(i as int) =~= ladders@);
    Ladder { kind, level: 0, next: None }
}

pub open spec fn research_button(
    kind: ResearchKind,
    ladders: Seq<Ladder>,
    active: Option<Researching>,
) -> ResearchCmd {
    ResearchCmd {
        kind,
        level: ladder(ladders, kind).level,
        next: ladder(ladders, kind).next,
        in_progress: match active {
            Some(a) => if a.kind == kind {
                Some(a.done_percent() as u64)
            } else {
                None
            },
            None => None,
        },
        blocked: match active {
            Some(a) => a.kind != kind,
            None => false,
        },
    }
}

/// The research buttons of a building: one per ladder it offers, and none
/// while it is unfinished.
pub open spec fn research_buttons(
    offered: Seq<ResearchKind>,
    done: bool,
    ladders: Seq<Ladder>,
    active: Option<Researching>,
) -> Seq<ResearchCmd> {
    if !done {
        Seq::empty()
    } else {
        offered.map_values(|k: ResearchKind| research_button(k, ladders, active))
    }
}

/// The research buttons of a building.
pub fn research_cmds(
    offered: &Vec<ResearchKind>,
    done: bool,
    ladders: &Vec<Ladder>,
    active: Option<Researching>,
) -> (r: Vec<ResearchCmd>)
    ensures
        r@ == research_buttons(offered@, done, ladders@, active),
{
    let mut out: Vec<ResearchCmd> = Vec::new();
    if !done {
        assert(out@ =~= Seq::empty());
        return out;
    }
    let ghost all = research_buttons(offered@, done, ladders@, active);
    let mut i: usize = 0;
    while i < offered.len()
        invariant
            done,
            i <= offered.len(),
            all == research_buttons(offered@, done, ladders@, active),
            out@ == all.take(i as int),
        decreases offered.len() - i,
    {
        let kind = offered[i];
        let l = find_ladder(ladders, kind);
        let (in_progress, blocked): (Option<u64>, bool) = match active {
            Some(a) => if a.kind == kind {
                (Some(a.percent_done()), false)
            } else {
                (None, true)
            },
            None => (None, false),
        };
        out.push(ResearchCmd { kind, level: l.level, next: l.next, in_progress, blocked });
        i = i + 1;
        assert(out@ =~= all.take(i as int));
    }
    assert(out@ =~= all);
    out
}

// ---------------------------------------------------------------------------
// The orders card
// ---------------------------------------------------------------------------

/// Why a Shop's buttons are usable or not.
#[derive(Clone, Copy, PartialEq, Eq, Debug, Structural)]
pub struct ShopState {
    /// There is a living hero to buy for.
    pub hero: bool,
    /// That hero has a free inventory slot.
    pub room: bool,
    pub tier: TechTier,
}

/// What the selection can do about heroes, abilities and items.
#[derive(Debug)]
pub struct HeroCmds {
    pub train: Option<HeroTrain>,
    /// The unlocked abilities of the first selected caster.
    pub abilities: Vec<AbilitySlot>,
    /// The unlocked abilities of the one selected finished building.
    pub building_abilities: Vec<AbilitySlot>,
    pub shop: Option<ShopState>,
    /// The next rung of the one selected building: kind, gold, lumber.
    pub upgrade: Option<(BuildingKind, u32, u32)>,
    pub items: [Option<ItemId>; 2],
    pub research: Vec<ResearchCmd>,
}

pub struct HeroCmdsView {
    pub train: Option<HeroTrainView>,
    pub abilities: Seq<AbilitySlot>,
    pub building_abilities: Seq<AbilitySlot>,
    pub shop: Option<ShopState>,
    pub upgrade: Option<(BuildingKind, u32, u32)>,
    pub items: [Option<ItemId>; 2],
    pub research: Seq<ResearchCmd>,
}

/// The contents of an optional training card.
pub open spec fn training(train: Option<HeroTrain>) -> Option<HeroTrainView> {
    match train {
        Some(t) => Some(t@),
        None => None,
    }
}

impl View for HeroCmds {
    type V = HeroCmdsView;

    open spec fn view(&self) -> HeroCmdsView {
        HeroCmdsView {
            train: training(self.train),
            abilities: self.abilities@,
            building_abilities: self.building_abilities@,
            shop: self.shop,
            upgrade: self.upgrade,
            items: self.items,
            research: self.research@,
        }
    }
}

/// Everything the doctrine card draws itself from.
#[derive(Clone, Copy, Debug)]
pub struct DoctrineCard {
    pub doc: DoctrineState,
    /// What the selection's squad is doing.
    pub posture: Option<PostureKind>,
    pub tmpl: TemplateView,
    pub home_guard: bool,
    /// Number of the next free mark.
    pub region_mark: Option<usize>,
    pub region_count: usize,
    /// Radius the next mark gets.
    pub region_radius: i64,
    /// The marker waits for its click.
    pub region_armed: bool,
}

/// Attack and Stop, for any unit of ours.
pub open spec fn order_tiles(keys: &Hotkeys, own_units: nat) -> Seq<EntryView> {
    if own_units > 0 {
        seq![
            EntryView::plain(CmdAction::AttackMove, keys.bound(Action::AttackMove), "Attack"@),
            EntryView::plain(CmdAction::Stop, keys.bound(Action::Stop), "Stop"@),
        ]
    } else {
        Seq::empty()
    }
}

/// One build tile: priced, unless a requirement is open.
pub open spec fn build_tile(
    cat: &Catalog,
    completed: Seq<BuildingKind>,
    kind: BuildingKind,
    key: Key,
) -> EntryView {
    let row = cat.building_row(kind);
    EntryView::plain(CmdAction::Place(kind), key, building_title(kind)).at_price(
        row.cost_gold,
        row.cost_lumber,
    ).gated(cat, row.requires@, completed)
}

/// Every build tile of the player's race, in card order.
pub open spec fn build_tiles(
    cat: &Catalog,
    keys: &Hotkeys,
    completed: Seq<BuildingKind>,
    has_worker: bool,
) -> Seq<EntryView> {
    if has_worker {
        keys.builds@.map_values(
            |b: (BuildingKind, Key)| build_tile(cat, completed, b.0, b.1),
        )
    } else {
        Seq::empty()
    }
}

/// The caption under a hero ability: what the key will ask for, else its mana.
pub open spec fn ability_cost(def: AbilityDef) -> Seq<char> {
    match def.target.reach() {
        Some(range) => (if def.target is Unit {
            "click a unit"@
        } else {
            "click ground"@
        }) + " <= "@ + fixed0(range as int),
        None => if def.mana_cost > 0 {
            fixed0(def.mana_cost as int) + "mp"@
        } else {
            Seq::empty()
        },
    }
}

pub open spec fn ability_tile(keys: &Hotkeys) -> spec_fn(AbilitySlot) -> Option<EntryView> {
    |slot: AbilitySlot|
        match keys.key_of(Action::HeroAbility(slot.index)) {
            Some(key) => Some(
                EntryView::plain(
                    CmdAction::CastHero(slot.index),
                    key,
                    ability_caption(slot.def.name@, slot.cooldown as int),
                ).captioned(ability_cost(slot.def)).ready(slot.ready),
            ),
            None => None,
        }
}

/// One tile per unlocked ability that has a key.
pub open spec fn ability_tiles(keys: &Hotkeys, slots: Seq<AbilitySlot>) -> Seq<EntryView> {
    picked(slots, ability_tile(keys))
}

/// The tile of one carried item; an empty slot has none.
pub open spec fn item_tile(keys: &Hotkeys, slot: usize, item: Option<ItemId>) -> Seq<EntryView> {
    match (keys.key_of(Action::ItemSlot(slot)), item) {
        (Some(key), Some(id)) => seq![
            EntryView::plain(CmdAction::UseSlot(slot), key, item_title(id)),
        ],
        _ => Seq::empty(),
    }
}

/// One tile per carried item.
pub open spec fn item_tiles(keys: &Hotkeys, items: [Option<ItemId>; 2]) -> Seq<EntryView> {
    item_tile(keys, 0, items@[0]) + item_tile(keys, 1, items@[1])
}

/// A hero's button: hidden while the class is held, dark with the slot count
/// while there is no room.
pub open spec fn hero_tile(
    train: Option<HeroTrainView>,
    kind: UnitKind,
    key: Key,
) -> Option<EntryView> {
    match train {
        None => None,
        Some(t) => match t.offered(kind) {
            None => None,
            Some(offer) => {
                let tile = EntryView::plain(
                    CmdAction::Train(kind),
                    key,
                    hero_caption(kind, offer.revival),
                ).at_price(offer.gold, offer.lumber);
                if offer.enabled {
                    Some(tile)
                } else {
                    Some(
                        tile.ready(false).captioned(
                            "slots "@ + dec(t.held.len()) + "/"@ + dec(t.tier.rank() as nat),
                        ),
                    )
                }
            },
        },
    }
}

pub open spec fn train_tile(
    cat: &Catalog,
    keys: &Hotkeys,
    train: Option<HeroTrainView>,
    completed: Seq<BuildingKind>,
) -> spec_fn(int, UnitKind) -> Option<EntryView> {
    |i: int, kind: UnitKind|
        match keys.key_of(Action::TrainSlot(i as usize)) {
            None => None,
            Some(key) => {
                let row = cat.unit_row(kind);
                if row.hero {
                    hero_tile(train, kind, key)
                } else {
                    Some(
                        EntryView::plain(CmdAction::Train(kind), key, unit_title(kind)).at_price(
                            row.cost_gold,
                            row.cost_lumber,
                        ).gated(cat, row.requires@, completed),
                    )
                }
            },
        }
}

/// One tile per unit the building trains and has a rung for.
pub open spec fn train_tiles(
    cat: &Catalog,
    keys: &Hotkeys,
    kind: BuildingKind,
    train: Option<HeroTrainView>,
    completed: Seq<BuildingKind>,
) -> Seq<EntryView> {
    picked_at(cat.building_row(kind).trains@, train_tile(cat, keys, train, completed))
}

pub open spec fn building_ability_tile(
    keys: &Hotkeys,
) -> spec_fn(AbilitySlot) -> Option<EntryView> {
    |slot: AbilitySlot|
        match keys.key_of(Action::BuildingAbility(slot.index)) {
            Some(key) => Some(
                EntryView::plain(
                    CmdAction::CastBuilding(slot.index),
                    key,
                    ability_caption(slot.def.name@, slot.cooldown as int),
                ).ready(slot.ready),
            ),
            None => None,
        }
}

/// The level a research button buys, or the one it has reached at the top.
pub open spec fn research_caption(cat: &Catalog, r: ResearchCmd) -> Seq<char> {
    research_title(r.kind) + " "@ + (match (r.in_progress, r.next) {
        (Some(_), _) => dec((r.level + 1) as nat),
        (None, Some(step)) => dec(step.level as nat),
        (None, None) => dec(cat.research_max as nat),
    })
}

pub open spec fn research_tile(
    cat: &Catalog,
    keys: &Hotkeys,
) -> spec_fn(int, ResearchCmd) -> Option<EntryView> {
    |i: int, r: ResearchCmd|
        match keys.key_of(Action::TrainSlot(i as usize)) {
            None => None,
            Some(key) => {
                let tile = EntryView::plain(
                    CmdAction::Research(r.kind),
                    key,
                    research_caption(cat, r),
                );
                Some(
                    match (r.in_progress, r.next) {
                        (Some(done), _) => tile.ready(false).captioned(dec(done as nat) + "%"@),
                        (None, None) => tile.ready(false).captioned("maxed"@),
                        (None, Some(step)) => {
                            let priced = tile.at_price(step.cost_gold, step.cost_lumber);
                            if r.blocked {
                                priced.ready(false).captioned("forge busy"@)
                            } else {
                                priced
                            }
                        },
                    },
                )
            },
        }
}

/// The tier-up tile.
pub open spec fn upgrade_tiles(
    keys: &Hotkeys,
    upgrade: Option<(BuildingKind, u32, u32)>,
) -> Seq<EntryView> {
    match upgrade {
        Some((to, gold, lumber)) => seq![
            EntryView::plain(
                CmdAction::Upgrade(to),
                keys.bound(Action::TierUp),
                "Upgrade: "@ + building_title(to),
            ).at_price(gold, lumber),
        ],
        None => Seq::empty(),
    }
}

/// Every item a Shop stocks, in shelf order.
pub open spec fn shelf() -> Seq<ItemId> {
    seq![
        ItemId::HealingPotion,
        ItemId::TownPortal,
        ItemId::BootsOfSpeed,
        ItemId::BannerOfCommand,
        ItemId::ScrollOfMassTeleport,
    ]
}

pub open spec fn shop_tile(
    cat: &Catalog,
    keys: &Hotkeys,
    shop: ShopState,
) -> spec_fn(int, ItemId) -> Option<EntryView> {
    |i: int, id: ItemId|
        match keys.key_of(Action::ShopSlot(i as usize)) {
            None => None,
            Some(key) => {
                let row = cat.item_row(id);
                let unlocked = row.tier.rank() <= shop.tier.rank();
                Some(
                    EntryView::plain(
                        CmdAction::Buy(id),
                        key,
                        if unlocked {
                            item_title(id)
                        } else {
                            item_title(id) + " "@ + row.tier.title()
                        },
                    ).at_price(row.cost_gold, 0).ready(shop.hero && shop.room && unlocked),
                )
            },
        }
}

/// One tile per item on the shelf.
pub open spec fn shop_tiles(
    cat: &Catalog,
    keys: &Hotkeys,
    shop: Option<ShopState>,
) -> Seq<EntryView> {
    match shop {
        Some(s) => picked_at(shelf(), shop_tile(cat, keys, s)),
        None => Seq::empty(),
    }
}

/// Everything the one selected finished building offers.
pub open spec fn building_tiles(
    cat: &Catalog,
    keys: &Hotkeys,
    kind: BuildingKind,
    hero: HeroCmdsView,
    completed: Seq<BuildingKind>,
) -> Seq<EntryView> {
    train_tiles(cat, keys, kind, hero.train, completed) + picked(
        hero.building_abilities,
        building_ability_tile(keys),
    ) + picked_at(hero.research, research_tile(cat, keys)) + upgrade_tiles(keys, hero.upgrade)
        + shop_tiles(cat, keys, hero.shop)
}

/// The quick toggles of any unit of ours.
pub open spec fn toggle_tiles(keys: &Hotkeys, own_units: nat, doc: DoctrineState) -> Seq<EntryView> {
    if own_units > 0 {
        seq![
            EntryView::plain(
                CmdAction::ToggleGuard,
                keys.bound(Action::QuickGuard),
                "Guard"@,
            ).lit(mostly(doc.leashed as int, doc.units as int)),
            EntryView::plain(
                CmdAction::ToggleFallback,
                keys.bound(Action::QuickFallback),
                "Fallback"@,
            ).lit(mostly(doc.fallback as int, doc.units as int)),
            EntryView::plain(
                CmdAction::CyclePriority,
                keys.bound(Action::QuickPriority),
                doc.prio.caption(),
            ).lit(doc.prio != PrioPreset::Off),
        ] + only_if(
            doc.casters > 0,
            EntryView::plain(
                CmdAction::ToggleAutoCast,
                keys.bound(Action::QuickAutoCast),
                "Auto-Cast"@,
            ).lit(mostly(doc.autocast as int, doc.casters as int)),
        )
    } else {
        Seq::empty()
    }
}

/// The mode toggle, which is the way to the other card.
pub open spec fn mode_tile(keys: &Hotkeys, label: Seq<char>) -> EntryView {
    EntryView::plain(CmdAction::TogglePage, keys.bound(Action::ModeToggle), label)
}

/// The orders card: orders, builds, the caster's own buttons, the building's,
/// the quick toggles, and last the mode toggle.
pub open spec fn orders_card(
    cat: &Catalog,
    keys: &Hotkeys,
    own_units: nat,
    has_worker: bool,
    single_building: Option<(BuildingKind, bool)>,
    hero: HeroCmdsView,
    card: DoctrineCard,
    completed: Seq<BuildingKind>,
) -> Seq<EntryView> {
    order_tiles(keys, own_units) + build_tiles(cat, keys, completed, has_worker) + ability_tiles(
        keys,
        hero.abilities,
    ) + item_tiles(keys, hero.items) + (match single_building {
        Some((kind, true)) if own_units == 0 => building_tiles(cat, keys, kind, hero, completed),
        _ => Seq::empty(),
    }) + toggle_tiles(keys, own_units, card.doc) + only_if(
        own_units > 0 || card.tmpl.capable,
        mode_tile(keys, "Doctrine"@),
    )
}

fn build_entries(
    cat: &Catalog,
    keys: &Hotkeys,
    completed: &Vec<BuildingKind>,
    has_worker: bool,
) -> (r: Vec<CmdEntry>)
    requires
        cat.wf(),
    ensures
        tiles(r@) == build_tiles(cat, keys, completed@, has_worker),
{
    let mut out: Vec<CmdEntry> = Vec::new();
    if !has_worker {
        assert(tiles(out@) =~= Seq::empty());
        return out;
    }
    let ghost all = build_tiles(cat, keys, completed@, true);
    let mut i: usize = 0;
    assert(tiles(out@) =~= all.take(0));
    while i < keys.builds.len()
        invariant
            cat.wf(),
            i <= keys.builds.len(),
            all == build_tiles(cat, keys, completed@, true),
            tiles(out@) == all.take(i as int),
        decreases keys.builds.len() - i,
    {
        let (kind, key) = keys.builds[i];
        let row = cat.building(kind);
        push_tile(
            &mut out,
            CmdEntry::plain(CmdAction::Place(kind), key, building_name(kind)).priced_as_building(
                cat,
                kind,
            ).gate(cat, &row.requires, completed),
        );
        assert(all.take(i + 1) =~= all.take(i as int).push(all[i as int]));
        i = i + 1;
    }
    assert(all.take(i as int) =~= all);
    out
}

fn ability_cost_text(def: &AbilityDef) -> (r: String)
    ensures
        r@ == ability_cost(*def),
{
    let mut s = String::new();
    match def.target.range() {
        Some(range) => {
            if def.target.wants_unit() {
                s.append("click a unit");
            } else {
                s.append("click ground");
            }
            s.append(" <= ");
            push_fixed0(&mut s, range);
            assert(s@ =~= ability_cost(*def));
        },
        None => {
            if def.mana_cost > 0 {
                push_fixed0(&mut s, def.mana_cost);
                s.append("mp");
            }
            assert(s@ =~= ability_cost(*def));
        },
    }
    s
}

fn ability_entries(keys: &Hotkeys, slots: &Vec<AbilitySlot>) -> (r: Vec<CmdEntry>)
    ensures
        tiles(r@) == ability_tiles(keys, slots@),
{
    let mut out: Vec<CmdEntry> = Vec::new();
    let mut i: usize = 0;
    assert(tiles(out@) =~= ability_tiles(keys, slots@.take(0)));
    while i < slots.len()
        invariant
            i <= slots.len(),
            tiles(out@) == ability_tiles(keys, slots@.take(i as int)),
        decreases slots.len() - i,
    {
        proof {
            picked_step(slots@, i as int, ability_tile(keys));
        }
        let slot = slots[i];
        if let Some(key) = keys.key(Action::HeroAbility(slot.index)) {
            let label = ability_label(&slot.def, slot.cooldown);
            push_tile(
                &mut out,
                CmdEntry::plain(CmdAction::CastHero(slot.index), key, label.as_str()).caption(
                    ability_cost_text(&slot.def),
                ).enable(slot.ready),
            );
        }
        i = i + 1;
    }
    assert(slots@.take(i as int) =~= slots@);
    out
}

fn item_entry(keys: &Hotkeys, slot: usize, item: Option<ItemId>) -> (r: Vec<CmdEntry>)
    ensures
        tiles(r@) == item_tile(keys, slot, item),
{
    let mut out: Vec<CmdEntry> = Vec::new();
    match (keys.key(Action::ItemSlot(slot)), item) {
        (Some(key), Some(id)) => {
            push_tile(&mut out, CmdEntry::plain(CmdAction::UseSlot(slot), key, item_name(id)));
        },
        _ => {},
    }
    assert(tiles(out@) =~= item_tile(keys, slot, item));
    out
}

fn hero_entry(train: &Option<HeroTrain>, kind: UnitKind, key: Key) -> (r: Option<CmdEntry>)
    ensures
        match r {
            Some(e) => hero_tile(training(*train), kind, key) == Some(e@),
            None => hero_tile(training(*train), kind, key) is None,
        },
{
    match train {
        None => None,
        Some(t) => match t.offer(kind) {
            None => None,
            Some(offer) => {
                let label: &str = if offer.revival {
                    "Revive"
                } else {
                    unit_name(kind)
                };
                let tile = CmdEntry::plain(CmdAction::Train(kind), key, label).priced(
                    offer.gold,
                    offer.lumber,
                );
                if offer.enabled {
                    Some(tile)
                } else {
                    let mut cost = owned("slots ");
                    push_dec(&mut cost, t.held.len() as u64);
                    cost.append("/");
                    push_dec(&mut cost, t.tier.number() as u64);
                    Some(tile.enable(false).caption(cost))
                }
            },
        },
    }
}

fn train_entries(
    cat: &Catalog,
    keys: &Hotkeys,
    kind: BuildingKind,
    train: &Option<HeroTrain>,
    completed: &Vec<BuildingKind>,
) -> (r: Vec<CmdEntry>)
    requires
        cat.wf(),
    ensures
        tiles(r@) == train_tiles(cat, keys, kind, training(*train), completed@),
{
    let mut out: Vec<CmdEntry> = Vec::new();
    let trains = &cat.building(kind).trains;
    let ghost f = train_tile(cat, keys, training(*train), completed@);
    let mut i: usize = 0;
    assert(tiles(out@) =~= picked_at(trains@.take(0), f));
    while i < trains.len()
        invariant
            cat.wf(),
            i <= trains.len(),
            f == train_tile(cat, keys, training(*train), completed@),
            tiles(out@) == picked_at(trains@.take(i as int), f),
        decreases trains.len() - i,
    {
        proof {
            picked_at_step(trains@, i as int, f);
        }
        let unit = trains[i];
        if let Some(key) = keys.key(Action::TrainSlot(i)) {
            let row = cat.unit(unit);
            if row.hero {
                if let Some(e) = hero_entry(train, unit, key) {
                    push_tile(&mut out, e);
                }
            } else {
                push_tile(
                    &mut out,
                    CmdEntry::plain(CmdAction::Train(unit), key, unit_name(unit)).priced(
                        row.cost_gold,
                        row.cost_lumber,
                    ).gate(cat, &row.requires, completed),
                );
            }
        }
        i = i + 1;
    }
    assert(trains@.take(i as int) =~= trains@);
    out
}

fn building_ability_entries(keys: &Hotkeys, slots: &Vec<AbilitySlot>) -> (r: Vec<CmdEntry>)
    ensures
        tiles(r@) == picked(slots@, building_ability_tile(keys)),
{
    let mut out: Vec<CmdEntry> = Vec::new();
    let mut i: usize = 0;
    assert(tiles(out@) =~= picked(slots@.take(0), building_ability_tile(keys)));
    while i < slots.len()
        invariant
            i <= slots.len(),
            tiles(out@) == picked(slots@.take(i as int), building_ability_tile(keys)),
        decreases slots.len() - i,
    {
        proof {
            picked_step(slots@, i as int, building_ability_tile(keys));
        }
        let slot = slots[i];
        if let Some(key) = keys.key(Action::BuildingAbility(slot.index)) {
            let label = ability_label(&slot.def, slot.cooldown);
            push_tile(
                &mut out,
                CmdEntry::plain(CmdAction::CastBuilding(slot.index), key, label.as_str()).enable(
                    slot.ready,
                ),
            );
        }
        i = i + 1;
    }
    assert(slots@.take(i as int) =~= slots@);
    out
}

fn research_entries(cat: &Catalog, keys: &Hotkeys, research: &Vec<ResearchCmd>) -> (r: Vec<
    CmdEntry,
>)
    ensures
        tiles(r@) == picked_at(research@, research_tile(cat, keys)),
{
    let mut out: Vec<CmdEntry> = Vec::new();
    let mut i: usize = 0;
    assert(tiles(out@) =~= picked_at(research@.take(0), research_tile(cat, keys)));
    while i < research.len()
        invariant
            i <= research.len(),
            tiles(out@) == picked_at(research@.take(i as int), research_tile(cat, keys)),
        decreases research.len() - i,
    {
        proof {
            picked_at_step(research@, i as int, research_tile(cat, keys));
        }
        let r = research[i];
        if let Some(key) = keys.key(Action::TrainSlot(i)) {
            let mut label = owned(research_name(r.kind));
            label.append(" ");
            match (r.in_progress, r.next) {
                (Some(_), _) => push_dec(&mut label, r.level as u64 + 1),
                (None, Some(step)) => push_dec(&mut label, step.level as u64),
                (None, None) => push_dec(&mut label, cat.research_max as u64),
            }
            assert(label@ =~= research_caption(cat, r));
            let tile = CmdEntry::plain(CmdAction::Research(r.kind), key, label.as_str());
            let tile = match (r.in_progress, r.next) {
                (Some(done), _) => {
                    let mut cost = String::new();
                    push_dec(&mut cost, done);
                    cost.append("%");
                    assert(cost@ =~= dec(done as nat) + "%"@);
                    tile.enable(false).caption(cost)
                },
                (None, None) => tile.enable(false).caption(owned("maxed")),
                (None, Some(step)) => {
                    let priced = tile.priced(step.cost_gold, step.cost_lumber);
                    if r.blocked {
                        priced.enable(false).caption(owned("forge busy"))
                    } else {
                        priced
                    }
                },
            };
            push_tile(&mut out, tile);
        }
        i = i + 1;
    }
    assert(research@.take(i as int) =~= research@);
    out
}

/// Every item a Shop stocks, in shelf order.
pub fn all_items() -> (r: Vec<ItemId>)
    ensures
        r@ == shelf(),
{
    let mut r: Vec<ItemId> = Vec::new();
    r.push(ItemId::HealingPotion);
    r.push(ItemId::TownPortal);
    r.push(ItemId::BootsOfSpeed);
    r.push(ItemId::BannerOfCommand);
    r.push(ItemId::ScrollOfMassTeleport);
    assert(r@ =~= shelf());
    r
}

fn shop_entries(cat: &Catalog, keys: &Hotkeys, shop: ShopState) -> (r: Vec<CmdEntry>)
    requires
        cat.wf(),
    ensures
        tiles(r@) == picked_at(shelf(), shop_tile(cat, keys, shop)),
{
    let mut out: Vec<CmdEntry> = Vec::new();
    let items = all_items();
    let mut i: usize = 0;
    assert(tiles(out@) =~= picked_at(items@.take(0), shop_tile(cat, keys, shop)));
    while i < items.len()
        invariant
            cat.wf(),
            i <= items.len(),
            items@ == shelf(),
            tiles(out@) == picked_at(items@.take(i as int), shop_tile(cat, keys, shop)),
        decreases items.len() - i,
    {
        proof {
            picked_at_step(items@, i as int, shop_tile(cat, keys, shop));
        }
        let id = items[i];
        if let Some(key) = keys.key(Action::ShopSlot(i)) {
            let row = cat.item(id);
            let unlocked: bool = row.tier.number() <= shop.tier.number();
            let mut label = owned(item_name(id));
            if !unlocked {
                label.append(" ");
                label.append(row.tier.name());
            }
            push_tile(
                &mut out,
                CmdEntry::plain(CmdAction::Buy(id), key, label.as_str()).priced(
                    row.cost_gold,
                    0,
                ).enable(shop.hero && shop.room && unlocked),
            );
        }
        i = i + 1;
    }
    assert(items@.take(i as int) =~= items@);
    out
}

fn building_entries(
    cat: &Catalog,
    keys: &Hotkeys,
    kind: BuildingKind,
    hero: &HeroCmds,
    completed: &Vec<BuildingKind>,
) -> (r: Vec<CmdEntry>)
    requires
        cat.wf(),
    ensures
        tiles(r@) == building_tiles(cat, keys, kind, hero@, completed@),
{
    let mut out = train_entries(cat, keys, kind, &hero.train, completed);
    add_tiles(&mut out, building_ability_entries(keys, &hero.building_abilities));
    add_tiles(&mut out, research_entries(cat, keys, &hero.research));
    if let Some((to, gold, lumber)) = hero.upgrade {
        let mut label = owned("Upgrade: ");
        label.append(building_name(to));
        push_tile(
            &mut out,
            CmdEntry::plain(
                CmdAction::Upgrade(to),
                keys.bind(Action::TierUp),
                label.as_str(),
            ).priced(gold, lumber),
        );
    }
    let ghost four = train_tiles(cat, keys, kind, training(hero.train), completed@) + picked(
        hero.building_abilities@,
        building_ability_tile(keys),
    ) + picked_at(hero.research@, research_tile(cat, keys)) + upgrade_tiles(keys, hero.upgrade);
    assert(tiles(out@) =~= four);
    if let Some(shop) = hero.shop {
        add_tiles(&mut out, shop_entries(cat, keys, shop));
    }
    assert(tiles(out@) =~= building_tiles(cat, keys, kind, hero@, completed@));
    out
}

fn toggle_entries(keys: &Hotkeys, own_units: usize, doc: &DoctrineState) -> (r: Vec<CmdEntry>)
    ensures
        tiles(r@) == toggle_tiles(keys, own_units as nat, *doc),
{
    let mut out: Vec<CmdEntry> = Vec::new();
    if own_units > 0 {
        push_tile(
            &mut out,
            CmdEntry::plain(
                CmdAction::ToggleGuard,
                keys.bind(Action::QuickGuard),
                "Guard",
            ).active(doc.guard_active()),
        );
        push_tile(
            &mut out,
            CmdEntry::plain(
                CmdAction::ToggleFallback,
                keys.bind(Action::QuickFallback),
                "Fallback",
            ).active(doc.fallback_active()),
        );
        push_tile(
            &mut out,
            CmdEntry::plain(
                CmdAction::CyclePriority,
                keys.bind(Action::QuickPriority),
                doc.prio.label(),
            ).active(doc.prio != PrioPreset::Off),
        );
        if doc.casters > 0 {
            push_tile(
                &mut out,
                CmdEntry::plain(
                    CmdAction::ToggleAutoCast,
                    keys.bind(Action::QuickAutoCast),
                    "Auto-Cast",
                ).active(doc.autocast_active()),
            );
        }
    }
    assert(tiles(out@) =~= toggle_tiles(keys, own_units as nat, *doc));
    out
}

// ---------------------------------------------------------------------------
// The doctrine card
// ---------------------------------------------------------------------------

pub open spec fn posture_key(kind: PostureKind) -> Action {
    match kind {
        PostureKind::Defend => Action::PostureDefend,
        PostureKind::Push => Action::PosturePush,
        PostureKind::Forage => Action::PostureForage,
        PostureKind::Escort => Action::PostureEscort,
    }
}

/// A posture's tile; its caption says what the click will be.
pub open spec fn posture_tile(keys: &Hotkeys, kind: PostureKind, card: DoctrineCard) -> EntryView {
    EntryView::plain(
        CmdAction::SetPosture(kind),
        keys.bound(posture_key(kind)),
        kind.title(),
    ).lit(card.posture == Some(kind)).captioned(
        if kind == PostureKind::Escort {
            "click a unit"@
        } else {
            "click ground"@
        },
    )
}

pub open spec fn fallback_caption(now: Option<i64>) -> Seq<char> {
    match now {
        Some(frac) => "Fall back "@ + fine_percent(frac as int) + "%"@,
        None => "Fall back"@,
    }
}

pub open spec fn leash_caption(now: Option<i64>) -> Seq<char> {
    match now {
        Some(r) => "Guard r"@ + trimmed(r as int),
        None => "Guard"@,
    }
}

pub open spec fn autocast_tile(
    keys: &Hotkeys,
    doc: DoctrineState,
) -> spec_fn(int, AbilityDef) -> Option<EntryView> {
    |i: int, def: AbilityDef|
        if i >= MAX_AUTOCAST_SLOTS {
            None
        } else {
            match keys.key_of(Action::AutoCastSlot(i as usize)) {
                Some(key) => Some(
                    EntryView::plain(
                        CmdAction::ToggleAutoCastSlot(i as usize),
                        key,
                        "Auto "@ + def.name@,
                    ).lit(mostly(doc.slot_carriers(i), doc.casters as int)).captioned(
                        dec(AUTOCAST_MIN_ENEMIES as nat) + "+ foes"@,
                    ),
                ),
                None => None,
            }
        }
}

/// One auto-cast toggle per ability of the first caster.
pub open spec fn autocast_tiles(
    cat: &Catalog,
    keys: &Hotkeys,
    doc: DoctrineState,
) -> Seq<EntryView> {
    match doc.caster {
        Some(kind) => picked_at(cat.unit_row(kind).abilities@, autocast_tile(keys, doc)),
        None => Seq::empty(),
    }
}

/// The doctrine of a unit selection: postures, the two numbers, the focus, the
/// auto-casts, and the home guard.
pub open spec fn unit_doctrine_tiles(
    cat: &Catalog,
    keys: &Hotkeys,
    card: DoctrineCard,
) -> Seq<EntryView> {
    let doc = card.doc;
    seq![
        posture_tile(keys, PostureKind::Defend, card),
        posture_tile(keys, PostureKind::Push, card),
        posture_tile(keys, PostureKind::Forage, card),
        posture_tile(keys, PostureKind::Escort, card),
        EntryView::plain(
            CmdAction::ClearPosture,
            keys.bound(Action::StandDown),
            "Stand Down"@,
        ).ready(card.posture is Some),
        EntryView::plain(
            CmdAction::CycleFallback,
            keys.bound(Action::CycleFallback),
            fallback_caption(doc.fallback_now()),
        ).lit(doc.fallback_now() is Some).captioned("- / = tune"@),
        EntryView::plain(
            CmdAction::CycleLeash,
            keys.bound(Action::CycleLeash),
            leash_caption(doc.leash_now()),
        ).lit(doc.leash_now() is Some).captioned("[ / ] tune"@),
        EntryView::plain(
            CmdAction::CyclePriority,
            keys.bound(Action::CyclePriority),
            doc.prio.caption(),
        ).lit(doc.prio != PrioPreset::Off),
    ] + autocast_tiles(cat, keys, doc) + seq![
        EntryView::plain(
            CmdAction::ToggleHomeGuard,
            keys.bound(Action::HomeGuard),
            "Home guard"@,
        ).lit(card.home_guard).captioned(
            if card.home_guard {
                "armed"@
            } else {
                "trigger"@
            },
        ),
    ]
}

/// The template of a production building.
pub open spec fn template_tiles(keys: &Hotkeys, t: TemplateView) -> Seq<EntryView> {
    seq![
        EntryView::plain(
            CmdAction::TemplateSquad,
            keys.bound(Action::TemplateSquad),
            match t.squad {
                Some(id) => "Squad "@ + dec(id as nat),
                None => "Squad"@,
            },
        ).lit(t.squad is Some),
        EntryView::plain(
            CmdAction::TemplateFallback,
            keys.bound(Action::TemplateFallback),
            match t.retreat {
                Some(frac) => "Fall back "@ + percent(frac as int) + "%"@,
                None => "Fall back"@,
            },
        ).lit(t.retreat is Some),
        EntryView::plain(
            CmdAction::TemplatePriority,
            keys.bound(Action::TemplatePriority),
            t.prio.caption(),
        ).lit(t.prio != PrioPreset::Off),
        EntryView::plain(
            CmdAction::TemplateAutoCast,
            keys.bound(Action::TemplateAutoCast),
            "Auto-cast"@,
        ).lit(t.autocast),
        EntryView::plain(
            CmdAction::TemplateClear,
            keys.bound(Action::TemplateClear),
            "Clear Doctrine"@,
        ).ready(!t.nothing()),
    ]
}

/// Naming ground, which is about no selection.
pub open spec fn territory_tiles(keys: &Hotkeys, card: DoctrineCard) -> Seq<EntryView> {
    seq![
        EntryView::plain(
            CmdAction::MarkRegion,
            keys.bound(Action::MarkRegion),
            match card.region_mark {
                Some(n) => "Mark "@ + dec(n as nat) + " r"@ + trimmed(card.region_radius as int),
                None => "Mark region"@,
            },
        ).lit(card.region_armed).ready(card.region_mark is Some).captioned(
            match card.region_mark {
                Some(_) => "; / ' size"@,
                None => dec(MAX_REGIONS_PER_TEAM as nat) + " named"@,
            },
        ),
        EntryView::plain(
            CmdAction::ClearRegions,
            keys.bound(Action::ClearRegions),
            "Forget marks"@,
        ).ready(card.region_count > 0).captioned(dec(card.region_count as nat) + " named"@),
    ]
}

/// The doctrine card; it always ends with the way back.
pub open spec fn doctrine_card(
    cat: &Catalog,
    keys: &Hotkeys,
    own_units: nat,
    card: DoctrineCard,
) -> Seq<EntryView> {
    (if own_units > 0 {
        unit_doctrine_tiles(cat, keys, card)
    } else if card.tmpl.capable {
        template_tiles(keys, card.tmpl)
    } else {
        Seq::empty()
    }) + territory_tiles(keys, card) + seq![mode_tile(keys, "Orders"@)]
}

fn posture_entry(keys: &Hotkeys, kind: PostureKind, card: &DoctrineCard) -> (r: CmdEntry)
    ensures
        r@ == posture_tile(keys, kind, *card),
{
    let action = match kind {
        PostureKind::Defend => Action::PostureDefend,
        PostureKind::Push => Action::PosturePush,
        PostureKind::Forage => Action::PostureForage,
        PostureKind::Escort => Action::PostureEscort,
    };
    let lit = match card.posture {
        Some(p) => p == kind,
        None => false,
    };
    let cost: &str = if kind.needs_unit() {
        "click a unit"
    } else {
        "click ground"
    };
    CmdEntry::plain(CmdAction::SetPosture(kind), keys.bind(action), kind.label()).active(
        lit,
    ).caption(owned(cost))
}

fn autocast_entries(cat: &Catalog, keys: &Hotkeys, doc: &DoctrineState) -> (r: Vec<CmdEntry>)
    requires
        cat.wf(),
    ensures
        tiles(r@) == autocast_tiles(cat, keys, *doc),
{
    let mut out: Vec<CmdEntry> = Vec::new();
    if let Some(kind) = doc.caster {
        let list = &cat.unit(kind).abilities;
        let ghost f = autocast_tile(keys, *doc);
        let mut i: usize = 0;
        assert(tiles(out@) =~= picked_at(list@.take(0), f));
        while i < list.len()
            invariant
                i <= list.len(),
                f == autocast_tile(keys, *doc),
                tiles(out@) == picked_at(list@.take(i as int), f),
            decreases list.len() - i,
        {
            proof {
                picked_at_step(list@, i as int, f);
            }
            if i < MAX_AUTOCAST_SLOTS {
                if let Some(key) = keys.key(Action::AutoCastSlot(i)) {
                    let mut label = owned("Auto ");
                    label.append(list[i].name);
                    let mut cost = String::new();
                    push_dec(&mut cost, AUTOCAST_MIN_ENEMIES as u64);
                    cost.append("+ foes");
                    assert(cost@ =~= dec(AUTOCAST_MIN_ENEMIES as nat) + "+ foes"@);
                    push_tile(
                        &mut out,
                        CmdEntry::plain(
                            CmdAction::ToggleAutoCastSlot(i),
                            key,
                            label.as_str(),
                        ).active(doc.autocast_slot_active(i)).caption(cost),
                    );
                }
            }
            i = i + 1;
        }
        assert(list@.take(i as int) =~= list@);
    } else {
        assert(tiles(out@) =~= Seq::empty());
    }
    out
}

fn unit_doctrine_entries(cat: &Catalog, keys: &Hotkeys, card: &DoctrineCard) -> (r: Vec<CmdEntry>)
    requires
        cat.wf(),
    ensures
        tiles(r@) == unit_doctrine_tiles(cat, keys, *card),
{
    let doc = &card.doc;
    let mut out: Vec<CmdEntry> = Vec::new();
    push_tile(&mut out, posture_entry(keys, PostureKind::Defend, card));
    push_tile(&mut out, posture_entry(keys, PostureKind::Push, card));
    push_tile(&mut out, posture_entry(keys, PostureKind::Forage, card));
    push_tile(&mut out, posture_entry(keys, PostureKind::Escort, card));
    push_tile(
        &mut out,
        CmdEntry::plain(
            CmdAction::ClearPosture,
            keys.bind(Action::StandDown),
            "Stand Down",
        ).enable(card.posture.is_some()),
    );
    let fallback = doc.fallback_value();
    let mut label = owned("Fall back");
    if let Some(frac) = fallback {
        label = owned("Fall back ");
        push_fine_percent(&mut label, frac);
        label.append("%");
    }
    assert(label@ == fallback_caption(fallback));
    push_tile(
        &mut out,
        CmdEntry::plain(
            CmdAction::CycleFallback,
            keys.bind(Action::CycleFallback),
            label.as_str(),
        ).active(fallback.is_some()).caption(owned("- / = tune")),
    );
    let leash = doc.leash_value();
    let mut label = owned("Guard");
    if let Some(r) = leash {
        label = owned("Guard r");
        push_trimmed(&mut label, r);
    }
    assert(label@ == leash_caption(leash));
    push_tile(
        &mut out,
        CmdEntry::plain(
            CmdAction::CycleLeash,
            keys.bind(Action::CycleLeash),
            label.as_str(),
        ).active(leash.is_some()).caption(owned("[ / ] tune")),
    );
    push_tile(
        &mut out,
        CmdEntry::plain(
            CmdAction::CyclePriority,
            keys.bind(Action::CyclePriority),
            doc.prio.label(),
        ).active(doc.prio != PrioPreset::Off),
    );
    add_tiles(&mut out, autocast_entries(cat, keys, doc));
    let cost: &str = if card.home_guard {
        "armed"
    } else {
        "trigger"
    };
    push_tile(
        &mut out,
        CmdEntry::plain(
            CmdAction::ToggleHomeGuard,
            keys.bind(Action::HomeGuard),
            "Home guard",
        ).active(card.home_guard).caption(owned(cost)),
    );
    assert(tiles(out@) =~= unit_doctrine_tiles(cat, keys, *card));
    out
}

fn template_entries(keys: &Hotkeys, t: &TemplateView) -> (r: Vec<CmdEntry>)
    ensures
        tiles(r@) == template_tiles(keys, *t),
{
    let mut out: Vec<CmdEntry> = Vec::new();
    let mut label = owned("Squad");
    if let Some(id) = t.squad {
        label = owned("Squad ");
        push_dec(&mut label, id as u64);
    }
    push_tile(
        &mut out,
        CmdEntry::plain(
            CmdAction::TemplateSquad,
            keys.bind(Action::TemplateSquad),
            label.as_str(),
        ).active(t.squad.is_some()),
    );
    let mut label = owned("Fall back");
    if let Some(frac) = t.retreat {
        label = owned("Fall back ");
        push_percent(&mut label, frac);
        label.append("%");
    }
    push_tile(
        &mut out,
        CmdEntry::plain(
            CmdAction::TemplateFallback,
            keys.bind(Action::TemplateFallback),
            label.as_str(),
        ).active(t.retreat.is_some()),
    );
    push_tile(
        &mut out,
        CmdEntry::plain(
            CmdAction::TemplatePriority,
            keys.bind(Action::TemplatePriority),
            t.prio.label(),
        ).active(t.prio != PrioPreset::Off),
    );
    push_tile(
        &mut out,
        CmdEntry::plain(
            CmdAction::TemplateAutoCast,
            keys.bind(Action::TemplateAutoCast),
            "Auto-cast",
        ).active(t.autocast),
    );
    push_tile(
        &mut out,
        CmdEntry::plain(
            CmdAction::TemplateClear,
            keys.bind(Action::TemplateClear),
            "Clear Doctrine",
        ).enable(!t.is_empty()),
    );
    assert(tiles(out@) =~= template_tiles(keys, *t));
    out
}

fn territory_entries(keys: &Hotkeys, card: &DoctrineCard) -> (r: Vec<CmdEntry>)
    ensures
        tiles(r@) == territory_tiles(keys, *card),
{
    let mut out: Vec<CmdEntry> = Vec::new();
    let mut label = owned("Mark region");
    let mut cost = String::new();
    match card.region_mark {
        Some(n) => {
            label = owned("Mark ");
            push_dec(&mut label, n as u64);
            label.append(" r");
            push_trimmed(&mut label, card.region_radius);
            cost = owned("; / ' size");
        },
        None => {
            push_dec(&mut cost, MAX_REGIONS_PER_TEAM as u64);
            cost.append(" named");
            assert(cost@ =~= dec(MAX_REGIONS_PER_TEAM as nat) + " named"@);
        },
    }
    push_tile(
        &mut out,
        CmdEntry::plain(
            CmdAction::MarkRegion,
            keys.bind(Action::MarkRegion),
            label.as_str(),
        ).active(card.region_armed).enable(card.region_mark.is_some()).caption(cost),
    );
    let mut cost = String::new();
    push_dec(&mut cost, card.region_count as u64);
    cost.append(" named");
    assert(cost@ =~= dec(card.region_count as nat) + " named"@);
    push_tile(
        &mut out,
        CmdEntry::plain(
            CmdAction::ClearRegions,
            keys.bind(Action::ClearRegions),
            "Forget marks",
        ).enable(card.region_count > 0).caption(cost),
    );
    assert(tiles(out@) =~= territory_tiles(keys, *card));
    out
}

/// The doctrine card: what the selected units, or the selected building, are
/// for, and what the ground is called.
pub fn doctrine_entries(
    cat: &Catalog,
    keys: &Hotkeys,
    own_units: usize,
    card: &DoctrineCard,
) -> (r: Vec<CmdEntry>)
    requires
        cat.wf(),
    ensures
        tiles(r@) == doctrine_card(cat, keys, own_units as nat, *card),
{
    let mut out: Vec<CmdEntry> = Vec::new();
    if own_units > 0 {
        out = unit_doctrine_entries(cat, keys, card);
    } else if card.tmpl.capable {
        out = template_entries(keys, &card.tmpl);
    } else {
        assert(tiles(out@) =~= Seq::empty());
    }
    add_tiles(&mut out, territory_entries(keys, card));
    push_tile(
        &mut out,
        CmdEntry::plain(CmdAction::TogglePage, keys.bind(Action::ModeToggle), "Orders"),
    );
    assert(tiles(out@) =~= doctrine_card(cat, keys, own_units as nat, *card));
    out
}

/// The whole card for a selection.
pub open spec fn whole_card(
    cat: &Catalog,
    keys: &Hotkeys,
    page: CardPage,
    own_units: nat,
    has_worker: bool,
    single_building: Option<(BuildingKind, bool)>,
    hero: HeroCmdsView,
    card: DoctrineCard,
    completed: Seq<BuildingKind>,
) -> Seq<EntryView> {
    if page == CardPage::Doctrine {
        doctrine_card(cat, keys, own_units, card)
    } else {
        orders_card(cat, keys, own_units, has_worker, single_building, hero, card, completed)
    }
}

/// Everything the selection can be told, in priority order. Both the keyboard
/// and the tiles drive off this list.
pub fn command_entries(
    cat: &Catalog,
    keys: &Hotkeys,
    page: CardPage,
    own_units: usize,
    has_worker: bool,
    single_building: Option<(BuildingKind, bool)>,
    hero: &HeroCmds,
    card: &DoctrineCard,
    completed: &Vec<BuildingKind>,
) -> (r: Vec<CmdEntry>)
    requires
        cat.wf(),
    ensures
        tiles(r@) == whole_card(
            cat,
            keys,
            page,
            own_units as nat,
            has_worker,
            single_building,
            hero@,
            *card,
            completed@,
        ),
{
    if page == CardPage::Doctrine {
        return doctrine_entries(cat, keys, own_units, card);
    }
    let mut out: Vec<CmdEntry> = Vec::new();
    if own_units > 0 {
        push_tile(
            &mut out,
            CmdEntry::plain(CmdAction::AttackMove, keys.bind(Action::AttackMove), "Attack"),
        );
        push_tile(&mut out, CmdEntry::plain(CmdAction::Stop, keys.bind(Action::Stop), "Stop"));
    }
    assert(tiles(out@) =~= order_tiles(keys, own_units as nat));
    add_tiles(&mut out, build_entries(cat, keys, completed, has_worker));
    add_tiles(&mut out, ability_entries(keys, &hero.abilities));
    let ghost before_items = tiles(out@);
    add_tiles(&mut out, item_entry(keys, 0, hero.items[0]));
    add_tiles(&mut out, item_entry(keys, 1, hero.items[1]));
    assert(tiles(out@) =~= before_items + item_tiles(keys, hero.items));
    let ghost before_building = tiles(out@);
    let ghost offered = match single_building {
        Some((kind, true)) if own_units == 0 => building_tiles(
            cat,
            keys,
            kind,
            hero@,
            completed@,
        ),
        _ => Seq::empty(),
    };
    if own_units == 0 {
        if let Some((kind, true)) = single_building {
            add_tiles(&mut out, building_entries(cat, keys, kind, hero, completed));
        }
    }
    assert(tiles(out@) =~= before_building + offered);
    add_tiles(&mut out, toggle_entries(keys, own_units, &card.doc));
    let ghost before_mode = tiles(out@);
    if own_units > 0 || card.tmpl.capable {
        push_tile(
            &mut out,
            CmdEntry::plain(CmdAction::TogglePage, keys.bind(Action::ModeToggle), "Doctrine"),
        );
    }
    assert(tiles(out@) =~= before_mode + only_if(
        own_units > 0 || card.tmpl.capable,
        mode_tile(keys, "Doctrine"@),
    ));
    out
}

// ---------------------------------------------------------------------------
// Pages
// ---------------------------------------------------------------------------

/// One page of the card: the tiles to draw and how many pages there are.
#[derive(Debug)]
pub struct CardPageView<'a> {
    pub tiles: Vec<&'a CmdEntry>,
    /// Counted from zero, and inside the card.
    pub page: usize,
    /// At least one.
    pub pages: usize,
}

/// Whether the card ends in the mode toggle, which is then on every page.
pub open spec fn pinned(entries: Seq<EntryView>) -> bool {
    entries.len() > 0 && entries.last().action == CmdAction::TogglePage
}

/// The tiles that page: all but a pinned toggle.
pub open spec fn content(entries: Seq<EntryView>) -> Seq<EntryView> {
    if pinned(entries) {
        entries.drop_last()
    } else {
        entries
    }
}

/// How many tiles of the content a page holds.
pub open spec fn per_page(entries: Seq<EntryView>) -> int {
    if pinned(entries) {
        CMD_SLOTS - 1
    } else {
        CMD_SLOTS as int
    }
}

/// How many pages the card has.
pub open spec fn page_count(entries: Seq<EntryView>) -> int {
    let n = content(entries).len() as int;
    if n == 0 {
        1
    } else {
        (n + per_page(entries) - 1) / per_page(entries)
    }
}

/// The page really shown when `page` is asked for.
pub open spec fn landed(entries: Seq<EntryView>, page: int) -> int {
    if page < page_count(entries) {
        page
    } else {
        page_count(entries) - 1
    }
}

/// The slice of the content on a page.
pub open spec fn slice(entries: Seq<EntryView>, page: int) -> Seq<EntryView> {
    let all = content(entries);
    let from = page * per_page(entries);
    let to = from + per_page(entries);
    all.subrange(
        if from < all.len() {
            from
        } else {
            all.len() as int
        },
        if to < all.len() {
            to
        } else {
            all.len() as int
        },
    )
}

/// The tiles of a page: its slice of the content, then a pinned toggle.
pub open spec fn page_tiles(entries: Seq<EntryView>, page: int) -> Seq<EntryView> {
    slice(entries, page) + (if pinned(entries) {
        seq![entries.last()]
    } else {
        Seq::empty()
    })
}

/// The contents of the tiles of a page.
pub open spec fn drawn(list: Seq<&CmdEntry>) -> Seq<EntryView> {
    list.map_values(|e: &CmdEntry| e@)
}

/// The tiles of one page, with the page asked for pulled back onto the card.
pub fn paginate<'a>(entries: &'a Vec<CmdEntry>, page: usize) -> (r: CardPageView<'a>)
    ensures
        r.pages == page_count(tiles(entries@)),
        r.page == landed(tiles(entries@), page as int),
        drawn(r.tiles@) == page_tiles(tiles(entries@), r.page as int),
{
    let n: usize = entries.len();
    let pin: bool = n > 0 && entries[n - 1].action == CmdAction::TogglePage;
    let ghost all = tiles(entries@);
    assert(pin == pinned(all));
    let (len, per): (usize, usize) = if pin {
        (n - 1, CMD_SLOTS - 1)
    } else {
        (n, CMD_SLOTS)
    };
    assert(len == content(all).len() && per == per_page(all));
    let pages: usize = if len == 0 {
        1
    } else if len % per == 0 {
        len / per
    } else {
        len / per + 1
    };
    proof {
        if len > 0 {
            let q = len as int / per as int;
            let r = len as int % per as int;
            assert(pages == (len + per - 1) / (per as int)) by (nonlinear_arith)
                requires
                    11 <= per <= 12,
                    len > 0,
                    q == len as int / per as int,
                    r == len as int % per as int,
                    pages == (if r == 0 { q } else { q + 1 }),
            ;
        }
    }
    let page: usize = if page < pages {
        page
    } else {
        pages - 1
    };
    assert(page * per <= len && (page + 1) * per <= len + per) by (nonlinear_arith)
        requires
            page < pages,
            pages == (if len == 0 { 1int } else { (len + per - 1) / (per as int) }),
            11 <= per <= 12,
    ;
    let from: usize = page * per;
    let to: usize = if len - from > per {
        from + per
    } else {
        len
    };
    assert(from + per == (page + 1) * per) by (nonlinear_arith)
        requires
            from == page * per,
    ;
    let mut out: Vec<&'a CmdEntry> = Vec::new();
    let mut i: usize = from;
    assert(drawn(out@) =~= all.subrange(from as int, from as int));
    while i < to
        invariant
            from <= i <= to <= len <= n,
            n == entries@.len(),
            all == tiles(entries@),
            drawn(out@) == all.subrange(from as int, i as int),
        decreases to - i,
    {
        let ghost before = drawn(out@);
        out.push(&entries[i]);
        assert(drawn(out@) =~= before.push(all[i as int]));
        assert(all.subrange(from as int, i + 1) =~= before.push(all[i as int]));
        i = i + 1;
    }
    assert(all.subrange(from as int, to as int) =~= slice(all, page as int));
    if pin {
        out.push(&entries[n - 1]);
    }
    assert(drawn(out@) =~= page_tiles(all, page as int));
    CardPageView { tiles: out, page, pages }
}

/// The first pages, one after the other.
pub open spec fn first_pages(entries: Seq<EntryView>, pages: int) -> Seq<EntryView>
    decreases pages,
{
    if pages <= 0 {
        Seq::empty()
    } else {
        first_pages(entries, pages - 1) + slice(entries, pages - 1)
    }
}

proof fn first_pages_prefix(entries: Seq<EntryView>, pages: int)
    requires
        0 <= pages,
    ensures
        first_pages(entries, pages) == content(entries).take(
            if pages * per_page(entries) < content(entries).len() {
                pages * per_page(entries)
            } else {
                content(entries).len() as int
            },
        ),
    decreases pages,
{
    let all = content(entries);
    let per = per_page(entries);
    if pages == 0 {
        assert(0 * per == 0) by (nonlinear_arith);
        assert(first_pages(entries, 0) =~= all.take(0));
    } else {
        first_pages_prefix(entries, pages - 1);
        assert((pages - 1) * per + per == pages * per) by (nonlinear_arith);
        assert((pages - 1) * per >= 0) by (nonlinear_arith)
            requires
                pages >= 1,
                per >= 0,
        ;
        let to = if pages * per < all.len() {
            pages * per
        } else {
            all.len() as int
        };
        assert(first_pages(entries, pages) =~= all.take(to));
    }
}

/// Walking the pages shows every tile of the content once, in order; no page
/// shows more tiles than the card has slots; and a pinned toggle is the last
/// tile of every page.
pub proof fn pages_lose_nothing(entries: Seq<EntryView>)
    ensures
        page_count(entries) >= 1,
        first_pages(entries, page_count(entries)) == content(entries),
        forall|page: int|
            0 <= page ==> (#[trigger] page_tiles(entries, page)).len() <= CMD_SLOTS,
        forall|page: int|
            0 <= page && pinned(entries) ==> (#[trigger] page_tiles(entries, page)).last()
                == entries.last(),
{
    let all = content(entries);
    let per = per_page(entries);
    let pages = page_count(entries);
    first_pages_prefix(entries, pages);
    assert(pages >= 1 && pages * per >= all.len()) by (nonlinear_arith)
        requires
            pages == (if all.len() == 0 { 1int } else { (all.len() + per - 1) / per }),
            11 <= per <= 12,
    ;
    assert(all.take(all.len() as int) =~= all);
    assert forall|page: int| 0 <= page implies (#[trigger] page_tiles(entries, page)).len()
        <= CMD_SLOTS by {
        let from = page * per;
        assert(from >= 0) by (nonlinear_arith)
            requires
                from == page * per,
                page >= 0,
                per >= 0,
        ;
    }
}

/// Every tile of a card is on some page of it.
pub proof fn every_tile_is_on_some_page(entries: Seq<EntryView>, i: int) -> (page: int)
    requires
        0 <= i < entries.len(),
    ensures
        0 <= page < page_count(entries),
        page_tiles(entries, page).contains(entries[i]),
{
    let all = content(entries);
    let per = per_page(entries);
    pages_lose_nothing(entries);
    if i < all.len() {
        let page = i / per;
        let from = page * per;
        let k = i - from;
        assert(0 <= page && 0 <= k < per && page * per + per <= all.len() + per && page
            < page_count(entries)) by (nonlinear_arith)
            requires
                page == i / per,
                from == page * per,
                k == i - from,
                0 <= i < all.len(),
                11 <= per <= 12,
                page_count(entries) == (all.len() + per - 1) / per,
        ;
        assert(slice(entries, page)[k] == all[i]);
        assert(page_tiles(entries, page)[k] == entries[i]);
        page
    } else {
        let tiles0 = page_tiles(entries, 0);
        assert(tiles0[tiles0.len() - 1] == entries[i]);
        0
    }
}

/// A page past the end lands on the last page, and any other is itself.
pub proof fn pages_clamp(entries: Seq<EntryView>, page: int)
    requires
        0 <= page,
    ensures
        0 <= landed(entries, page) < page_count(entries),
        page < page_count(entries) ==> landed(entries, page) == page,
{
    pages_lose_nothing(entries);
}

/// The page indicator: silent while everything fits, else the mode, the page
/// and the key that turns it.
pub open spec fn page_caption(mode: CardPage, page: nat, pages: nat) -> Seq<char> {
    if pages <= 1 {
        Seq::empty()
    } else {
        (if mode == CardPage::Orders {
            "Orders "@
        } else {
            "Doctrine "@
        }) + dec(page + 1) + "/"@ + dec(pages) + "   [Tab] more"@
    }
}

/// The page indicator under the card.
pub fn card_page_label(mode: CardPage, page: usize, pages: usize) -> (r: String)
    requires
        page < usize::MAX,
    ensures
        r@ == page_caption(mode, page as nat, pages as nat),
{
    let mut s = String::new();
    if pages <= 1 {
        assert(s@ =~= Seq::empty());
        return s;
    }
    match mode {
        CardPage::Orders => s.append("Orders "),
        CardPage::Doctrine => s.append("Doctrine "),
    }
    push_dec(&mut s, (page + 1) as u64);
    s.append("/");
    push_dec(&mut s, pages as u64);
    s.append("   [Tab] more");
    assert(s@ =~= page_caption(mode, page as nat, pages as nat));
    s
}

} // verus!
