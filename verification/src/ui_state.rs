//! What the interface remembers between frames, and the modes that are waiting
//! for a click.

use vstd::prelude::*;

use crate::card::{CardPage, CmdAction};
use crate::catalog::BuildingKind;
use crate::intent::PostureArm;

verus! {

/// How many control groups there are; they are also the squads they write.
pub const GROUPS: usize = 3;

/// A point on the screen, in thousandths of a logical pixel.
#[derive(Clone, Copy, PartialEq, Eq, Debug, Structural)]
pub struct Px {
    pub x: i32,
    pub y: i32,
}

/// An aimed cast waiting for its click. The casters are settled when the key
/// is pressed.
#[derive(Debug)]
pub struct CastArm {
    /// Everyone who will cast, all at the same aim.
    pub casters: Vec<u64>,
    pub slot: usize,
    /// Ability name, for the hint line.
    pub name: &'static str,
    /// The click names a unit, not ground.
    pub wants_unit: bool,
}

pub struct CastArmView {
    pub casters: Seq<u64>,
    pub slot: usize,
    pub name: Seq<char>,
    pub wants_unit: bool,
}

impl View for CastArm {
    type V = CastArmView;

    open spec fn view(&self) -> CastArmView {
        CastArmView {
            casters: self.casters@,
            slot: self.slot,
            name: self.name@,
            wants_unit: self.wants_unit,
        }
    }
}

/// A teleport item waiting for the player to say which hall.
#[derive(Clone, Copy, Debug)]
pub struct TeleportArm {
    pub hero: u64,
    pub slot: usize,
    /// Item name, for the hint line.
    pub name: &'static str,
}

pub struct TeleportArmView {
    pub hero: u64,
    pub slot: usize,
    pub name: Seq<char>,
}

impl View for TeleportArm {
    type V = TeleportArmView;

    open spec fn view(&self) -> TeleportArmView {
        TeleportArmView { hero: self.hero, slot: self.slot, name: self.name@ }
    }
}

/// What the interface remembers.
#[derive(Debug)]
pub struct UiState {
    /// Where the left button went down.
    pub drag_start: Option<Px>,
    /// The press has travelled far enough to be a box.
    pub dragging: bool,
    /// The next left click is an attack-move.
    pub attack_move_armed: bool,
    /// A building waiting for its site.
    pub placement: Option<BuildingKind>,
    /// Workers that already have a segment of the current wall. Empty unless
    /// walls are being placed.
    pub wall_chain: Vec<u64>,
    /// The control groups.
    pub groups: Vec<Vec<u64>>,
    pub page: CardPage,
    /// Which overflow page of that card is showing.
    pub card_page: usize,
    pub posture_place: Option<PostureArm>,
    pub cast_place: Option<CastArm>,
    /// The next left click names a circle of ground.
    pub region_place: bool,
    /// Radius of the next mark, or the default.
    pub region_radius: Option<i64>,
    pub teleport_place: Option<TeleportArm>,
    /// Round-robin cursor of the idle-worker key.
    pub idle_cursor: usize,
    /// The left button went down inside the minimap and is still held.
    pub minimap_drag: bool,
    /// The entity behind each selection tile.
    pub card_entities: Vec<u64>,
    /// The command behind each card tile.
    pub card_actions: Vec<CmdAction>,
    /// Live tiles of the training queue.
    pub queue_len: usize,
    /// Visible alert rows.
    pub notif_rows: usize,
    /// Visible proposal cards.
    pub prop_cards: usize,
    /// The hero the player last looked at: the Shop's customer.
    pub last_hero: Option<u64>,
}

pub struct UiView {
    pub drag_start: Option<Px>,
    pub dragging: bool,
    pub attack_move_armed: bool,
    pub placement: Option<BuildingKind>,
    pub wall_chain: Seq<u64>,
    pub groups: Seq<Seq<u64>>,
    pub page: CardPage,
    pub card_page: usize,
    pub posture_place: Option<PostureArm>,
    pub cast_place: Option<CastArmView>,
    pub region_place: bool,
    pub region_radius: Option<i64>,
    pub teleport_place: Option<TeleportArmView>,
    pub idle_cursor: usize,
    pub minimap_drag: bool,
    pub card_entities: Seq<u64>,
    pub card_actions: Seq<CmdAction>,
    pub queue_len: usize,
    pub notif_rows: usize,
    pub prop_cards: usize,
    pub last_hero: Option<u64>,
}

impl View for UiState {
    type V = UiView;

    open spec fn view(&self) -> UiView {
        UiView {
            drag_start: self.drag_start,
            dragging: self.dragging,
            attack_move_armed: self.attack_move_armed,
            placement: self.placement,
            wall_chain: self.wall_chain@,
            groups: self.groups@.map_values(|g: Vec<u64>| g@),
            page: self.page,
            card_page: self.card_page,
            posture_place: self.posture_place,
            cast_place: match self.cast_place {
                Some(arm) => Some(arm@),
                None => None,
            },
            region_place: self.region_place,
            region_radius: self.region_radius,
            teleport_place: match self.teleport_place {
                Some(arm) => Some(arm@),
                None => None,
            },
            idle_cursor: self.idle_cursor,
            minimap_drag: self.minimap_drag,
            card_entities: self.card_entities@,
            card_actions: self.card_actions@,
            queue_len: self.queue_len,
            notif_rows: self.notif_rows,
            prop_cards: self.prop_cards,
            last_hero: self.last_hero,
        }
    }
}

pub open spec fn one_if(b: bool) -> int {
    if b {
        1
    } else {
        0
    }
}

impl UiView {
    /// How many modes are waiting for a click.
    pub open spec fn armed(self) -> int {
        one_if(self.attack_move_armed) + one_if(self.placement is Some) + one_if(
            self.posture_place is Some,
        ) + one_if(self.cast_place is Some) + one_if(self.region_place) + one_if(
            self.teleport_place is Some,
        )
    }

    /// The next click means at most one thing, and a wall is in progress only
    /// while walls are being placed.
    pub open spec fn exclusive(self) -> bool {
        &&& self.armed() <= 1
        &&& self.placement != Some(BuildingKind::Wall) ==> self.wall_chain.len() == 0
    }

    /// The same, with nothing waiting for a click.
    pub open spec fn disarmed(self) -> UiView {
        UiView {
            attack_move_armed: false,
            placement: None,
            wall_chain: Seq::empty(),
            posture_place: None,
            cast_place: None,
            region_place: false,
            teleport_place: None,
            ..self
        }
    }

    /// One step out: the innermost waiting mode is dropped, and with none
    /// waiting the card goes back to the first page of its orders. A drag is
    /// over either way.
    pub open spec fn one_step_out(self) -> UiView {
        let out = if self.teleport_place is Some {
            UiView { teleport_place: None, ..self }
        } else if self.cast_place is Some {
            UiView { cast_place: None, ..self }
        } else if self.placement is Some {
            UiView { placement: None, wall_chain: Seq::empty(), ..self }
        } else if self.posture_place is Some {
            UiView { posture_place: None, ..self }
        } else if self.region_place {
            UiView { region_place: false, ..self }
        } else if self.attack_move_armed {
            UiView { attack_move_armed: false, ..self }
        } else {
            UiView { page: CardPage::Orders, card_page: 0, ..self }
        };
        UiView { dragging: false, drag_start: None, ..out }
    }
}

impl UiState {
    /// A fresh interface: nothing selected, nothing waiting, no groups.
    pub open spec fn is_fresh(self) -> bool {
        &&& self@.armed() == 0
        &&& self@.exclusive()
        &&& self.page == CardPage::Orders
        &&& self.card_page == 0
        &&& self@.groups == seq![Seq::<u64>::empty(), Seq::<u64>::empty(), Seq::<u64>::empty()]
        &&& self.drag_start is None
        &&& !self.dragging
        &&& !self.minimap_drag
        &&& self.region_radius is None
        &&& self.last_hero is None
        &&& self.idle_cursor == 0
        &&& self.card_entities@.len() == 0
        &&& self.card_actions@.len() == 0
        &&& self.queue_len == 0
        &&& self.notif_rows == 0
        &&& self.prop_cards == 0
    }

    /// A fresh interface.
    pub fn new() -> (r: UiState)
        ensures
            r.is_fresh(),
    {
        let mut groups: Vec<Vec<u64>> = Vec::new();
        groups.push(Vec::new());
        groups.push(Vec::new());
        groups.push(Vec::new());
        let ui = UiState {
            drag_start: None,
            dragging: false,
            attack_move_armed: false,
            placement: None,
            wall_chain: Vec::new(),
            groups,
            page: CardPage::Orders,
            card_page: 0,
            posture_place: None,
            cast_place: None,
            region_place: false,
            region_radius: None,
            teleport_place: None,
            idle_cursor: 0,
            minimap_drag: false,
            card_entities: Vec::new(),
            card_actions: Vec::new(),
            queue_len: 0,
            notif_rows: 0,
            prop_cards: 0,
            last_hero: None,
        };
        assert(ui@.groups =~= seq![
            Seq::<u64>::empty(),
            Seq::<u64>::empty(),
            Seq::<u64>::empty(),
        ]);
        ui
    }

    /// Drops whatever is waiting for a click.
    pub fn disarm(&mut self)
        ensures
            final(self)@ == old(self)@.disarmed(),
    {
        self.attack_move_armed = false;
        self.placement = None;
        self.wall_chain = Vec::new();
        self.posture_place = None;
        self.cast_place = None;
        self.region_place = false;
        self.teleport_place = None;
        assert(self.wall_chain@ =~= Seq::<u64>::empty());
    }

    /// The cancel key: one step out.
    pub fn escape(&mut self)
        ensures
            final(self)@ == old(self)@.one_step_out(),
    {
        if self.teleport_place.is_some() {
            self.teleport_place = None;
        } else if self.cast_place.is_some() {
            self.cast_place = None;
        } else if self.placement.is_some() {
            self.placement = None;
            self.wall_chain = Vec::new();
            assert(self.wall_chain@ =~= Seq::<u64>::empty());
        } else if self.posture_place.is_some() {
            self.posture_place = None;
        } else if self.region_place {
            self.region_place = false;
        } else if self.attack_move_armed {
            self.attack_move_armed = false;
        } else {
            self.page = CardPage::Orders;
            self.card_page = 0;
        }
        self.dragging = false;
        self.drag_start = None;
    }
}

/// The cancel key takes exactly one step: it drops one waiting mode and leaves
/// the card alone, or, with none waiting, it goes back to the orders card.
pub proof fn escape_takes_one_step(ui: UiView)
    ensures
        ui.armed() > 0 ==> {
            &&& ui.one_step_out().armed() == ui.armed() - 1
            &&& ui.one_step_out().page == ui.page
            &&& ui.one_step_out().card_page == ui.card_page
        },
        ui.armed() == 0 ==> {
            &&& ui.one_step_out().armed() == 0
            &&& ui.one_step_out().page == CardPage::Orders
            &&& ui.one_step_out().card_page == 0
        },
        ui.exclusive() ==> ui.one_step_out().exclusive(),
        ui.exclusive() ==> ui.one_step_out().armed() == 0,
{
}

} // verus!
