//! The state of the game and the machine that takes it from turn to turn.

use vstd::prelude::*;
use crate::components::{Components, WantsToDropItem, WantsToUseItem};
use crate::coord::Coord;
use crate::game_log::GameLog;
use crate::gui::{
    backpack_of, can_target, draw_drop_item_menu, draw_show_inventory_item_menu, item_menu_answer,
    main_menu, main_menu_answer, ranged_targeting, targeting_answer, ItemMenuResult, Key,
    MainMenuResult, MainMenuSelection,
};
use crate::map::{GameMap, MapView};
use crate::player::{input_taken, player_input};
use crate::store::{carried_in, live, purged, Entity, EntityStore, Slot};
use crate::systems::damage_system::DamageSystem;
use crate::systems::inventory_management::{
    after_uses, collected, drop_lines, dropped, lines_of_uses, pickup_lines, rested, used_up,
    without_drops, without_pickups, ItemCollectionSystem, ItemDropSystem, ItemUseSystem,
};
use crate::systems::map_indexing_system::{indexed, MapIndexingSystem};
use crate::systems::melee_combat_system::{fought, melee_lines, without_blows, MeleeCombatSystem};
use crate::systems::monster_ai_system::{pursued, MonsterAI, NavigationPath};
use crate::systems::visibility_system::{looked, sighted, VisibilitySystem};
use crate::text::{
    death_message, death_text, nameless, player_death_message, player_death_text,
};

verus! {

/// Where the game stands between two ticks.
#[derive(Clone, Copy, PartialEq, Eq, Structural, Debug)]
pub enum RunState {
    AwaitingInput,
    PreRun,
    PlayerTurn,
    MonsterTurn,
    ShowInventory,
    ShowDropItem,
    ShowTargeting { range: i32, item: Entity },
    MainMenu { menu_selection: MainMenuSelection },
}

/// What the front end has to do after a tick.
#[derive(Clone, Copy, PartialEq, Eq, Structural, Debug)]
pub enum TickOutcome {
    Continue,
    SaveAndQuit,
}

/// What the player did since the last tick.
#[derive(Clone, Copy, PartialEq, Eq, Structural, Debug)]
pub struct Input {
    pub key: Option<Key>,
    pub mouse: Coord,
    pub left_click: bool,
}

/// The whole game: the entities, the map, the log, who the player is and
/// where it stands, and where the game stands.
pub struct State {
    pub ecs: EntityStore,
    pub map: GameMap,
    pub log: GameLog,
    pub player: Entity,
    pub player_pos: Coord,
    pub run_state: RunState,
}

/// The game as a plain value.
pub struct StateView {
    pub slots: Seq<Slot>,
    pub map: MapView,
    pub lines: Seq<Seq<char>>,
    pub player: Entity,
    pub player_pos: Coord,
    pub run_state: RunState,
}

/// `s` after the melee pass.
pub open spec fn after_melee(s: Seq<Slot>) -> Seq<Slot> {
    without_blows(fought(s, s.len() as int))
}

/// `s` after the damage pass.
pub open spec fn after_damage(s: Seq<Slot>) -> Seq<Slot> {
    Seq::new(
        s.len(),
        |i: int|
            if s[i].alive {
                Slot { components: DamageSystem::damaged(s[i].components), ..s[i] }
            } else {
                s[i]
            },
    )
}

/// `s` after the collection pass.
pub open spec fn after_collection(s: Seq<Slot>) -> Seq<Slot> {
    without_pickups(collected(s, s.len() as int))
}

/// `s` after the use pass on the map `v`.
pub open spec fn after_use(s: Seq<Slot>, v: MapView) -> Seq<Slot> {
    purged(rested(after_uses(s, v, s.len() as int)), used_up(s, v, s.len() as int))
}

/// `s` after the drop pass.
pub open spec fn after_drop(s: Seq<Slot>) -> Seq<Slot> {
    without_drops(dropped(s, s.len() as int))
}

/// `s` after the passes that follow the indexing of the map `v`: melee,
/// damage, collection, use and drop, in this order.
pub open spec fn resolved(s: Seq<Slot>, v: MapView) -> Seq<Slot> {
    after_drop(after_use(after_collection(after_damage(after_melee(s))), v))
}

/// The messages of the passes that follow the indexing of the map `v`,
/// newest first.
pub open spec fn resolved_lines(s: Seq<Slot>, v: MapView, player: Entity) -> Seq<Seq<char>> {
    let s1 = after_melee(s);
    let s2 = after_damage(s1);
    let s3 = after_collection(s2);
    let s4 = after_use(s3, v);
    drop_lines(s4, player, s4.len() as int) + lines_of_uses(s3, v, player, s3.len() as int)
        + pickup_lines(s2, player, s2.len() as int) + melee_lines(s, s.len() as int)
}

/// Whether the entity of a slot is to die: it lives and its health is
/// below 1.
pub open spec fn dying(slot: Slot) -> bool {
    slot.alive && slot.components.combat_stats.is_some()
        && slot.components.combat_stats.unwrap().hp < 1
}

/// `s` after the death sweep: who was dying and is no player is gone.
pub open spec fn buried(s: Seq<Slot>) -> Seq<Slot> {
    Seq::new(
        s.len(),
        |i: int|
            if dying(s[i]) && s[i].components.player.is_none() {
                Slot { generation: s[i].generation, alive: false, components: Components::none() }
            } else {
                s[i]
            },
    )
}

/// The messages of the death sweep over the first `n` slots, newest first:
/// one for each entity that was dying.
pub open spec fn death_lines(s: Seq<Slot>, n: int) -> Seq<Seq<char>>
    decreases n,
{
    if n <= 0 {
        Seq::empty()
    } else if dying(s[n - 1]) {
        seq![
            if s[n - 1].components.player.is_some() {
                player_death_text()
            } else {
                death_text(s[n - 1].components.name_or(nameless()))
            },
        ] + death_lines(s, n - 1)
    } else {
        death_lines(s, n - 1)
    }
}

/// `s` with the wish `wish` to use an item on `player`, where it lives.
pub open spec fn wishing_use(s: Seq<Slot>, player: Entity, wish: WantsToUseItem) -> Seq<Slot> {
    if live(s, player) {
        s.update(
            player.index as int,
            Slot {
                components: Components {
                    wants_to_use: Some(wish),
                    ..s[player.index as int].components
                },
                ..s[player.index as int]
            },
        )
    } else {
        s
    }
}

/// `s` with the wish to put `item` down on `player`, where it lives.
pub open spec fn wishing_drop(s: Seq<Slot>, player: Entity, item: Entity) -> Seq<Slot> {
    if live(s, player) {
        s.update(
            player.index as int,
            Slot {
                components: Components {
                    wants_to_drop: Some(WantsToDropItem { item }),
                    ..s[player.index as int].components
                },
                ..s[player.index as int]
            },
        )
    } else {
        s
    }
}

impl StateView {
    /// Whether `next` is this state after the systems have run, with
    /// `seen` and `chased` as the entities after the visibility pass and
    /// after the monsters' pass.  The passes run in this order:
    /// visibility, monsters, indexing, melee, damage, collection, use,
    /// drop.
    pub open spec fn ran_through(
        self,
        next: StateView,
        paths: Seq<NavigationPath>,
        seen: Seq<Slot>,
        chased: Seq<Slot>,
    ) -> bool {
        let n = self.slots.len() as int;
        let v1 = sighted(self.map, self.slots, n);
        let v2 = indexed(v1, chased, n);
        &&& looked(self.slots, self.map, seen)
        &&& pursued(seen, v1, self.player_pos, paths, chased)
        &&& next.map == v2
        &&& next.slots == resolved(chased, v2)
        &&& next.lines == resolved_lines(chased, v2, self.player) + self.lines
        &&& next.player == self.player
        &&& next.player_pos == self.player_pos
    }

    /// Whether `next` is this state after the systems have run with the
    /// paths `paths` for the hunters.
    pub open spec fn systems_ran(self, next: StateView, paths: Seq<NavigationPath>) -> bool {
        exists|seen: Seq<Slot>, chased: Seq<Slot>|
            #[trigger] self.ran_through(next, paths, seen, chased)
    }

    /// This state in the run state `run_state`.
    pub open spec fn in_state(self, run_state: RunState) -> StateView {
        StateView { run_state, ..self }
    }

    /// Whether `next` is what a menu of the player's items makes of this
    /// state: a cancel goes back to waiting, no answer stays in the menu,
    /// and a selected item is handled as `chosen` says.
    pub open spec fn menu_answered(
        self,
        next: StateView,
        key: Option<Key>,
        chosen: spec_fn(Entity) -> StateView,
    ) -> bool {
        match item_menu_answer(
            backpack_of(self.slots, self.player, self.slots.len() as int),
            key,
        ) {
            (ItemMenuResult::Cancel, _) => next == self.in_state(RunState::AwaitingInput),
            (ItemMenuResult::NoResponse, _) => next == self,
            (ItemMenuResult::Selected, Some(item)) => next == chosen(item),
            (ItemMenuResult::Selected, None) => next == self,
        }
    }

    /// This state after `item` was selected for use: a ranged item asks
    /// for a target, any other item is used on the player itself in the
    /// player's turn.
    pub open spec fn item_chosen(self, item: Entity) -> StateView {
        match carried_in(self.slots, item).ranged {
            Some(ranged) => self.in_state(RunState::ShowTargeting { range: ranged.range, item }),
            None => StateView {
                slots: wishing_use(self.slots, self.player, WantsToUseItem { item, target: None }),
                run_state: RunState::PlayerTurn,
                ..self
            },
        }
    }

    /// This state after `item` was selected to be put down.
    pub open spec fn drop_chosen(self, item: Entity) -> StateView {
        StateView {
            slots: wishing_drop(self.slots, self.player, item),
            run_state: RunState::PlayerTurn,
            ..self
        }
    }

    /// Whether `next` is what the machine makes of this state, before the
    /// death sweep.  In `PreRun`, `PlayerTurn` and `MonsterTurn` the
    /// systems run, and the game goes on in `AwaitingInput`, `MonsterTurn`
    /// and `AwaitingInput`.  In `AwaitingInput` the player's key is taken.
    /// In the two menus of items and in the targeting the answer decides.
    /// In the main menu the highlight moves, or a new or loaded game
    /// starts with `PreRun`; on `Quit` the state stays.
    pub open spec fn decided(self, input: Input, paths: Seq<NavigationPath>, next: StateView) -> bool {
        match self.run_state {
            RunState::PreRun => self.systems_ran(next, paths) && next.run_state
                == RunState::AwaitingInput,
            RunState::PlayerTurn => self.systems_ran(next, paths) && next.run_state
                == RunState::MonsterTurn,
            RunState::MonsterTurn => self.systems_ran(next, paths) && next.run_state
                == RunState::AwaitingInput,
            RunState::AwaitingInput => input_taken(self, input.key, next, next.run_state),
            RunState::ShowInventory => self.menu_answered(
                next,
                input.key,
                |item: Entity| self.item_chosen(item),
            ),
            RunState::ShowDropItem => self.menu_answered(
                next,
                input.key,
                |item: Entity| self.drop_chosen(item),
            ),
            RunState::ShowTargeting { range, item } => match targeting_answer(
                can_target(self.slots, self.player, self.player_pos, range as int, input.mouse),
                input.mouse,
                input.left_click,
            ) {
                (ItemMenuResult::Cancel, _) => next == self.in_state(RunState::AwaitingInput),
                (ItemMenuResult::NoResponse, _) => next == self,
                (ItemMenuResult::Selected, target) => next == (StateView {
                    slots: wishing_use(self.slots, self.player, WantsToUseItem { item, target }),
                    run_state: RunState::PlayerTurn,
                    ..self
                }),
            },
            RunState::MainMenu { menu_selection } => match main_menu_answer(
                menu_selection,
                input.key,
            ) {
                MainMenuResult::NoSelection { selected } => next == self.in_state(
                    RunState::MainMenu { menu_selection: selected },
                ),
                MainMenuResult::Selected { selected } => match selected {
                    MainMenuSelection::NewGame => next == self.in_state(RunState::PreRun),
                    MainMenuSelection::LoadGame => next == self.in_state(RunState::PreRun),
                    MainMenuSelection::Quit => next == self,
                },
            },
        }
    }

    /// Whether this state asks the front end to save and quit on `input`:
    /// `Quit` is chosen in the main menu.
    pub open spec fn quits(self, input: Input) -> bool {
        match self.run_state {
            RunState::MainMenu { menu_selection } => main_menu_answer(menu_selection, input.key)
                == (MainMenuResult::Selected { selected: MainMenuSelection::Quit }),
            _ => false,
        }
    }

    /// This state after the death sweep.
    pub open spec fn swept(self) -> StateView {
        StateView {
            slots: buried(self.slots),
            lines: death_lines(self.slots, self.slots.len() as int) + self.lines,
            ..self
        }
    }
}

/// Removes every entity whose health is below 1 and that is no player, and
/// notes each death in the log, the player's too.  The entities go only
/// after all have been looked at.
pub fn remove_the_dead(store: &mut EntityStore, log: &mut GameLog)
    ensures
        final(store).slots() == buried(old(store).slots()),
        final(log).lines() == death_lines(old(store).slots(), old(store).slots().len() as int)
            + old(log).lines(),
        old(store).succeeded_by(final(store)),
{
    let ghost s0 = store.slots();
    let ghost l0 = log.lines();
    let n: usize = store.len();
    let mut dead: Vec<Entity> = Vec::new();
    let mut i: usize = 0;
    assert(log.lines() =~= Seq::<Seq<char>>::empty() + l0);
    while i < n
        invariant
            i <= n,
            n == s0.len(),
            store.slots() == s0,
            log.lines() == death_lines(s0, i as int) + l0,
            forall|e: Entity|
                dead@.contains(e) <==> (e.index < i && e == crate::store::handle_in(
                    s0,
                    e.index as int,
                ) && dying(s0[e.index as int]) && s0[e.index as int].components.player.is_none()),
        decreases n - i,
    {
        let c = &store.slots[i].components;
        let ghost before = dead@;
        match c.combat_stats {
            Some(stats) => {
                if store.slots[i].alive && stats.hp < 1 {
                    if c.player.is_some() {
                        log.add(player_death_message());
                    } else {
                        let entity = Entity { index: i, generation: store.slots[i].generation };
                        let victim_name = store.label(entity);
                        log.add(death_message(victim_name.as_str()));
                        dead.push(entity);
                        proof {
                            assert forall|e: Entity| dead@.contains(e) <==> (before.contains(e)
                                || e == entity) by {
                                if before.contains(e) {
                                    let w = choose|w: int| 0 <= w < before.len() && before[w] == e;
                                    assert(dead@[w] == e);
                                }
                                if e == entity {
                                    assert(dead@[before.len() as int] == e);
                                }
                            }
                        }
                    }
                    assert(log.lines() =~= death_lines(s0, i + 1) + l0);
                }
            },
            None => {},
        }
        proof {
            let gone = dying(s0[i as int]) && s0[i as int].components.player.is_none();
            let entity = crate::store::handle_in(s0, i as int);
            assert forall|e: Entity| dead@.contains(e) <==> (e.index < i + 1 && e
                == crate::store::handle_in(s0, e.index as int) && dying(s0[e.index as int])
                && s0[e.index as int].components.player.is_none()) by {
                assert(dead@.contains(e) <==> (before.contains(e) || (gone && e == entity)));
                assert(before.contains(e) <==> (e.index < i && e == crate::store::handle_in(
                    s0,
                    e.index as int,
                ) && dying(s0[e.index as int]) && s0[e.index as int].components.player.is_none()));
            }
        }
        i = i + 1;
    }
    store.delete_all(&dead);
    assert(store.slots() =~= buried(s0));
}

impl State {
    /// The game as a plain value.
    pub open spec fn view(&self) -> StateView {
        StateView {
            slots: self.ecs.slots(),
            map: self.map@,
            lines: self.log.lines(),
            player: self.player,
            player_pos: self.player_pos,
            run_state: self.run_state,
        }
    }

    /// A game on `map` with the entities of `ecs`, of which `player` is the
    /// player and stands at `player_pos`.  The log holds `welcome`, and the
    /// game stands before its first run.
    pub fn new(ecs: EntityStore, map: GameMap, player: Entity, player_pos: Coord, welcome: String) -> (state:
        State)
        ensures
            state@ == (StateView {
                slots: ecs.slots(),
                map: map@,
                lines: seq![welcome@],
                player,
                player_pos,
                run_state: RunState::PreRun,
            }),
    {
        let mut log = GameLog::new();
        log.add(welcome);
        assert(log.lines() =~= seq![welcome@]);
        State { ecs, map, log, player, player_pos, run_state: RunState::PreRun }
    }

    /// Runs the systems once, in their order.  `paths` holds the outcomes
    /// of the searches that [`MonsterAI::queries`] wants once the
    /// visibility pass has run.
    pub fn run_systems(&mut self, paths: &Vec<NavigationPath>)
        ensures
            old(self)@.systems_ran(final(self)@, paths@),
            final(self).run_state == old(self).run_state,
            old(self).ecs.succeeded_by(&final(self).ecs),
    {
        let ghost a = self@;
        let mut visibility_system = VisibilitySystem {  };
        visibility_system.run(&mut self.ecs, &mut self.map);
        let ghost seen = self.ecs.slots();
        let mut monster_ai = MonsterAI {  };
        monster_ai.run(&mut self.ecs, &self.map, self.player_pos, paths);
        let ghost chased = self.ecs.slots();
        let mut map_indexing_system = MapIndexingSystem {  };
        map_indexing_system.run(&self.ecs, &mut self.map);
        let mut melee_combat_system = MeleeCombatSystem {  };
        melee_combat_system.run(&mut self.ecs, &mut self.log);
        let ghost s1 = self.ecs.slots();
        let mut damage_system = DamageSystem {  };
        damage_system.run(&mut self.ecs);
        assert(self.ecs.slots() =~= after_damage(s1));
        let mut item_collection_system = ItemCollectionSystem {  };
        item_collection_system.run(&mut self.ecs, &mut self.log, self.player);
        let mut item_use_system = ItemUseSystem {  };
        item_use_system.run(&mut self.ecs, &self.map, &mut self.log, self.player);
        let mut item_drop_items = ItemDropSystem {  };
        item_drop_items.run(&mut self.ecs, &mut self.log, self.player);
        proof {
            let v2 = self.map@;
            assert(self.log.lines() =~= resolved_lines(chased, v2, a.player) + a.lines);
            assert(a.ran_through(self@, paths@, seen, chased));
        }
    }

    /// Gives the player the wish `wish` to use an item.
    fn wish_use(&mut self, wish: WantsToUseItem)
        ensures
            final(self)@ == (StateView {
                slots: wishing_use(old(self)@.slots, old(self).player, wish),
                ..old(self)@
            }),
            old(self).ecs.same_entities(&final(self).ecs),
    {
        if self.ecs.is_alive(self.player) {
            self.ecs.slots[self.player.index].components.wants_to_use = Some(wish);
        }
        assert(self@.slots =~= wishing_use(old(self)@.slots, old(self).player, wish));
    }

    /// Gives the player the wish to put `item` down.
    fn wish_drop(&mut self, item: Entity)
        ensures
            final(self)@ == (StateView {
                slots: wishing_drop(old(self)@.slots, old(self).player, item),
                ..old(self)@
            }),
            old(self).ecs.same_entities(&final(self).ecs),
    {
        if self.ecs.is_alive(self.player) {
            self.ecs.slots[self.player.index].components.wants_to_drop = Some(
                WantsToDropItem { item },
            );
        }
        assert(self@.slots =~= wishing_drop(old(self)@.slots, old(self).player, item));
    }

    /// Takes the game one tick further: the machine decides on `input` and
    /// `paths` what happens in the state the game stands in, and the death
    /// sweep follows.  The outcome says whether the front end has to save
    /// and quit.
    pub fn tick(&mut self, input: &Input, paths: &Vec<NavigationPath>) -> (outcome: TickOutcome)
        ensures
            exists|next: StateView|
                #[trigger] old(self)@.decided(*input, paths@, next) && final(self)@ == next.swept(),
            outcome == if old(self)@.quits(*input) {
                TickOutcome::SaveAndQuit
            } else {
                TickOutcome::Continue
            },
            old(self).ecs.succeeded_by(&final(self).ecs),
    {
        let ghost a = self@;
        let runstate = self.run_state;
        let mut outcome = TickOutcome::Continue;
        let newrunstate = match runstate {
            RunState::PreRun => {
                self.run_systems(paths);
                RunState::AwaitingInput
            },
            RunState::AwaitingInput => player_input(self, input.key),
            RunState::PlayerTurn => {
                self.run_systems(paths);
                RunState::MonsterTurn
            },
            RunState::MonsterTurn => {
                self.run_systems(paths);
                RunState::AwaitingInput
            },
            RunState::ShowInventory => {
                let (result, entity) = draw_show_inventory_item_menu(
                    &self.ecs,
                    self.player,
                    input.key,
                );
                match (result, entity) {
                    (ItemMenuResult::Cancel, _) => RunState::AwaitingInput,
                    (ItemMenuResult::NoResponse, _) => RunState::ShowInventory,
                    (ItemMenuResult::Selected, Some(item)) => {
                        let is_item_ranged = match self.ecs.get(item) {
                            Some(c) => c.ranged,
                            None => None,
                        };
                        match is_item_ranged {
                            Some(is_item_ranged) => RunState::ShowTargeting {
                                range: is_item_ranged.range,
                                item,
                            },
                            None => {
                                self.wish_use(WantsToUseItem { item, target: None });
                                RunState::PlayerTurn
                            },
                        }
                    },
                    (ItemMenuResult::Selected, None) => RunState::ShowInventory,
                }
            },
            RunState::ShowDropItem => {
                let (result, entity) = draw_drop_item_menu(&self.ecs, self.player, input.key);
                match (result, entity) {
                    (ItemMenuResult::Cancel, _) => RunState::AwaitingInput,
                    (ItemMenuResult::NoResponse, _) => RunState::ShowDropItem,
                    (ItemMenuResult::Selected, Some(item)) => {
                        self.wish_drop(item);
                        RunState::PlayerTurn
                    },
                    (ItemMenuResult::Selected, None) => RunState::ShowDropItem,
                }
            },
            RunState::ShowTargeting { range, item } => {
                let (result, target) = ranged_targeting(
                    &self.ecs,
                    self.player,
                    self.player_pos,
                    range,
                    input.mouse,
                    input.left_click,
                );
                match result {
                    ItemMenuResult::Cancel => RunState::AwaitingInput,
                    ItemMenuResult::NoResponse => RunState::ShowTargeting { range, item },
                    ItemMenuResult::Selected => {
                        self.wish_use(WantsToUseItem { item, target });
                        RunState::PlayerTurn
                    },
                }
            },
            RunState::MainMenu { menu_selection: selection } => {
                let result = main_menu(selection, input.key);
                match result {
                    MainMenuResult::NoSelection { selected } => RunState::MainMenu {
                        menu_selection: selected,
                    },
                    MainMenuResult::Selected { selected } => match selected {
                        MainMenuSelection::NewGame => RunState::PreRun,
                        MainMenuSelection::LoadGame => RunState::PreRun,
                        MainMenuSelection::Quit => {
                            outcome = TickOutcome::SaveAndQuit;
                            RunState::MainMenu { menu_selection: selection }
                        },
                    },
                }
            },
        };
        self.run_state = newrunstate;
        let ghost next = self@;
        proof {
            match a.run_state {
                RunState::PreRun | RunState::PlayerTurn | RunState::MonsterTurn => {
                    let b = StateView { run_state: a.run_state, ..next };
                    let (seen, chased) = choose|seen: Seq<Slot>, chased: Seq<Slot>|
                        #[trigger] a.ran_through(b, paths@, seen, chased);
                    assert(a.ran_through(next, paths@, seen, chased));
                },
                _ => {},
            }
            assert(a.decided(*input, paths@, next));
        }
        remove_the_dead(&mut self.ecs, &mut self.log);
        assert(self@ == next.swept());
        outcome
    }
}

} // verus!
