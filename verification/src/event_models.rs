//! The records that one line of a combat log is parsed into.
use vstd::prelude::*;

verus! {

/// The ability named in a log line.
#[derive(Debug, Clone)]
pub struct Action {
    pub name: String,
    pub action_id: i64,
}

/// Mathematical model of an [`Action`].
pub struct ActionView {
    pub name: Seq<char>,
    pub action_id: i64,
}

impl View for Action {
    type V = ActionView;

    open spec fn view(&self) -> ActionView {
        ActionView { name: self.name@, action_id: self.action_id }
    }
}

impl Default for Action {
    fn default() -> (r: Self)
        ensures
            r@ == empty_action(),
    {
        Action { name: String::new(), action_id: 0 }
    }
}

/// The action of a line whose action segment is empty.
pub open spec fn empty_action() -> ActionView {
    ActionView { name: Seq::empty(), action_id: 0 }
}

/// What kind of entity a log segment names.
#[derive(Debug, Clone, Copy, PartialEq, Eq, Structural)]
pub enum EntityType {
    Player,
    Npc,
    Companion,
    Empty,
    SelfReference,
}

impl Default for EntityType {
    fn default() -> (r: Self)
        ensures
            r == EntityType::Empty,
    {
        EntityType::Empty
    }
}

/// The time of day at which a log line was written.
#[derive(Debug, Clone, Copy, PartialEq, Eq, Structural)]
pub struct Timestamp {
    pub hour: u8,
    pub minute: u8,
    pub second: u8,
    pub millis: u16,
}

impl Default for Timestamp {
    fn default() -> (r: Self)
        ensures
            r == (Timestamp { hour: 0, minute: 0, second: 0, millis: 0 }),
    {
        Timestamp { hour: 0, minute: 0, second: 0, millis: 0 }
    }
}

impl Timestamp {
    /// Milliseconds since midnight.
    pub open spec fn millis_of_day(self) -> int {
        ((self.hour as int * 60 + self.minute as int) * 60 + self.second as int) * 1000
            + self.millis as int
    }
}

/// A source or target entity of a log line.
#[derive(Debug)]
pub struct Entity {
    pub name: String,
    pub class_id: i64,
    pub log_id: i64,
    pub entity_type: EntityType,
    pub health: (i32, i32),
}

/// Mathematical model of an [`Entity`].
pub struct EntityView {
    pub name: Seq<char>,
    pub class_id: i64,
    pub log_id: i64,
    pub entity_type: EntityType,
    pub health: (i32, i32),
}

impl View for Entity {
    type V = EntityView;

    open spec fn view(&self) -> EntityView {
        EntityView {
            name: self.name@,
            class_id: self.class_id,
            log_id: self.log_id,
            entity_type: self.entity_type,
            health: self.health,
        }
    }
}

/// The entity of an empty segment, of the given type.
pub open spec fn blank_entity(entity_type: EntityType) -> EntityView {
    EntityView {
        name: Seq::empty(),
        class_id: 0,
        log_id: 0,
        entity_type,
        health: (0, 0),
    }
}

impl Entity {
    /// An entity with no name, no ids and no health, of the given type.
    pub fn blank(entity_type: EntityType) -> (r: Self)
        ensures
            r@ == blank_entity(entity_type),
    {
        Entity { name: String::new(), class_id: 0, log_id: 0, entity_type, health: (0, 0) }
    }

    /// A copy of this entity.
    pub fn duplicate(&self) -> (r: Self)
        ensures
            r@ == self@,
    {
        Entity {
            name: self.name.clone(),
            class_id: self.class_id,
            log_id: self.log_id,
            entity_type: self.entity_type,
            health: self.health,
        }
    }
}

impl Clone for Entity {
    fn clone(&self) -> (r: Self)
        ensures
            r@ == self@,
    {
        self.duplicate()
    }
}

impl Default for Entity {
    fn default() -> (r: Self)
        ensures
            r@ == blank_entity(EntityType::Empty),
    {
        Entity::blank(EntityType::Empty)
    }
}

/// The effect segment of a log line.
#[derive(Debug, Clone)]
pub enum Effect {
    Empty,
    Standard { effect_type_name: String, type_id: i64, name: String, id: i64 },
    DisciplineChanged {
        type_id: i64,
        class_name: String,
        class_id: i64,
        discipline_name: String,
        discipline_id: i64,
    },
    AreaEntered {
        type_id: i64,
        area_name: String,
        area_id: i64,
        difficulty: Option<String>,
        difficulty_id: Option<i64>,
    },
}

/// Mathematical model of an [`Effect`].
pub enum EffectView {
    Empty,
    Standard { effect_type_name: Seq<char>, type_id: i64, name: Seq<char>, id: i64 },
    DisciplineChanged {
        type_id: i64,
        class_name: Seq<char>,
        class_id: i64,
        discipline_name: Seq<char>,
        discipline_id: i64,
    },
    AreaEntered {
        type_id: i64,
        area_name: Seq<char>,
        area_id: i64,
        difficulty: Option<Seq<char>>,
        difficulty_id: Option<i64>,
    },
}

/// An optional string read as optional characters.
pub open spec fn opt_chars(o: Option<String>) -> Option<Seq<char>> {
    match o {
        Some(s) => Some(s@),
        None => None,
    }
}

impl View for Effect {
    type V = EffectView;

    open spec fn view(&self) -> EffectView {
        match self {
            Effect::Empty => EffectView::Empty,
            Effect::Standard { effect_type_name, type_id, name, id } => EffectView::Standard {
                effect_type_name: effect_type_name@,
                type_id: *type_id,
                name: name@,
                id: *id,
            },
            Effect::DisciplineChanged {
                type_id,
                class_name,
                class_id,
                discipline_name,
                discipline_id,
            } => EffectView::DisciplineChanged {
                type_id: *type_id,
                class_name: class_name@,
                class_id: *class_id,
                discipline_name: discipline_name@,
                discipline_id: *discipline_id,
            },
            Effect::AreaEntered { type_id, area_name, area_id, difficulty, difficulty_id } =>
                EffectView::AreaEntered {
                type_id: *type_id,
                area_name: area_name@,
                area_id: *area_id,
                difficulty: opt_chars(*difficulty),
                difficulty_id: *difficulty_id,
            },
        }
    }
}

impl Default for Effect {
    fn default() -> (r: Self)
        ensures
            r@ == EffectView::Empty,
    {
        Effect::Empty
    }
}

/// One parsed line of a combat log.
///
/// The parser fills the line number, time, entities, action and effect; the
/// remaining fields stay `None`.
#[derive(Debug, Clone)]
pub struct CombatEvent {
    pub line_number: usize,
    pub timestamp: Timestamp,
    pub source_entity: Entity,
    pub target_entity: Entity,
    pub action: Action,
    pub effect: Effect,
    pub charges: Option<i64>,
    pub damage: Option<i64>,
    pub effective_damage: Option<i64>,
    pub damage_type_id: Option<String>,
    pub is_critical: Option<bool>,
    pub is_reflected: Option<bool>,
    pub reduction_class_id: Option<String>,
    pub damage_reduced: Option<String>,
    pub reduction_type_id: Option<String>,
    pub heal: Option<i64>,
    pub effective_heal: Option<i64>,
}

/// Mathematical model of a [`CombatEvent`].
pub struct CombatEventView {
    pub line_number: usize,
    pub timestamp: Timestamp,
    pub source_entity: EntityView,
    pub target_entity: EntityView,
    pub action: ActionView,
    pub effect: EffectView,
    pub charges: Option<i64>,
    pub damage: Option<i64>,
    pub effective_damage: Option<i64>,
    pub damage_type_id: Option<Seq<char>>,
    pub is_critical: Option<bool>,
    pub is_reflected: Option<bool>,
    pub reduction_class_id: Option<Seq<char>>,
    pub damage_reduced: Option<Seq<char>>,
    pub reduction_type_id: Option<Seq<char>>,
    pub heal: Option<i64>,
    pub effective_heal: Option<i64>,
}

impl View for CombatEvent {
    type V = CombatEventView;

    open spec fn view(&self) -> CombatEventView {
        CombatEventView {
            line_number: self.line_number,
            timestamp: self.timestamp,
            source_entity: self.source_entity@,
            target_entity: self.target_entity@,
            action: self.action@,
            effect: self.effect@,
            charges: self.charges,
            damage: self.damage,
            effective_damage: self.effective_damage,
            damage_type_id: opt_chars(self.damage_type_id),
            is_critical: self.is_critical,
            is_reflected: self.is_reflected,
            reduction_class_id: opt_chars(self.reduction_class_id),
            damage_reduced: opt_chars(self.damage_reduced),
            reduction_type_id: opt_chars(self.reduction_type_id),
            heal: self.heal,
            effective_heal: self.effective_heal,
        }
    }
}

/// The event that the parser builds from its five segments; every other
/// field is `None`.
pub open spec fn parsed_event(
    line_number: usize,
    timestamp: Timestamp,
    source_entity: EntityView,
    target_entity: EntityView,
    action: ActionView,
    effect: EffectView,
) -> CombatEventView {
    CombatEventView {
        line_number,
        timestamp,
        source_entity,
        target_entity,
        action,
        effect,
        charges: None,
        damage: None,
        effective_damage: None,
        damage_type_id: None,
        is_critical: None,
        is_reflected: None,
        reduction_class_id: None,
        damage_reduced: None,
        reduction_type_id: None,
        heal: None,
        effective_heal: None,
    }
}


impl Default for CombatEvent {
    fn default() -> (r: Self)
        ensures
            r@ == parsed_event(
                0,
                Timestamp { hour: 0, minute: 0, second: 0, millis: 0 },
                blank_entity(EntityType::Empty),
                blank_entity(EntityType::Empty),
                empty_action(),
                EffectView::Empty,
            ),
    {
        CombatEvent {
            line_number: 0,
            timestamp: Timestamp::default(),
            source_entity: Entity::default(),
            target_entity: Entity::default(),
            action: Action::default(),
            effect: Effect::default(),
            charges: None,
            damage: None,
            effective_damage: None,
            damage_type_id: None,
            is_critical: None,
            is_reflected: None,
            reduction_class_id: None,
            damage_reduced: None,
            reduction_type_id: None,
            heal: None,
            effective_heal: None,
        }
    }
}

} // verus!
