use crate::color::Color;
use crate::message::{Message, Topic};
use crate::oid::Oid;
use crate::tag;
use crate::tag::{
    Behavior, Disposition, Durability, Tag, Terrain, Tid, ARMOR_ID, BACKGROUND_ID, BEHAVIOR_ID,
    CAN_OPEN_DOOR_ID, CHARACTER_ID, DAMAGE_ID, DELAY_ID, DISPOSITION_ID, DURABILITY_ID,
    EQUIPPED_ID, INVENTORY_ID, MITIGATION_ID, NAME_ID, PLAYER_ID, PORTABLE_ID, SCHEDULED_ID,
    TERRAIN_ID, WEAPON_ID,
};
use vstd::prelude::*;

verus! {

#[derive(Clone, Copy, Debug, PartialEq, Eq, Structural)]
pub enum Symbol {
    Armor,
    ClosedDoor,
    DeepLiquid,
    Dirt,
    Npc(char),
    OpenDoor,
    PickAxe,
    Player,
    Rubble,
    ShallowLiquid,
    Sign,
    StrongSword,
    Tree,
    Unseen,
    Wall,
    WeakSword,
}

#[derive(Clone, Copy, Debug, PartialEq, Eq, Structural)]
pub enum ObjectName {
    // Armor
    LeatherChest,
    LeatherGloves,
    LeatherHat,
    LeatherLegs,
    LeatherSandals,
    // Misc Items
    GreaterArmorySign,
    LesserArmorySign,
    PickAxe,
    // NPCs
    BerokeSoftVoice,
    Doorman,
    Guard,
    HaladRackBearer,
    Icarium,
    ImrothTheCruel,
    KahlbTheSilentHunter,
    Player,
    Rhulad,
    SiballeTheUnfound,
    Spectator,
    ThenikTheShattered,
    UrugalTheWoven,
    // Terrain
    ClosedDoor,
    DeepWater,
    Dirt,
    MetalWall,
    OpenDoor,
    Rubble,
    ShallowWater,
    StoneWall,
    Tree,
    Vitr,
    // Weapons
    Dagger,
    Broadsword,
    EmperorSword,
    LongKnife,
    LongSword,
    MightySword,
}

// ---- tag lists -------------------------------------------------------------------------

/// Index of the first tag at or after `from` whose id is `id`, or -1 if there is none.
pub open spec fn find_id(tags: Seq<Tag>, id: u16, from: int) -> int
    decreases tags.len() - from,
{
    if from < 0 || from >= tags.len() {
        -1
    } else if tag::tag_id(tags[from]) == id {
        from
    } else {
        find_id(tags, id, from + 1)
    }
}

/// Some tag has the id.
pub open spec fn has_id(tags: Seq<Tag>, id: u16) -> bool {
    find_id(tags, id, 0) >= 0
}

/// The first tag with the id.
pub open spec fn tag_value(tags: Seq<Tag>, id: u16) -> Option<Tag> {
    let i = find_id(tags, id, 0);
    if i >= 0 {
        Some(tags[i])
    } else {
        None
    }
}

/// No two tags share an id.
pub open spec fn ids_unique(tags: Seq<Tag>) -> bool {
    forall|i: int, j: int|
        0 <= i < tags.len() && 0 <= j < tags.len() && i != j ==> tag::tag_id(tags[i]) != tag::tag_id(
            tags[j],
        )
}

/// No tag at or after `from` shares its id with a later one; `ids_unique` for lists
/// written out in full.
pub open spec fn unique_from(tags: Seq<Tag>, from: int) -> bool
    decreases tags.len() - from,
{
    if from < 0 || from >= tags.len() {
        true
    } else {
        find_id(tags, tag::tag_id(tags[from]), from + 1) < 0 && unique_from(tags, from + 1)
    }
}

/// What `find_id` computes.
pub proof fn lemma_find_id(tags: Seq<Tag>, id: u16, from: int)
    requires
        0 <= from,
    ensures
        find_id(tags, id, from) < 0 ==> forall|i: int|
            from <= i < tags.len() ==> tag::tag_id(#[trigger] tags[i]) != id,
        find_id(tags, id, from) >= 0 ==> {
            let r = find_id(tags, id, from);
            &&& from <= r < tags.len()
            &&& tag::tag_id(tags[r]) == id
            &&& forall|i: int| from <= i < r ==> tag::tag_id(#[trigger] tags[i]) != id
        },
    decreases tags.len() - from,
{
    if from < tags.len() && tag::tag_id(tags[from]) != id {
        lemma_find_id(tags, id, from + 1);
    }
}

pub proof fn lemma_unique_from(tags: Seq<Tag>, from: int)
    requires
        0 <= from,
        unique_from(tags, from),
    ensures
        forall|i: int, j: int|
            from <= i < tags.len() && from <= j < tags.len() && i != j ==> tag::tag_id(
                #[trigger] tags[i],
            ) != tag::tag_id(#[trigger] tags[j]),
    decreases tags.len() - from,
{
    if from < tags.len() {
        lemma_unique_from(tags, from + 1);
        lemma_find_id(tags, tag::tag_id(tags[from]), from + 1);
    }
}

/// Checking unique ids one tag at a time establishes `ids_unique`.
pub proof fn lemma_ids_unique(tags: Seq<Tag>)
    requires
        unique_from(tags, 0),
    ensures
        ids_unique(tags),
{
    lemma_unique_from(tags, 0);
    assert forall|i: int, j: int|
        0 <= i < tags.len() && 0 <= j < tags.len() && i != j implies tag::tag_id(tags[i]) != tag::tag_id(
            tags[j],
        ) by {}
}

// ---- values of tags --------------------------------------------------------------------

pub open spec fn terrain_of(tags: Seq<Tag>) -> Option<Terrain> {
    match tag_value(tags, TERRAIN_ID) {
        Some(Tag::Terrain(t)) => Some(t),
        _ => None,
    }
}

pub open spec fn background_of(tags: Seq<Tag>) -> Option<Color> {
    match tag_value(tags, BACKGROUND_ID) {
        Some(Tag::Background(c)) => Some(c),
        _ => None,
    }
}

pub open spec fn durability_of(tags: Seq<Tag>) -> Option<Durability> {
    match tag_value(tags, DURABILITY_ID) {
        Some(Tag::Durability(d)) => Some(d),
        _ => None,
    }
}

pub open spec fn disposition_of(tags: Seq<Tag>) -> Option<Disposition> {
    match tag_value(tags, DISPOSITION_ID) {
        Some(Tag::Disposition(d)) => Some(d),
        _ => None,
    }
}

pub open spec fn behavior_of(tags: Seq<Tag>) -> Option<Behavior> {
    match tag_value(tags, BEHAVIOR_ID) {
        Some(Tag::Behavior(b)) => Some(b),
        _ => None,
    }
}

pub open spec fn inventory_of(tags: Seq<Tag>) -> Option<Seq<Oid>> {
    match tag_value(tags, INVENTORY_ID) {
        Some(Tag::Inventory(v)) => Some(v@),
        _ => None,
    }
}

pub open spec fn equipped_of(tags: Seq<Tag>) -> Option<Seq<Option<Oid>>> {
    match tag_value(tags, EQUIPPED_ID) {
        Some(Tag::Equipped(v)) => Some(v@),
        _ => None,
    }
}

// ---- Object ----------------------------------------------------------------------------

/// Objects are a very general concept: they contain state that may be combined
/// in arbitrary ways (e.g. in theory a cobra could be both a Character and a
/// wieldable Weapon). But note that it's the actions that encapsulate behavior.
pub struct Object {
    /// Used for logging, error reporting, etc.
    name: ObjectName,
    tags: Vec<Tag>,
    symbol: Symbol,
    color: Color,
    description: &'static str,
}

impl Object {
    pub closed spec fn spec_name(&self) -> ObjectName {
        self.name
    }

    pub closed spec fn spec_tags(&self) -> Seq<Tag> {
        self.tags@
    }

    pub closed spec fn spec_symbol(&self) -> Symbol {
        self.symbol
    }

    pub closed spec fn spec_color(&self) -> Color {
        self.color
    }

    pub closed spec fn spec_description(&self) -> Seq<char> {
        self.description@
    }

    /// The object has a tag with the id.
    pub open spec fn spec_has(&self, id: u16) -> bool {
        has_id(self.spec_tags(), id)
    }

    pub fn new(
        name: ObjectName,
        description: &'static str,
        symbol: Symbol,
        color: Color,
        tags: Vec<Tag>,
    ) -> (obj: Object)
        ensures
            obj.spec_name() == name,
            obj.spec_description() == description@,
            obj.spec_symbol() == symbol,
            obj.spec_color() == color,
            obj.spec_tags() == tags@,
    {
        Object { name, tags, symbol, color, description }
    }

    pub fn description(&self) -> (d: &'static str)
        ensures
            d@ == self.spec_description(),
    {
        self.description
    }

    pub fn iter(&self) -> (it: std::slice::Iter<'_, Tag>)
        ensures
            vstd::std_specs::iter::IteratorSpec::remaining(&it).unref() == self.spec_tags(),
    {
        broadcast use vstd::std_specs::slice::axiom_spec_slice_iter;

        self.tags.iter()
    }

    /// Index of the first tag with the id.
    fn find(&self, id: u16) -> (r: Option<usize>)
        ensures
            match r {
                Some(i) => i == find_id(self.tags@, id, 0) && i < self.tags.len(),
                None => find_id(self.tags@, id, 0) < 0,
            },
    {
        proof {
            lemma_find_id(self.tags@, id, 0);
        }
        let mut i: usize = 0;
        while i < self.tags.len()
            invariant
                i <= self.tags.len(),
                find_id(self.tags@, id, 0) == find_id(self.tags@, id, i as int),
            decreases self.tags.len() - i,
        {
            if self.tags[i].to_id().0 == id {
                return Some(i);
            }
            i += 1;
        }
        None
    }

    /// Replaces the tag with the same id as `tag` (there must be one); the object must
    /// still follow the object rules afterwards.
    pub fn replace(&mut self, tag: Tag)
        requires
            has_id(old(self).spec_tags(), tag::tag_id(tag)),
            old(self).spec_description().len() > 0,
            tags_wf(old(self).spec_tags().update(find_id(old(self).spec_tags(), tag::tag_id(tag), 0), tag)),
        ensures
            final(self).wf(),
            final(self).spec_tags() == old(self).spec_tags().update(
                find_id(old(self).spec_tags(), tag::tag_id(tag), 0),
                tag,
            ),
            final(self).spec_name() == old(self).spec_name(),
            final(self).spec_description() == old(self).spec_description(),
            final(self).spec_symbol() == old(self).spec_symbol(),
            final(self).spec_color() == old(self).spec_color(),
    {
        let id = tag.to_id();
        let index = self.find(id.0).unwrap();
        self.tags.set(index, tag);
    }

    pub fn has(&self, tid: Tid) -> (r: bool)
        ensures
            r == self.spec_has(tid.0),
    {
        self.find(tid.0).is_some()
    }

    pub fn terrain_value(&self) -> (r: Option<Terrain>)
        ensures
            r == terrain_of(self.spec_tags()),
    {
        match self.find(TERRAIN_ID) {
            Some(i) => match self.tags[i] {
                Tag::Terrain(t) => Some(t),
                _ => None,
            },
            None => None,
        }
    }

    pub fn background_value(&self) -> (r: Option<Color>)
        ensures
            r == background_of(self.spec_tags()),
    {
        match self.find(BACKGROUND_ID) {
            Some(i) => match self.tags[i] {
                Tag::Background(c) => Some(c),
                _ => None,
            },
            None => None,
        }
    }

    pub fn durability_value(&self) -> (r: Option<Durability>)
        ensures
            r == durability_of(self.spec_tags()),
    {
        match self.find(DURABILITY_ID) {
            Some(i) => match self.tags[i] {
                Tag::Durability(d) => Some(d),
                _ => None,
            },
            None => None,
        }
    }

    pub fn disposition_value(&self) -> (r: Option<Disposition>)
        ensures
            r == disposition_of(self.spec_tags()),
    {
        match self.find(DISPOSITION_ID) {
            Some(i) => match self.tags[i] {
                Tag::Disposition(d) => Some(d),
                _ => None,
            },
            None => None,
        }
    }

    pub fn behavior_value(&self) -> (r: Option<Behavior>)
        ensures
            r == behavior_of(self.spec_tags()),
    {
        match self.find(BEHAVIOR_ID) {
            Some(i) => match self.tags[i] {
                Tag::Behavior(b) => Some(b),
                _ => None,
            },
            None => None,
        }
    }

    pub fn inventory_value(&self) -> (r: Option<&Vec<Oid>>)
        ensures
            match r {
                Some(v) => inventory_of(self.spec_tags()) == Some(v@),
                None => inventory_of(self.spec_tags()) is None,
            },
    {
        match self.find(INVENTORY_ID) {
            Some(i) => match &self.tags[i] {
                Tag::Inventory(v) => Some(v),
                _ => None,
            },
            None => None,
        }
    }

    pub fn equipped_value(&self) -> (r: Option<&Vec<Option<Oid>>>)
        ensures
            match r {
                Some(v) => equipped_of(self.spec_tags()) == Some(v@),
                None => equipped_of(self.spec_tags()) is None,
            },
    {
        match self.find(EQUIPPED_ID) {
            Some(i) => match &self.tags[i] {
                Tag::Equipped(v) => Some(v),
                _ => None,
            },
            None => None,
        }
    }

    pub fn blocks_los(&self) -> (r: bool)
        ensures
            r == match terrain_of(self.spec_tags()) {
                Some(Terrain::ClosedDoor) | Some(Terrain::Tree) | Some(Terrain::Wall) => true,
                _ => false,
            },
    {
        let terrain = match self.terrain_value() {
            Some(t) => t,
            None => Terrain::ShallowWater,
        };
        match terrain {
            Terrain::ClosedDoor => true,
            Terrain::DeepWater => false,
            Terrain::Ground => false,
            Terrain::OpenDoor => false,
            Terrain::Rubble => false,
            Terrain::ShallowWater => false,
            Terrain::Tree => true,
            Terrain::Vitr => false,
            Terrain::Wall => true,
        }
    }

    pub fn to_bg_color(&self) -> (c: Color)
        requires
            background_of(self.spec_tags()) is Some,
        ensures
            background_of(self.spec_tags()) == Some(c),
    {
        self.background_value().unwrap()
    }

    pub fn to_fg_symbol(&self) -> (r: (Color, Symbol))
        ensures
            r == (self.spec_color(), self.spec_symbol()),
    {
        (self.color, self.symbol)
    }

    /// Why `obj`, a terrain object, can't be moved into (None if it can be). Note that
    /// the door check is made against the terrain object itself.
    pub fn impassible_terrain(&self, obj: &Object) -> (r: Option<Message>)
        requires
            terrain_of(obj.spec_tags()) is Some,
        ensures
            impassible_text(obj.spec_has(CAN_OPEN_DOOR_ID), terrain_of(obj.spec_tags())->0) is None
                ==> r is None,
            impassible_text(obj.spec_has(CAN_OPEN_DOOR_ID), terrain_of(obj.spec_tags())->0) is Some
                ==> r is Some && r->0.topic == Topic::Failed && r->0.text@ == impassible_text(
                obj.spec_has(CAN_OPEN_DOOR_ID),
                terrain_of(obj.spec_tags())->0,
            )->0,
            terrain_of(obj.spec_tags()) == Some(Terrain::Tree) ==> (r is Some && r->0.topic
                == Topic::Failed && r->0.text@ == "The tree's are too thick to travel through."@),
            terrain_of(obj.spec_tags()) == Some(Terrain::Wall) ==> (r is Some && r->0.topic
                == Topic::Failed && r->0.text@ == "You bump into the wall."@),
            terrain_of(obj.spec_tags()) == Some(Terrain::Vitr) ==> (r is Some && r->0.topic
                == Topic::Failed && r->0.text@ == "Do you have a death wish?"@),
            terrain_of(obj.spec_tags()) == Some(Terrain::DeepWater) ==> (r is Some && r->0.topic
                == Topic::Failed && r->0.text@ == "The water is too deep."@),
    {
        let terrain = obj.terrain_value().unwrap();
        obj.impassible_terrain_type(terrain)
    }

    /// Why the object can't move into `terrain` (None if it can).
    pub fn impassible_terrain_type(&self, terrain: Terrain) -> (r: Option<Message>)
        ensures
            impassible_text(self.spec_has(CAN_OPEN_DOOR_ID), terrain) is None ==> r is None,
            impassible_text(self.spec_has(CAN_OPEN_DOOR_ID), terrain) is Some ==> r is Some
                && r->0.topic == Topic::Failed && r->0.text@ == impassible_text(
                self.spec_has(CAN_OPEN_DOOR_ID),
                terrain,
            )->0,
            terrain == Terrain::Tree ==> (r is Some && r->0.topic == Topic::Failed && r->0.text@
                == "The tree's are too thick to travel through."@),
            terrain == Terrain::Wall ==> (r is Some && r->0.topic == Topic::Failed && r->0.text@
                == "You bump into the wall."@),
            terrain == Terrain::Vitr ==> (r is Some && r->0.topic == Topic::Failed && r->0.text@
                == "Do you have a death wish?"@),
            terrain == Terrain::DeepWater ==> (r is Some && r->0.topic == Topic::Failed
                && r->0.text@ == "The water is too deep."@),
            terrain == Terrain::ClosedDoor ==> (r is None <==> self.spec_has(CAN_OPEN_DOOR_ID)),
            terrain == Terrain::ClosedDoor && r is Some ==> r->0.topic == Topic::Failed
                && r->0.text@ == "You fail to open the door."@,
            terrain == Terrain::Ground || terrain == Terrain::OpenDoor || terrain == Terrain::Rubble
                || terrain == Terrain::ShallowWater ==> r is None,
    {
        match terrain {
            Terrain::ClosedDoor => {
                if !self.has(Tid(CAN_OPEN_DOOR_ID)) {
                    Some(Message::new(Topic::Failed, "You fail to open the door."))
                } else {
                    None
                }
            },
            Terrain::DeepWater => Some(Message::new(Topic::Failed, "The water is too deep.")),
            Terrain::Ground => None,
            Terrain::OpenDoor => None,
            Terrain::Rubble => None,
            Terrain::ShallowWater => None,
            Terrain::Tree => Some(
                Message::new(Topic::Failed, "The tree's are too thick to travel through."),
            ),
            Terrain::Vitr => Some(Message::new(Topic::Failed, "Do you have a death wish?")),
            Terrain::Wall => Some(Message::new(Topic::Failed, "You bump into the wall.")),
        }
    }
}

/// Which terrains a character can move into: walls, trees, vitr and deep water stop
/// everything, whatever it can do; ground, open doors, rubble and shallow water stop
/// nothing; a closed door stops exactly what can't open doors. Each refusal says why.
pub proof fn law_passable_terrain(can_open_door: bool, other: bool, t: Terrain)
    ensures
        t == Terrain::Tree ==> impassible_text(can_open_door, t)
            == Some("The tree's are too thick to travel through."@),
        t == Terrain::Wall ==> impassible_text(can_open_door, t) == Some("You bump into the wall."@),
        t == Terrain::Vitr ==> impassible_text(can_open_door, t) == Some("Do you have a death wish?"@),
        t == Terrain::DeepWater ==> impassible_text(can_open_door, t) == Some("The water is too deep."@),
        t == Terrain::Ground || t == Terrain::OpenDoor || t == Terrain::Rubble || t
            == Terrain::ShallowWater ==> impassible_text(can_open_door, t) is None,
        t == Terrain::ClosedDoor ==> (impassible_text(can_open_door, t) is None <==> can_open_door),
        t != Terrain::ClosedDoor ==> impassible_text(can_open_door, t) == impassible_text(other, t),
{
}

/// The text of the message saying why something that can (or can't) open doors can't
/// move into the terrain, or None if it can.
pub open spec fn impassible_text(can_open_door: bool, terrain: Terrain) -> Option<Seq<char>> {
    match terrain {
        Terrain::ClosedDoor => if can_open_door {
            None
        } else {
            Some("You fail to open the door."@)
        },
        Terrain::DeepWater => Some("The water is too deep."@),
        Terrain::Tree => Some("The tree's are too thick to travel through."@),
        Terrain::Vitr => Some("Do you have a death wish?"@),
        Terrain::Wall => Some("You bump into the wall."@),
        _ => None,
    }
}

// ---- object rules ----------------------------------------------------------------------

/// Equipped objects are not also in the inventory and no object is equipped twice.
pub open spec fn equipped_ok(equipped: Seq<Option<Oid>>, inventory: Seq<Oid>) -> bool {
    &&& forall|i: int|
        0 <= i < equipped.len() && (#[trigger] equipped[i]) is Some ==> !inventory.contains(
            equipped[i]->0,
        )
    &&& forall|i: int, j: int|
        0 <= i < equipped.len() && 0 <= j < equipped.len() && i != j && (#[trigger] equipped[i]) is Some
            && (#[trigger] equipped[j]) is Some ==> equipped[i] != equipped[j]
}

/// The rules that every object follows.
pub open spec fn tags_wf(tags: Seq<Tag>) -> bool {
    &&& has_id(tags, TERRAIN_ID) ==> {
        &&& has_id(tags, BACKGROUND_ID)
        &&& !has_id(tags, CHARACTER_ID)
        &&& !has_id(tags, PORTABLE_ID)
        &&& (terrain_of(tags) == Some(Terrain::ClosedDoor) || terrain_of(tags) == Some(
            Terrain::Wall,
        )) ==> match durability_of(tags) {
            Some(d) => d.current > 0,
            None => true,
        }
    }
    &&& has_id(tags, CHARACTER_ID) ==> {
        &&& has_id(tags, NAME_ID)
        &&& !has_id(tags, PORTABLE_ID)
        &&& (disposition_of(tags) == Some(Disposition::Neutral) || disposition_of(tags) == Some(
            Disposition::Aggressive,
        )) ==> has_id(tags, DURABILITY_ID) && has_id(tags, SCHEDULED_ID)
        // so that tags of particular NPCs are found before the generic Character tag
        &&& tags.len() > 0 && tag::tag_id(tags.last()) == CHARACTER_ID
    }
    &&& has_id(tags, PLAYER_ID) ==> has_id(tags, CHARACTER_ID)
    &&& has_id(tags, ARMOR_ID) ==> has_id(tags, PORTABLE_ID) && has_id(tags, MITIGATION_ID)
    &&& has_id(tags, WEAPON_ID) ==> has_id(tags, PORTABLE_ID) && has_id(tags, DAMAGE_ID) && has_id(
        tags,
        DELAY_ID,
    )
    &&& has_id(tags, PORTABLE_ID) ==> has_id(tags, NAME_ID)
    &&& has_id(tags, DAMAGE_ID) ==> has_id(tags, DELAY_ID)
    &&& match inventory_of(tags) {
        Some(inv) => inv.no_duplicates(),
        None => true,
    }
    &&& match equipped_of(tags) {
        Some(eq) => equipped_ok(
            eq,
            match inventory_of(tags) {
                Some(inv) => inv,
                None => Seq::empty(),
            },
        ),
        None => true,
    }
    &&& ids_unique(tags)
}

fn oids_unique(v: &Vec<Oid>) -> (r: bool)
    ensures
        r == v@.no_duplicates(),
{
    let mut i: usize = 0;
    while i < v.len()
        invariant
            i <= v.len(),
            forall|a: int, b: int| 0 <= a < i && 0 <= b < v.len() && a != b ==> v@[a] != v@[b],
        decreases v.len() - i,
    {
        let mut j: usize = 0;
        while j < v.len()
            invariant
                i < v.len(),
                j <= v.len(),
                forall|a: int, b: int| 0 <= a < i && 0 <= b < v.len() && a != b ==> v@[a] != v@[b],
                forall|b: int| 0 <= b < j && b != i ==> v@[i as int] != v@[b],
            decreases v.len() - j,
        {
            if j != i && v[i] == v[j] {
                return false;
            }
            j += 1;
        }
        i += 1;
    }
    true
}

fn contains_oid(v: &Vec<Oid>, oid: Oid) -> (r: bool)
    ensures
        r == v@.contains(oid),
{
    let mut i: usize = 0;
    while i < v.len()
        invariant
            i <= v.len(),
            forall|a: int| 0 <= a < i ==> v@[a] != oid,
        decreases v.len() - i,
    {
        if v[i] == oid {
            return true;
        }
        i += 1;
    }
    false
}

fn check_equipped(eq: &Vec<Option<Oid>>, inv: &Vec<Oid>) -> (r: bool)
    ensures
        r == equipped_ok(eq@, inv@),
{
    let mut i: usize = 0;
    while i < eq.len()
        invariant
            i <= eq.len(),
            forall|a: int| 0 <= a < i && (#[trigger] eq@[a]) is Some ==> !inv@.contains(eq@[a]->0),
            forall|a: int, b: int|
                0 <= a < i && 0 <= b < eq.len() && a != b && (#[trigger] eq@[a]) is Some && (
                #[trigger] eq@[b]) is Some ==> eq@[a] != eq@[b],
        decreases eq.len() - i,
    {
        if let Some(oid) = eq[i] {
            if contains_oid(inv, oid) {
                return false;
            }
            let mut j: usize = 0;
            while j < eq.len()
                invariant
                    i < eq.len(),
                    j <= eq.len(),
                    eq@[i as int] == Some(oid),
                    forall|b: int| 0 <= b < j && b != i && (#[trigger] eq@[b]) is Some ==> eq@[b] != Some(oid),
                decreases eq.len() - j,
            {
                if j != i {
                    if let Some(other) = eq[j] {
                        if other == oid {
                            return false;
                        }
                    }
                }
                j += 1;
            }
        }
        i += 1;
    }
    true
}

impl Object {
    /// The object follows the rules for objects (see `tags_wf`) and has a description.
    pub open spec fn wf(&self) -> bool {
        &&& self.spec_description().len() > 0
        &&& tags_wf(self.spec_tags())
    }

    fn tag_ids_unique(&self) -> (r: bool)
        ensures
            r == ids_unique(self.tags@),
    {
        let mut i: usize = 0;
        while i < self.tags.len()
            invariant
                i <= self.tags.len(),
                forall|a: int, b: int|
                    0 <= a < i && 0 <= b < self.tags.len() && a != b ==> tag::tag_id(self.tags@[a])
                        != tag::tag_id(self.tags@[b]),
            decreases self.tags.len() - i,
        {
            let id = self.tags[i].to_id().0;
            let mut j: usize = 0;
            while j < self.tags.len()
                invariant
                    i < self.tags.len(),
                    j <= self.tags.len(),
                    id == tag::tag_id(self.tags@[i as int]),
                    forall|a: int, b: int|
                        0 <= a < i && 0 <= b < self.tags.len() && a != b ==> tag::tag_id(
                            self.tags@[a],
                        ) != tag::tag_id(self.tags@[b]),
                    forall|b: int| 0 <= b < j && b != i ==> id != tag::tag_id(self.tags@[b]),
                decreases self.tags.len() - j,
            {
                if j != i && self.tags[j].to_id().0 == id {
                    return false;
                }
                j += 1;
            }
            i += 1;
        }
        true
    }

    /// True when the object follows the rules for objects.
    pub fn check_invariant(&self) -> (ok: bool)
        ensures
            ok == self.wf(),
    {
        if self.description.is_empty() {
            return false;
        }
        if self.has(Tid(TERRAIN_ID)) {
            if !self.has(Tid(BACKGROUND_ID)) || self.has(Tid(CHARACTER_ID)) || self.has(
                Tid(PORTABLE_ID),
            ) {
                return false;
            }
            let terrain = self.terrain_value();
            if terrain == Some(Terrain::ClosedDoor) || terrain == Some(Terrain::Wall) {
                if let Some(durability) = self.durability_value() {
                    if durability.current <= 0 {
                        return false;
                    }
                }
            }
        }
        if self.has(Tid(CHARACTER_ID)) {
            if !self.has(Tid(NAME_ID)) || self.has(Tid(PORTABLE_ID)) {
                return false;
            }
            let disp = self.disposition_value();
            if disp == Some(Disposition::Neutral) || disp == Some(Disposition::Aggressive) {
                if !self.has(Tid(DURABILITY_ID)) || !self.has(Tid(SCHEDULED_ID)) {
                    return false;
                }
            }
            if self.tags.len() == 0 || self.tags[self.tags.len() - 1].to_id().0 != CHARACTER_ID {
                return false;
            }
        }
        if self.has(Tid(PLAYER_ID)) && !self.has(Tid(CHARACTER_ID)) {
            return false;
        }
        if self.has(Tid(ARMOR_ID)) && (!self.has(Tid(PORTABLE_ID)) || !self.has(Tid(MITIGATION_ID))) {
            return false;
        }
        if self.has(Tid(WEAPON_ID)) && (!self.has(Tid(PORTABLE_ID)) || !self.has(Tid(DAMAGE_ID))
            || !self.has(Tid(DELAY_ID))) {
            return false;
        }
        if self.has(Tid(PORTABLE_ID)) && !self.has(Tid(NAME_ID)) {
            return false;
        }
        if self.has(Tid(DAMAGE_ID)) && !self.has(Tid(DELAY_ID)) {
            return false;
        }
        let empty: Vec<Oid> = Vec::new();
        let inv = match self.inventory_value() {
            Some(inv) => {
                if !oids_unique(inv) {
                    return false;
                }
                inv
            },
            None => &empty,
        };
        if let Some(eq) = self.equipped_value() {
            if !check_equipped(eq, inv) {
                return false;
            }
        }
        self.tag_ids_unique()
    }
}

/// The name of an object name variant, as `dname` prints it.
pub open spec fn name_text(name: ObjectName) -> Seq<char> {
    match name {
        ObjectName::LeatherChest => "LeatherChest"@,
        ObjectName::LeatherGloves => "LeatherGloves"@,
        ObjectName::LeatherHat => "LeatherHat"@,
        ObjectName::LeatherLegs => "LeatherLegs"@,
        ObjectName::LeatherSandals => "LeatherSandals"@,
        ObjectName::GreaterArmorySign => "GreaterArmorySign"@,
        ObjectName::LesserArmorySign => "LesserArmorySign"@,
        ObjectName::PickAxe => "PickAxe"@,
        ObjectName::BerokeSoftVoice => "BerokeSoftVoice"@,
        ObjectName::Doorman => "Doorman"@,
        ObjectName::Guard => "Guard"@,
        ObjectName::HaladRackBearer => "HaladRackBearer"@,
        ObjectName::Icarium => "Icarium"@,
        ObjectName::ImrothTheCruel => "ImrothTheCruel"@,
        ObjectName::KahlbTheSilentHunter => "KahlbTheSilentHunter"@,
        ObjectName::Player => "Player"@,
        ObjectName::Rhulad => "Rhulad"@,
        ObjectName::SiballeTheUnfound => "SiballeTheUnfound"@,
        ObjectName::Spectator => "Spectator"@,
        ObjectName::ThenikTheShattered => "ThenikTheShattered"@,
        ObjectName::UrugalTheWoven => "UrugalTheWoven"@,
        ObjectName::ClosedDoor => "ClosedDoor"@,
        ObjectName::DeepWater => "DeepWater"@,
        ObjectName::Dirt => "Dirt"@,
        ObjectName::MetalWall => "MetalWall"@,
        ObjectName::OpenDoor => "OpenDoor"@,
        ObjectName::Rubble => "Rubble"@,
        ObjectName::ShallowWater => "ShallowWater"@,
        ObjectName::StoneWall => "StoneWall"@,
        ObjectName::Tree => "Tree"@,
        ObjectName::Vitr => "Vitr"@,
        ObjectName::Dagger => "Dagger"@,
        ObjectName::Broadsword => "Broadsword"@,
        ObjectName::EmperorSword => "EmperorSword"@,
        ObjectName::LongKnife => "LongKnife"@,
        ObjectName::LongSword => "LongSword"@,
        ObjectName::MightySword => "MightySword"@,
    }
}

/// Tags that are the same, position by position, have the same ids.
pub proof fn lemma_same_tags_find(a: Seq<Tag>, b: Seq<Tag>, id: u16, from: int)
    requires
        a.len() == b.len(),
        forall|i: int| 0 <= i < a.len() ==> tag::same_tag(#[trigger] a[i], b[i]),
    ensures
        find_id(a, id, from) == find_id(b, id, from),
    decreases a.len() - from,
{
    if 0 <= from < a.len() {
        assert(tag::same_tag(a[from], b[from]));
        assert(tag::tag_id(a[from]) == tag::tag_id(b[from]));
        lemma_same_tags_find(a, b, id, from + 1);
    }
}

/// Tags with the same ids, position by position, find the same index for every id.
/// The object follows the object rules and can take the id into its inventory: it has
/// one, and neither carries nor wears the id yet.
pub open spec fn can_take(obj: Object, oid: Oid) -> bool {
    &&& obj.wf()
    &&& inventory_of(obj.spec_tags()) matches Some(inv) && !inv.contains(oid)
    &&& equipped_of(obj.spec_tags()) matches Some(eq) ==> !eq.contains(Some(oid))
}

/// An object that can take an id still follows the object rules with the id added to its
/// inventory.
pub proof fn lemma_take_keeps_rules(tags: Seq<Tag>, t: Tag, oid: Oid)
    requires
        tags_wf(tags),
        inventory_of(tags) matches Some(inv) && !inv.contains(oid),
        equipped_of(tags) matches Some(eq) ==> !eq.contains(Some(oid)),
        t matches Tag::Inventory(v) && v@ == inventory_of(tags)->0.push(oid),
    ensures
        tags_wf(tags.update(find_id(tags, INVENTORY_ID, 0), t)),
{
    let k = find_id(tags, INVENTORY_ID, 0);
    lemma_find_id(tags, INVENTORY_ID, 0);
    let new = tags.update(k, t);
    assert(tag::tag_id(t) == INVENTORY_ID);
    assert forall|i: int| 0 <= i < new.len() implies tag::tag_id(#[trigger] new[i]) == tag::tag_id(tags[i]) by {}
    assert forall|id: u16| #[trigger] find_id(new, id, 0) == find_id(tags, id, 0) by {
        lemma_same_ids_find(new, tags, id, 0);
    }
    assert forall|id: u16| id != INVENTORY_ID implies #[trigger] tag_value(new, id) == tag_value(tags, id) by {
        lemma_find_id(tags, id, 0);
        let j = find_id(tags, id, 0);
        if j >= 0 {
            assert(j != k);
        }
    }
    assert(tag_value(new, INVENTORY_ID) == Some(t));
    let inv = inventory_of(tags)->0;
    assert(inventory_of(new) == Some(inv.push(oid)));
    assert(inv.push(oid).no_duplicates()) by {
        assert forall|a: int, b: int| 0 <= a < inv.len() + 1 && 0 <= b < inv.len() + 1 && a != b implies inv.push(oid)[a]
            != inv.push(oid)[b] by {
            if a < inv.len() && b < inv.len() {
            } else if a < inv.len() {
                assert(inv.contains(inv[a]));
            } else {
                assert(inv.contains(inv[b]));
            }
        }
    }
    assert(terrain_of(new) == terrain_of(tags));
    assert(durability_of(new) == durability_of(tags));
    assert(disposition_of(new) == disposition_of(tags));
    assert(equipped_of(new) == equipped_of(tags));
    if equipped_of(tags) is Some {
        let eq = equipped_of(tags)->0;
        assert forall|i: int| 0 <= i < eq.len() && (#[trigger] eq[i]) is Some implies !inv.push(oid).contains(eq[i]->0) by {
            assert(eq.contains(eq[i]));
            if inv.push(oid).contains(eq[i]->0) {
                let j = choose|j: int| 0 <= j < inv.len() + 1 && inv.push(oid)[j] == eq[i]->0;
                if j < inv.len() {
                    assert(inv.contains(eq[i]->0));
                }
            }
        }
    }
    assert(new.last() == tags.last() || k == tags.len() - 1);
    if k == tags.len() - 1 {
        assert(tag::tag_id(new.last()) == tag::tag_id(tags.last()));
    }
}

pub proof fn lemma_same_ids_find(a: Seq<Tag>, b: Seq<Tag>, id: u16, from: int)
    requires
        a.len() == b.len(),
        forall|i: int| 0 <= i < a.len() ==> tag::tag_id(#[trigger] a[i]) == tag::tag_id(b[i]),
    ensures
        find_id(a, id, from) == find_id(b, id, from),
    decreases a.len() - from,
{
    if 0 <= from < a.len() {
        assert(tag::tag_id(a[from]) == tag::tag_id(b[from]));
        lemma_same_ids_find(a, b, id, from + 1);
    }
}

impl Clone for Object {
    /// A copy: the same name, look and description, and the same tags.
    fn clone(&self) -> (r: Object)
        ensures
            r.spec_name() == self.spec_name(),
            r.spec_symbol() == self.spec_symbol(),
            r.spec_color() == self.spec_color(),
            r.spec_description() == self.spec_description(),
            r.spec_tags().len() == self.spec_tags().len(),
            forall|i: int|
                0 <= i < self.spec_tags().len() ==> tag::same_tag(
                    #[trigger] r.spec_tags()[i],
                    self.spec_tags()[i],
                ),
    {
        let mut tags: Vec<Tag> = Vec::new();
        let mut i: usize = 0;
        while i < self.tags.len()
            invariant
                i <= self.tags@.len(),
                tags@.len() == i,
                forall|j: int| 0 <= j < i ==> tag::same_tag(#[trigger] tags@[j], self.tags@[j]),
            decreases self.tags@.len() - i,
        {
            tags.push(self.tags[i].clone());
            i = i + 1;
        }
        Object {
            name: self.name,
            tags,
            symbol: self.symbol,
            color: self.color,
            description: self.description,
        }
    }
}

impl Object {
    /// The object's name for logging and error reports.
    pub fn dname(&self) -> (s: String)
        ensures
            s@ == name_text(self.spec_name()),
    {
        let text = match self.name {
            ObjectName::LeatherChest => "LeatherChest",
            ObjectName::LeatherGloves => "LeatherGloves",
            ObjectName::LeatherHat => "LeatherHat",
            ObjectName::LeatherLegs => "LeatherLegs",
            ObjectName::LeatherSandals => "LeatherSandals",
            ObjectName::GreaterArmorySign => "GreaterArmorySign",
            ObjectName::LesserArmorySign => "LesserArmorySign",
            ObjectName::PickAxe => "PickAxe",
            ObjectName::BerokeSoftVoice => "BerokeSoftVoice",
            ObjectName::Doorman => "Doorman",
            ObjectName::Guard => "Guard",
            ObjectName::HaladRackBearer => "HaladRackBearer",
            ObjectName::Icarium => "Icarium",
            ObjectName::ImrothTheCruel => "ImrothTheCruel",
            ObjectName::KahlbTheSilentHunter => "KahlbTheSilentHunter",
            ObjectName::Player => "Player",
            ObjectName::Rhulad => "Rhulad",
            ObjectName::SiballeTheUnfound => "SiballeTheUnfound",
            ObjectName::Spectator => "Spectator",
            ObjectName::ThenikTheShattered => "ThenikTheShattered",
            ObjectName::UrugalTheWoven => "UrugalTheWoven",
            ObjectName::ClosedDoor => "ClosedDoor",
            ObjectName::DeepWater => "DeepWater",
            ObjectName::Dirt => "Dirt",
            ObjectName::MetalWall => "MetalWall",
            ObjectName::OpenDoor => "OpenDoor",
            ObjectName::Rubble => "Rubble",
            ObjectName::ShallowWater => "ShallowWater",
            ObjectName::StoneWall => "StoneWall",
            ObjectName::Tree => "Tree",
            ObjectName::Vitr => "Vitr",
            ObjectName::Dagger => "Dagger",
            ObjectName::Broadsword => "Broadsword",
            ObjectName::EmperorSword => "EmperorSword",
            ObjectName::LongKnife => "LongKnife",
            ObjectName::LongSword => "LongSword",
            ObjectName::MightySword => "MightySword",
        };
        String::from_str(text)
    }
}

} // verus!
