use crate::color::Color;
use crate::oid::Oid;
use crate::point::Point;
use crate::time::Time;
use vstd::prelude::*;

verus! {

#[derive(Clone, Copy, Debug, PartialEq, Eq, Structural)]
pub enum Weapon {
    TwoHander,
    OneHand,
}

#[derive(Clone, Copy, Debug, PartialEq, Eq, Structural)]
pub enum Slot {
    MainHand,
    OffHand,
    Head,
    Chest,
    Hands,
    Legs,
    Feet,
}

/// Position of the slot in an `Equipped` list.
pub open spec fn slot_position(slot: Slot) -> nat {
    match slot {
        Slot::MainHand => 0,
        Slot::OffHand => 1,
        Slot::Head => 2,
        Slot::Chest => 3,
        Slot::Hands => 4,
        Slot::Legs => 5,
        Slot::Feet => 6,
    }
}

impl Slot {
    /// Position of the slot in an `Equipped` list.
    pub fn index(&self) -> (r: usize)
        ensures
            r == slot_position(*self),
            r < 7,
    {
        match self {
            Slot::MainHand => 0,
            Slot::OffHand => 1,
            Slot::Head => 2,
            Slot::Chest => 3,
            Slot::Hands => 4,
            Slot::Legs => 5,
            Slot::Feet => 6,
        }
    }
}

/// Affects behavior of items like burning oil or a pick axe. Also affects
/// spell behavior and whether characters can move through terrain.
#[derive(Clone, Copy, Debug, PartialEq, Eq, Structural)]
pub enum Material {
    Stone,
    Metal,
}

#[derive(Clone, Copy, Debug, PartialEq, Eq, Structural)]
pub enum Disposition {
    /// Player cannot attack these.
    Friendly,
    /// These act friendly until attacked in which case they turn aggressive.
    Neutral,
    /// These will attack the player on sight.
    Aggressive,
}

#[derive(Clone, Copy, Debug, PartialEq, Eq, Structural)]
pub enum Behavior {
    /// NPC is attempting to attack oid at its last known location.
    Attacking(Oid, Point),
    /// NPC is moving towards the point. Typically this is because it heard noise from
    /// there.
    MovingTo(Point),
    /// NPC isn't doing anything but may wake up if there are noises.
    Sleeping,
    /// NPC will wander around until time goes past the specified time.
    Wandering(Time),
}

#[derive(Clone, Copy, Debug, PartialEq, Eq, Structural)]
pub struct Durability {
    pub current: i32,
    pub max: i32,
}

#[derive(Clone, Copy, Debug, PartialEq, Eq, Structural)]
pub enum Terrain {
    /// Will have Durability (and usually Material) if the door can be broken down.
    ClosedDoor,
    DeepWater,
    /// Grass, dirt, etc.
    Ground,
    OpenDoor,
    /// Will have a Material tag.
    Rubble,
    ShallowWater,
    Tree,
    Vitr,
    /// Will normally have Durability and Material tags. At zero durability changes to Rubble.
    Wall,
}

/// Unlike object ids tag ids don't typically hang around for very long, so they are
/// simply small numbers.
#[derive(Clone, Copy, Debug, PartialEq, Eq, Structural, Hash)]
pub struct Tid(pub u16);

/// The state that objects are built from. Each variant has its own id (see `tag_id`).
#[derive(Debug, PartialEq, Eq)]
pub enum Tag {
    /// Worn in the given slot; mitigates damage.
    Armor(Slot),
    /// Background color used when rendering (terrain has this).
    Background(Color),
    /// What an NPC is currently doing.
    Behavior(Behavior),
    CanOpenDoor,
    /// The object is a character; this tag comes last.
    Character,
    /// Percent chance of a critical hit.
    Crit(i32),
    /// Base damage of a melee attack.
    Damage(i32),
    /// Time a melee attack takes.
    Delay(Time),
    Dexterity(i32),
    Disposition(Disposition),
    Doorman,
    Durability(Durability),
    EmpSword,
    /// What a character has equipped, one entry per slot (see `Slot::index`).
    Equipped(Vec<Option<Oid>>),
    /// Percent of durability at which the character flees.
    Flees(i32),
    Guard,
    /// Percent scaling of how well the character hears noises.
    Hearing(i32),
    Icarium,
    /// Objects carried by a character.
    Inventory(Vec<Oid>),
    Material(Material),
    Mitigation(i32),
    /// Name used in messages.
    Name(&'static str),
    PickAxe,
    Player,
    Portable,
    Rhulad,
    /// The object is given time units by the scheduler.
    Scheduled,
    Sign,
    Spectator,
    Strength(i32),
    /// The object is the terrain of a cell.
    Terrain(Terrain),
    Weapon(Weapon),
}

/// Two tags are the same: the same variant holding the same values (lists by their
/// contents).
pub open spec fn same_tag(a: Tag, b: Tag) -> bool {
    match (a, b) {
        (Tag::Equipped(x), Tag::Equipped(y)) => x@ == y@,
        (Tag::Inventory(x), Tag::Inventory(y)) => x@ == y@,
        (Tag::Equipped(_), _) => false,
        (Tag::Inventory(_), _) => false,
        _ => a == b,
    }
}

fn copy_oids(v: &Vec<Oid>) -> (r: Vec<Oid>)
    ensures
        r@ == v@,
{
    let mut r: Vec<Oid> = Vec::new();
    let mut i: usize = 0;
    while i < v.len()
        invariant
            i <= v@.len(),
            r@ == v@.subrange(0, i as int),
        decreases v@.len() - i,
    {
        r.push(v[i]);
        assert(v@.subrange(0, i + 1) =~= v@.subrange(0, i as int).push(v@[i as int]));
        i = i + 1;
    }
    assert(v@.subrange(0, v@.len() as int) =~= v@);
    r
}

fn copy_equipped(v: &Vec<Option<Oid>>) -> (r: Vec<Option<Oid>>)
    ensures
        r@ == v@,
{
    let mut r: Vec<Option<Oid>> = Vec::new();
    let mut i: usize = 0;
    while i < v.len()
        invariant
            i <= v@.len(),
            r@ == v@.subrange(0, i as int),
        decreases v@.len() - i,
    {
        r.push(v[i]);
        assert(v@.subrange(0, i + 1) =~= v@.subrange(0, i as int).push(v@[i as int]));
        i = i + 1;
    }
    assert(v@.subrange(0, v@.len() as int) =~= v@);
    r
}

impl Clone for Tag {
    fn clone(&self) -> (r: Tag)
        ensures
            same_tag(r, *self),
            tag_id(r) == tag_id(*self),
    {
        match self {
            Tag::Armor(x) => Tag::Armor(*x),
            Tag::Background(x) => Tag::Background(*x),
            Tag::Behavior(x) => Tag::Behavior(*x),
            Tag::Crit(x) => Tag::Crit(*x),
            Tag::Damage(x) => Tag::Damage(*x),
            Tag::Delay(x) => Tag::Delay(*x),
            Tag::Dexterity(x) => Tag::Dexterity(*x),
            Tag::Disposition(x) => Tag::Disposition(*x),
            Tag::Durability(x) => Tag::Durability(*x),
            Tag::Flees(x) => Tag::Flees(*x),
            Tag::Hearing(x) => Tag::Hearing(*x),
            Tag::Material(x) => Tag::Material(*x),
            Tag::Mitigation(x) => Tag::Mitigation(*x),
            Tag::Name(x) => Tag::Name(*x),
            Tag::Strength(x) => Tag::Strength(*x),
            Tag::Terrain(x) => Tag::Terrain(*x),
            Tag::Weapon(x) => Tag::Weapon(*x),
            Tag::CanOpenDoor => Tag::CanOpenDoor,
            Tag::Character => Tag::Character,
            Tag::Doorman => Tag::Doorman,
            Tag::EmpSword => Tag::EmpSword,
            Tag::Guard => Tag::Guard,
            Tag::Icarium => Tag::Icarium,
            Tag::PickAxe => Tag::PickAxe,
            Tag::Player => Tag::Player,
            Tag::Portable => Tag::Portable,
            Tag::Rhulad => Tag::Rhulad,
            Tag::Scheduled => Tag::Scheduled,
            Tag::Sign => Tag::Sign,
            Tag::Spectator => Tag::Spectator,
            Tag::Equipped(v) => Tag::Equipped(copy_equipped(v)),
            Tag::Inventory(v) => Tag::Inventory(copy_oids(v)),
        }
    }
}

pub const ARMOR_ID: u16 = 0;

pub const BACKGROUND_ID: u16 = 1;

pub const BEHAVIOR_ID: u16 = 2;

pub const CAN_OPEN_DOOR_ID: u16 = 3;

pub const CHARACTER_ID: u16 = 4;

pub const CRIT_ID: u16 = 5;

pub const DAMAGE_ID: u16 = 6;

pub const DELAY_ID: u16 = 7;

pub const DEXTERITY_ID: u16 = 8;

pub const DISPOSITION_ID: u16 = 9;

pub const DOORMAN_ID: u16 = 10;

pub const DURABILITY_ID: u16 = 11;

pub const EMP_SWORD_ID: u16 = 12;

pub const EQUIPPED_ID: u16 = 13;

pub const FLEES_ID: u16 = 14;

pub const GUARD_ID: u16 = 15;

pub const HEARING_ID: u16 = 16;

pub const ICARIUM_ID: u16 = 17;

pub const INVENTORY_ID: u16 = 18;

pub const MATERIAL_ID: u16 = 19;

pub const MITIGATION_ID: u16 = 20;

pub const NAME_ID: u16 = 21;

pub const PICK_AXE_ID: u16 = 22;

pub const PLAYER_ID: u16 = 23;

pub const PORTABLE_ID: u16 = 24;

pub const RHULAD_ID: u16 = 25;

pub const SCHEDULED_ID: u16 = 26;

pub const SIGN_ID: u16 = 27;

pub const SPECTATOR_ID: u16 = 28;

pub const STRENGTH_ID: u16 = 29;

pub const TERRAIN_ID: u16 = 30;

pub const WEAPON_ID: u16 = 31;

/// The id of a tag's variant.
pub open spec fn tag_id(tag: Tag) -> u16 {
    match tag {
        Tag::Armor(..) => ARMOR_ID,
        Tag::Background(..) => BACKGROUND_ID,
        Tag::Behavior(..) => BEHAVIOR_ID,
        Tag::CanOpenDoor => CAN_OPEN_DOOR_ID,
        Tag::Character => CHARACTER_ID,
        Tag::Crit(..) => CRIT_ID,
        Tag::Damage(..) => DAMAGE_ID,
        Tag::Delay(..) => DELAY_ID,
        Tag::Dexterity(..) => DEXTERITY_ID,
        Tag::Disposition(..) => DISPOSITION_ID,
        Tag::Doorman => DOORMAN_ID,
        Tag::Durability(..) => DURABILITY_ID,
        Tag::EmpSword => EMP_SWORD_ID,
        Tag::Equipped(..) => EQUIPPED_ID,
        Tag::Flees(..) => FLEES_ID,
        Tag::Guard => GUARD_ID,
        Tag::Hearing(..) => HEARING_ID,
        Tag::Icarium => ICARIUM_ID,
        Tag::Inventory(..) => INVENTORY_ID,
        Tag::Material(..) => MATERIAL_ID,
        Tag::Mitigation(..) => MITIGATION_ID,
        Tag::Name(..) => NAME_ID,
        Tag::PickAxe => PICK_AXE_ID,
        Tag::Player => PLAYER_ID,
        Tag::Portable => PORTABLE_ID,
        Tag::Rhulad => RHULAD_ID,
        Tag::Scheduled => SCHEDULED_ID,
        Tag::Sign => SIGN_ID,
        Tag::Spectator => SPECTATOR_ID,
        Tag::Strength(..) => STRENGTH_ID,
        Tag::Terrain(..) => TERRAIN_ID,
        Tag::Weapon(..) => WEAPON_ID,
    }
}

impl Tag {
    pub fn to_id(&self) -> (r: Tid)
        ensures
            r.0 == tag_id(*self),
    {
        match self {
            Tag::Armor(..) => Tid(ARMOR_ID),
            Tag::Background(..) => Tid(BACKGROUND_ID),
            Tag::Behavior(..) => Tid(BEHAVIOR_ID),
            Tag::CanOpenDoor => Tid(CAN_OPEN_DOOR_ID),
            Tag::Character => Tid(CHARACTER_ID),
            Tag::Crit(..) => Tid(CRIT_ID),
            Tag::Damage(..) => Tid(DAMAGE_ID),
            Tag::Delay(..) => Tid(DELAY_ID),
            Tag::Dexterity(..) => Tid(DEXTERITY_ID),
            Tag::Disposition(..) => Tid(DISPOSITION_ID),
            Tag::Doorman => Tid(DOORMAN_ID),
            Tag::Durability(..) => Tid(DURABILITY_ID),
            Tag::EmpSword => Tid(EMP_SWORD_ID),
            Tag::Equipped(..) => Tid(EQUIPPED_ID),
            Tag::Flees(..) => Tid(FLEES_ID),
            Tag::Guard => Tid(GUARD_ID),
            Tag::Hearing(..) => Tid(HEARING_ID),
            Tag::Icarium => Tid(ICARIUM_ID),
            Tag::Inventory(..) => Tid(INVENTORY_ID),
            Tag::Material(..) => Tid(MATERIAL_ID),
            Tag::Mitigation(..) => Tid(MITIGATION_ID),
            Tag::Name(..) => Tid(NAME_ID),
            Tag::PickAxe => Tid(PICK_AXE_ID),
            Tag::Player => Tid(PLAYER_ID),
            Tag::Portable => Tid(PORTABLE_ID),
            Tag::Rhulad => Tid(RHULAD_ID),
            Tag::Scheduled => Tid(SCHEDULED_ID),
            Tag::Sign => Tid(SIGN_ID),
            Tag::Spectator => Tid(SPECTATOR_ID),
            Tag::Strength(..) => Tid(STRENGTH_ID),
            Tag::Terrain(..) => Tid(TERRAIN_ID),
            Tag::Weapon(..) => Tid(WEAPON_ID),
        }
    }
}

} // verus!
