use crate::color::Color;
use crate::object::{self, Object, ObjectName, Symbol};
use crate::lookup::{Entry, Lookup};
use crate::message::{Message, Topic};
use crate::model::key;
use crate::oid::Oid;
use crate::point::Point;
use crate::random::choose_one;
use crate::text::push_char;
use crate::tag::{self, same_tag, Tid, Behavior, Disposition, Durability, Material, Slot, Tag, Terrain, Weapon};
use crate::time::{from_units, secs, Time};
use rand::rngs::SmallRng;
use vstd::prelude::*;

verus! {

/// Durability of doors made of the material (walls are five times tougher).
pub open spec fn material_durability(material: Material) -> i32 {
    match material {
        Material::Stone => 100,
        Material::Metal => 1000,
    }
}

/// Every material gives a door some durability, and metal holds ten times as long as
/// stone, which takes a hundred points to break.
pub proof fn law_material_durability(material: Material)
    ensures
        material_durability(material) > 0,
        material_durability(Material::Stone) == 100,
        material_durability(Material::Metal) == 10 * material_durability(Material::Stone),
{
}

pub fn to_durability(material: Material) -> (d: i32)
    ensures
        d == material_durability(material),
{
    match material {
        Material::Stone => 100,
        Material::Metal => 1000,
    }
}

/// The tags of a wall of the material.
pub open spec fn wall_tag_list(bg: Color, material: Material) -> Seq<Tag> {
    let durability = 5 * material_durability(material);
    seq![
        Tag::Durability(Durability { current: durability as i32, max: durability as i32 }),
        Tag::Material(material),
        Tag::Terrain(Terrain::Wall),
        Tag::Background(bg),
    ]
}

/// The tags of an open or closed door of the material.
pub open spec fn door_tag_list(bg: Color, material: Material, open: bool) -> Seq<Tag> {
    let durability = material_durability(material);
    seq![
        Tag::Durability(Durability { current: durability, max: durability }),
        Tag::Material(material),
        Tag::Terrain(if open { Terrain::OpenDoor } else { Terrain::ClosedDoor }),
        Tag::Background(bg),
    ]
}

pub fn wall_tags(bg: Color, material: Material) -> (tags: Vec<Tag>)
    ensures
        tags@ == wall_tag_list(bg, material),
{
    let durability = 5 * to_durability(material);  // walls are quite a bit tougher than something like a door
    vec![
        Tag::Durability(Durability { current: durability, max: durability }),
        Tag::Material(material),
        Tag::Terrain(Terrain::Wall),
        Tag::Background(bg),
    ]
}

pub fn door_tags(bg: Color, material: Material, open: bool) -> (tags: Vec<Tag>)
    ensures
        tags@ == door_tag_list(bg, material, open),
{
    let durability = to_durability(material);
    vec![
        Tag::Durability(Durability { current: durability, max: durability }),
        Tag::Material(material),
        if open {
            Tag::Terrain(Terrain::OpenDoor)
        } else {
            Tag::Terrain(Terrain::ClosedDoor)
        },
        Tag::Background(bg),
    ]
}

/// The seven broken Logros T'lan Imass.
pub open spec fn is_broken(name: ObjectName) -> bool {
    match name {
        ObjectName::BerokeSoftVoice | ObjectName::HaladRackBearer | ObjectName::ImrothTheCruel
        | ObjectName::KahlbTheSilentHunter | ObjectName::SiballeTheUnfound
        | ObjectName::ThenikTheShattered | ObjectName::UrugalTheWoven => true,
        _ => false,
    }
}

/// The name that each of the seven goes by.
pub open spec fn broken_str(name: ObjectName) -> &'static str {
    match name {
        ObjectName::BerokeSoftVoice => "Beroke Soft Voice",
        ObjectName::HaladRackBearer => "Halad Rack Bearer",
        ObjectName::ImrothTheCruel => "Imroth the Cruel",
        ObjectName::KahlbTheSilentHunter => "Kahlb the SilentHunter",
        ObjectName::SiballeTheUnfound => "Siballe the Unfound",
        ObjectName::ThenikTheShattered => "Thenik the Shattered",
        _ => "Urugal the Woven",
    }
}

pub fn broken_name(name: ObjectName) -> (s: &'static str)
    requires
        is_broken(name),
    ensures
        s == broken_str(name),
{
    match name {
        ObjectName::BerokeSoftVoice => "Beroke Soft Voice",
        ObjectName::HaladRackBearer => "Halad Rack Bearer",
        ObjectName::ImrothTheCruel => "Imroth the Cruel",
        ObjectName::KahlbTheSilentHunter => "Kahlb the SilentHunter",
        ObjectName::SiballeTheUnfound => "Siballe the Unfound",
        ObjectName::ThenikTheShattered => "Thenik the Shattered",
        _ => "Urugal the Woven",
    }
}

/// Nothing equipped in any of the seven slots.
fn empty_equipment() -> (v: Vec<Option<Oid>>)
    ensures
        v@.len() == 7,
        forall|i: int| 0 <= i < 7 ==> (#[trigger] v@[i]) is None,
{
    let mut v: Vec<Option<Oid>> = Vec::new();
    let mut i: usize = 0;
    while i < 7
        invariant
            i <= 7,
            v@.len() == i,
            forall|k: int| 0 <= k < i ==> (#[trigger] v@[k]) is None,
        decreases 7 - i,
    {
        v.push(None);
        i += 1;
    }
    v
}

/// The kind of terrain an object of the name is, if it is terrain.
pub open spec fn terrain_for(name: ObjectName) -> Option<Terrain> {
    match name {
        ObjectName::ClosedDoor => Some(Terrain::ClosedDoor),
        ObjectName::DeepWater => Some(Terrain::DeepWater),
        ObjectName::Dirt => Some(Terrain::Ground),
        ObjectName::MetalWall => Some(Terrain::Wall),
        ObjectName::OpenDoor => Some(Terrain::OpenDoor),
        ObjectName::Rubble => Some(Terrain::Ground),
        ObjectName::ShallowWater => Some(Terrain::ShallowWater),
        ObjectName::StoneWall => Some(Terrain::Wall),
        ObjectName::Tree => Some(Terrain::Tree),
        ObjectName::Vitr => Some(Terrain::Vitr),
        _ => None,
    }
}

/// Objects of the name are characters (the player and NPCs).
pub open spec fn is_character_name(name: ObjectName) -> bool {
    match name {
        ObjectName::BerokeSoftVoice | ObjectName::Doorman | ObjectName::Guard
        | ObjectName::HaladRackBearer | ObjectName::Icarium | ObjectName::ImrothTheCruel
        | ObjectName::KahlbTheSilentHunter | ObjectName::Player | ObjectName::Rhulad
        | ObjectName::SiballeTheUnfound | ObjectName::Spectator | ObjectName::ThenikTheShattered
        | ObjectName::UrugalTheWoven => true,
        _ => false,
    }
}

/// Objects of the name can be picked up (armor, weapons and the pick-axe).
pub open spec fn is_portable_name(name: ObjectName) -> bool {
    match name {
        ObjectName::LeatherChest | ObjectName::LeatherGloves | ObjectName::LeatherHat
        | ObjectName::LeatherLegs | ObjectName::LeatherSandals | ObjectName::PickAxe
        | ObjectName::Dagger | ObjectName::Broadsword | ObjectName::EmperorSword
        | ObjectName::LongKnife | ObjectName::LongSword | ObjectName::MightySword => true,
        _ => false,
    }
}

/// Objects of the name are scheduled to act (characters that fight back, and water,
/// which floods).
pub open spec fn is_scheduled_name(name: ObjectName) -> bool {
    match name {
        ObjectName::BerokeSoftVoice | ObjectName::Guard | ObjectName::HaladRackBearer
        | ObjectName::Icarium | ObjectName::ImrothTheCruel | ObjectName::KahlbTheSilentHunter
        | ObjectName::Player | ObjectName::Rhulad | ObjectName::SiballeTheUnfound
        | ObjectName::Spectator | ObjectName::ThenikTheShattered | ObjectName::UrugalTheWoven
        | ObjectName::DeepWater | ObjectName::ShallowWater => true,
        _ => false,
    }
}

/// An empty inventory (lists inside tags are compared by their contents, see `same_tag`).
pub open spec fn no_oids() -> Vec<Oid> {
    choose|v: Vec<Oid>| v@ == Seq::<Oid>::empty()
}

/// Nothing equipped in any of the seven slots (compared by contents, see `same_tag`).
pub open spec fn no_equipment() -> Vec<Option<Oid>> {
    choose|v: Vec<Option<Oid>>| v@ == Seq::new(7, |i: int| None::<Oid>)
}

/// The tags are those listed, one for one, lists inside them by their contents.
pub open spec fn tags_like(tags: Seq<Tag>, listed: Seq<Tag>) -> bool {
    &&& tags.len() == listed.len()
    &&& forall|i: int| 0 <= i < tags.len() ==> same_tag(#[trigger] tags[i], listed[i])
}

/// Tags are like the very same list.
proof fn lemma_tags_like_same(tags: Seq<Tag>, listed: Seq<Tag>)
    requires
        tags == listed,
    ensures
        tags_like(tags, listed),
{
    assert forall|i: int| 0 <= i < tags.len() implies same_tag(#[trigger] tags[i], listed[i]) by {
        match tags[i] {
            Tag::Equipped(_) => {},
            Tag::Inventory(_) => {},
            _ => {},
        }
    }
}

/// The tags that `new_obj` gives an object of the name, in order.
pub open spec fn name_tags(name: ObjectName) -> Seq<Tag> {
    match name {
        ObjectName::LeatherChest => seq![Tag::Name("leather chest"), Tag::Portable, Tag::Armor(Slot::Chest), Tag::Mitigation(5)],
        ObjectName::LeatherGloves => seq![Tag::Name("leather gloves"), Tag::Portable, Tag::Armor(Slot::Hands), Tag::Mitigation(3)],
        ObjectName::LeatherHat => seq![Tag::Name("leather hat"), Tag::Portable, Tag::Armor(Slot::Head), Tag::Mitigation(3)],
        ObjectName::LeatherLegs => seq![Tag::Name("leather shin guards"), Tag::Portable, Tag::Armor(Slot::Legs), Tag::Mitigation(4)],
        ObjectName::LeatherSandals => seq![Tag::Name("leather sandals"), Tag::Portable, Tag::Armor(Slot::Feet), Tag::Mitigation(3)],
        ObjectName::GreaterArmorySign => seq![Tag::Sign],
        ObjectName::LesserArmorySign => seq![Tag::Sign],
        ObjectName::PickAxe => seq![Tag::Name("pick-axe"), Tag::PickAxe, Tag::Delay(from_units(3200)), Tag::Portable],
        ObjectName::BerokeSoftVoice | ObjectName::HaladRackBearer | ObjectName::ImrothTheCruel | ObjectName::KahlbTheSilentHunter | ObjectName::SiballeTheUnfound | ObjectName::ThenikTheShattered | ObjectName::UrugalTheWoven => seq![Tag::Strength(10), Tag::Dexterity(10), Tag::Disposition(Disposition::Aggressive), Tag::Behavior(Behavior::Wandering(from_units(i64::MAX as int))), Tag::Damage(35), Tag::Delay(from_units(500)), Tag::Durability(Durability { current: 170, max: 170 }), Tag::Name(broken_str(name)), Tag::Scheduled, Tag::Character],
        ObjectName::Doorman => seq![Tag::Disposition(Disposition::Friendly), Tag::Name("Doorman"), Tag::Doorman, Tag::Character],
        ObjectName::Guard => seq![Tag::Strength(10), Tag::Dexterity(10), Tag::Disposition(Disposition::Neutral), Tag::Behavior(Behavior::Sleeping), Tag::Damage(6), Tag::Delay(from_units(300)), Tag::Flees(50), Tag::Hearing(0), Tag::Durability(Durability { current: 30, max: 30 }), Tag::Name("a guard"), Tag::Guard, Tag::Scheduled, Tag::Character],
        ObjectName::Icarium => seq![Tag::Strength(10), Tag::Dexterity(20), Tag::Disposition(Disposition::Neutral), Tag::Behavior(Behavior::Wandering(from_units(i64::MAX as int))), Tag::Damage(45), Tag::Delay(from_units(300)), Tag::Durability(Durability { current: 500, max: 500 }), Tag::Name("Icarium"), Tag::Icarium, Tag::Scheduled, Tag::Character],
        ObjectName::Player => seq![Tag::Strength(10), Tag::Dexterity(10), Tag::Durability(Durability { current: 100, max: 100 }), Tag::Damage(6), Tag::Delay(from_units(200)), Tag::Inventory(no_oids()), Tag::Equipped(no_equipment()), Tag::Name("yourself"), Tag::CanOpenDoor, Tag::Player, Tag::Scheduled, Tag::Character],
        ObjectName::Rhulad => seq![Tag::Strength(10), Tag::Dexterity(10), Tag::Disposition(Disposition::Aggressive), Tag::Behavior(Behavior::Sleeping), Tag::Damage(24), Tag::Delay(from_units(400)), Tag::Durability(Durability { current: 100, max: 100 }), Tag::Name("Rhulad"), Tag::Rhulad, Tag::Scheduled, Tag::Character],
        ObjectName::Spectator => seq![Tag::Strength(10), Tag::Dexterity(10), Tag::Disposition(Disposition::Neutral), Tag::Behavior(Behavior::Sleeping), Tag::Hearing(0), Tag::Durability(Durability { current: 33, max: 33 }), Tag::Name("Spectator"), Tag::Spectator, Tag::Scheduled, Tag::Character],
        ObjectName::ClosedDoor => door_tag_list(Color::Black, Material::Stone, false),
        ObjectName::DeepWater => seq![Tag::Terrain(Terrain::DeepWater), Tag::Background(Color::LightBlue), Tag::Scheduled],
        ObjectName::Dirt => seq![Tag::Terrain(Terrain::Ground), Tag::Background(Color::Black)],
        ObjectName::MetalWall => wall_tag_list(Color::Black, Material::Metal),
        ObjectName::OpenDoor => door_tag_list(Color::Black, Material::Stone, true),
        ObjectName::Rubble => seq![Tag::Terrain(Terrain::Ground), Tag::Background(Color::Black)],
        ObjectName::ShallowWater => seq![Tag::Terrain(Terrain::ShallowWater), Tag::Background(Color::LightBlue), Tag::Scheduled],
        ObjectName::StoneWall => wall_tag_list(Color::Black, Material::Stone),
        ObjectName::Tree => seq![Tag::Terrain(Terrain::Tree), Tag::Background(Color::Black)],
        ObjectName::Vitr => seq![Tag::Terrain(Terrain::Vitr), Tag::Background(Color::Black)],
        ObjectName::Broadsword => seq![Tag::Name("broadsword"), Tag::Portable, Tag::Weapon(Weapon::OneHand), Tag::Damage(12), Tag::Delay(from_units(300)), Tag::Strength(4), Tag::Dexterity(8), Tag::Crit(10)],
        ObjectName::Dagger => seq![Tag::Name("dagger"), Tag::Portable, Tag::Weapon(Weapon::OneHand), Tag::Damage(12), Tag::Delay(from_units(300)), Tag::Strength(4), Tag::Dexterity(8), Tag::Crit(10)],
        ObjectName::EmperorSword => seq![Tag::Name("Sword of the Crippled God"), Tag::Weapon(Weapon::TwoHander), Tag::Portable, Tag::EmpSword, Tag::Damage(50), Tag::Delay(from_units(500)), Tag::Crit(3), Tag::Strength(7), Tag::Dexterity(20)],
        ObjectName::LongKnife => seq![Tag::Name("long knife"), Tag::Portable, Tag::Weapon(Weapon::OneHand), Tag::Damage(12), Tag::Delay(from_units(300)), Tag::Strength(4), Tag::Dexterity(8), Tag::Crit(10)],
        ObjectName::LongSword => seq![Tag::Name("long sword"), Tag::Portable, Tag::Weapon(Weapon::OneHand), Tag::Damage(12), Tag::Delay(from_units(300)), Tag::Strength(4), Tag::Dexterity(8), Tag::Crit(10)],
        ObjectName::MightySword => seq![Tag::Name("Sword of Impending Doom"), Tag::Portable, Tag::Weapon(Weapon::TwoHander), Tag::Damage(40), Tag::Delay(from_units(500)), Tag::Strength(6), Tag::Dexterity(15), Tag::Crit(2)],
    }
}

/// The description that `new_obj` gives an object of the name.
pub open spec fn name_description(name: ObjectName) -> Seq<char> {
    match name {
        ObjectName::LeatherChest => "a leather chest"@,
        ObjectName::LeatherGloves => "a leather gloves"@,
        ObjectName::LeatherHat => "a leather hat"@,
        ObjectName::LeatherLegs => "leather shin guard"@,
        ObjectName::LeatherSandals => "a leather sandals"@,
        ObjectName::GreaterArmorySign => "a sign that says 'the Greater Armory'"@,
        ObjectName::LesserArmorySign => "a sign that says 'the Lesser Armory'"@,
        ObjectName::PickAxe => "a pick-axe"@,
        ObjectName::BerokeSoftVoice | ObjectName::HaladRackBearer | ObjectName::ImrothTheCruel | ObjectName::KahlbTheSilentHunter | ObjectName::SiballeTheUnfound | ObjectName::ThenikTheShattered | ObjectName::UrugalTheWoven => "One of seven broken Logros T'lan Imass worshipped as gods by the Teblor."@,
        ObjectName::Doorman => "a royal guard"@,
        ObjectName::Guard => "a low level guard"@,
        ObjectName::Icarium => "Icarium Lifestealer, a mixed blood Jahgut. He looks extremely dangerous"@,
        ObjectName::Player => "yourself"@,
        ObjectName::Rhulad => "the Emperor of a Thousand Deaths"@,
        ObjectName::Spectator => "a spectator"@,
        ObjectName::ClosedDoor => "a closed door"@,
        ObjectName::DeepWater => "deep water"@,
        ObjectName::Dirt => "a patch of dirt"@,
        ObjectName::MetalWall => "a metal wall"@,
        ObjectName::OpenDoor => "an open door"@,
        ObjectName::Rubble => "a destroyed wall"@,
        ObjectName::ShallowWater => "shallow water"@,
        ObjectName::StoneWall => "a stone wall"@,
        ObjectName::Tree => "a tree"@,
        ObjectName::Vitr => "a pool of chaotic acid"@,
        ObjectName::Broadsword => "a dull broadsword"@,
        ObjectName::Dagger => "a pointy dagger"@,
        ObjectName::EmperorSword => "the Sword of the Crippled God"@,
        ObjectName::LongKnife => "a shiny long knife"@,
        ObjectName::LongSword => "a nicked long sword"@,
        ObjectName::MightySword => "the Sword of Impending Doom"@,
    }
}

/// The symbol that an object of the name is drawn with.
pub open spec fn name_symbol(name: ObjectName) -> Symbol {
    match name {
        ObjectName::LeatherChest => Symbol::Armor,
        ObjectName::LeatherGloves => Symbol::Armor,
        ObjectName::LeatherHat => Symbol::Armor,
        ObjectName::LeatherLegs => Symbol::Armor,
        ObjectName::LeatherSandals => Symbol::Armor,
        ObjectName::GreaterArmorySign => Symbol::Sign,
        ObjectName::LesserArmorySign => Symbol::Sign,
        ObjectName::PickAxe => Symbol::PickAxe,
        ObjectName::BerokeSoftVoice | ObjectName::HaladRackBearer | ObjectName::ImrothTheCruel | ObjectName::KahlbTheSilentHunter | ObjectName::SiballeTheUnfound | ObjectName::ThenikTheShattered | ObjectName::UrugalTheWoven => Symbol::Npc('u'),
        ObjectName::Doorman => Symbol::Npc('D'),
        ObjectName::Guard => Symbol::Npc('g'),
        ObjectName::Icarium => Symbol::Npc('I'),
        ObjectName::Player => Symbol::Player,
        ObjectName::Rhulad => Symbol::Npc('R'),
        ObjectName::Spectator => Symbol::Npc('s'),
        ObjectName::ClosedDoor => Symbol::ClosedDoor,
        ObjectName::DeepWater => Symbol::DeepLiquid,
        ObjectName::Dirt => Symbol::Dirt,
        ObjectName::MetalWall => Symbol::Wall,
        ObjectName::OpenDoor => Symbol::OpenDoor,
        ObjectName::Rubble => Symbol::Rubble,
        ObjectName::ShallowWater => Symbol::ShallowLiquid,
        ObjectName::StoneWall => Symbol::Wall,
        ObjectName::Tree => Symbol::Tree,
        ObjectName::Vitr => Symbol::DeepLiquid,
        ObjectName::Broadsword => Symbol::WeakSword,
        ObjectName::Dagger => Symbol::WeakSword,
        ObjectName::EmperorSword => Symbol::StrongSword,
        ObjectName::LongKnife => Symbol::WeakSword,
        ObjectName::LongSword => Symbol::WeakSword,
        ObjectName::MightySword => Symbol::StrongSword,
    }
}

/// The color that an object of the name is drawn in.
pub open spec fn name_color(name: ObjectName) -> Color {
    match name {
        ObjectName::LeatherChest => Color::SandyBrown,
        ObjectName::LeatherGloves => Color::SandyBrown,
        ObjectName::LeatherHat => Color::SandyBrown,
        ObjectName::LeatherLegs => Color::SandyBrown,
        ObjectName::LeatherSandals => Color::SandyBrown,
        ObjectName::GreaterArmorySign => Color::Pink,
        ObjectName::LesserArmorySign => Color::Pink,
        ObjectName::PickAxe => Color::Tan,
        ObjectName::BerokeSoftVoice | ObjectName::HaladRackBearer | ObjectName::ImrothTheCruel | ObjectName::KahlbTheSilentHunter | ObjectName::SiballeTheUnfound | ObjectName::ThenikTheShattered | ObjectName::UrugalTheWoven => Color::Red,
        ObjectName::Doorman => Color::Green,
        ObjectName::Guard => Color::Green,
        ObjectName::Icarium => Color::LightGrey,
        ObjectName::Player => Color::Linen,
        ObjectName::Rhulad => Color::Red,
        ObjectName::Spectator => Color::Plum,
        ObjectName::ClosedDoor => Color::Yellow,
        ObjectName::DeepWater => Color::Blue,
        ObjectName::Dirt => Color::LightSlateGray,
        ObjectName::MetalWall => Color::Silver,
        ObjectName::OpenDoor => Color::Yellow,
        ObjectName::Rubble => Color::Chocolate,
        ObjectName::ShallowWater => Color::Blue,
        ObjectName::StoneWall => Color::Chocolate,
        ObjectName::Tree => Color::ForestGreen,
        ObjectName::Vitr => Color::Gold,
        ObjectName::Broadsword => Color::Silver,
        ObjectName::Dagger => Color::Silver,
        ObjectName::EmperorSword => Color::Silver,
        ObjectName::LongKnife => Color::Silver,
        ObjectName::LongSword => Color::Silver,
        ObjectName::MightySword => Color::Silver,
    }
}
/// The object is one that `new_obj` makes for the name.
#[verifier::opaque]
pub open spec fn made_as(obj: Object, name: ObjectName) -> bool {
    &&& obj.spec_name() == name
    &&& obj.wf()
    &&& tags_like(obj.spec_tags(), name_tags(name))
    &&& obj.spec_description() == name_description(name)
    &&& obj.spec_symbol() == name_symbol(name)
    &&& obj.spec_color() == name_color(name)
}

/// `lemma_listed_object` for the items.
#[verifier::rlimit(60)]
proof fn lemma_listed_items(name: ObjectName)
    requires
        matches!(name, ObjectName::LeatherChest | ObjectName::LeatherGloves | ObjectName::LeatherHat | ObjectName::LeatherLegs | ObjectName::LeatherSandals | ObjectName::GreaterArmorySign | ObjectName::LesserArmorySign | ObjectName::PickAxe | ObjectName::Broadsword | ObjectName::Dagger | ObjectName::EmperorSword | ObjectName::LongKnife | ObjectName::LongSword | ObjectName::MightySword),
    ensures
        name_description(name).len() > 0,
        object::tags_wf(name_tags(name)),
        object::terrain_of(name_tags(name)) == terrain_for(name),
        object::has_id(name_tags(name), tag::CHARACTER_ID) == is_character_name(name),
        object::has_id(name_tags(name), tag::PORTABLE_ID) == is_portable_name(name),
        !object::has_id(name_tags(name), tag::PLAYER_ID),
        object::has_id(name_tags(name), tag::SCHEDULED_ID) == is_scheduled_name(name),
        tags_like(name_tags(name), name_tags(name)),
{
    reveal_with_fuel(object::find_id, 14);
    reveal_with_fuel(object::unique_from, 14);
    lemma_tags_like_same(name_tags(name), name_tags(name));
    match name {
        ObjectName::LeatherChest => {
            reveal_strlit("a leather chest");
            object::lemma_ids_unique(name_tags(name));
        },
        ObjectName::LeatherGloves => {
            reveal_strlit("a leather gloves");
            object::lemma_ids_unique(name_tags(name));
        },
        ObjectName::LeatherHat => {
            reveal_strlit("a leather hat");
            object::lemma_ids_unique(name_tags(name));
        },
        ObjectName::LeatherLegs => {
            reveal_strlit("leather shin guard");
            object::lemma_ids_unique(name_tags(name));
        },
        ObjectName::LeatherSandals => {
            reveal_strlit("a leather sandals");
            object::lemma_ids_unique(name_tags(name));
        },
        ObjectName::GreaterArmorySign => {
            reveal_strlit("a sign that says 'the Greater Armory'");
            object::lemma_ids_unique(name_tags(name));
        },
        ObjectName::LesserArmorySign => {
            reveal_strlit("a sign that says 'the Lesser Armory'");
            object::lemma_ids_unique(name_tags(name));
        },
        ObjectName::PickAxe => {
            reveal_strlit("a pick-axe");
            object::lemma_ids_unique(name_tags(name));
        },
        ObjectName::Broadsword => {
            reveal_strlit("a dull broadsword");
            object::lemma_ids_unique(name_tags(name));
        },
        ObjectName::Dagger => {
            reveal_strlit("a pointy dagger");
            object::lemma_ids_unique(name_tags(name));
        },
        ObjectName::EmperorSword => {
            reveal_strlit("the Sword of the Crippled God");
            object::lemma_ids_unique(name_tags(name));
        },
        ObjectName::LongKnife => {
            reveal_strlit("a shiny long knife");
            object::lemma_ids_unique(name_tags(name));
        },
        ObjectName::LongSword => {
            reveal_strlit("a nicked long sword");
            object::lemma_ids_unique(name_tags(name));
        },
        ObjectName::MightySword => {
            reveal_strlit("the Sword of Impending Doom");
            object::lemma_ids_unique(name_tags(name));
        },
        _ => {},
    }
}

/// `lemma_listed_object` for the terrain.
#[verifier::rlimit(60)]
proof fn lemma_listed_terrain(name: ObjectName)
    requires
        matches!(name, ObjectName::ClosedDoor | ObjectName::DeepWater | ObjectName::Dirt | ObjectName::MetalWall | ObjectName::OpenDoor | ObjectName::Rubble | ObjectName::ShallowWater | ObjectName::StoneWall | ObjectName::Tree | ObjectName::Vitr),
    ensures
        name_description(name).len() > 0,
        object::tags_wf(name_tags(name)),
        object::terrain_of(name_tags(name)) == terrain_for(name),
        object::has_id(name_tags(name), tag::CHARACTER_ID) == is_character_name(name),
        object::has_id(name_tags(name), tag::PORTABLE_ID) == is_portable_name(name),
        !object::has_id(name_tags(name), tag::PLAYER_ID),
        object::has_id(name_tags(name), tag::SCHEDULED_ID) == is_scheduled_name(name),
        tags_like(name_tags(name), name_tags(name)),
{
    reveal_with_fuel(object::find_id, 14);
    reveal_with_fuel(object::unique_from, 14);
    lemma_tags_like_same(name_tags(name), name_tags(name));
    match name {
        ObjectName::ClosedDoor => {
            reveal_strlit("a closed door");
            object::lemma_ids_unique(name_tags(name));
        },
        ObjectName::DeepWater => {
            reveal_strlit("deep water");
            object::lemma_ids_unique(name_tags(name));
        },
        ObjectName::Dirt => {
            reveal_strlit("a patch of dirt");
            object::lemma_ids_unique(name_tags(name));
        },
        ObjectName::MetalWall => {
            reveal_strlit("a metal wall");
            object::lemma_ids_unique(name_tags(name));
        },
        ObjectName::OpenDoor => {
            reveal_strlit("an open door");
            object::lemma_ids_unique(name_tags(name));
        },
        ObjectName::Rubble => {
            reveal_strlit("a destroyed wall");
            object::lemma_ids_unique(name_tags(name));
        },
        ObjectName::ShallowWater => {
            reveal_strlit("shallow water");
            object::lemma_ids_unique(name_tags(name));
        },
        ObjectName::StoneWall => {
            reveal_strlit("a stone wall");
            object::lemma_ids_unique(name_tags(name));
        },
        ObjectName::Tree => {
            reveal_strlit("a tree");
            object::lemma_ids_unique(name_tags(name));
        },
        ObjectName::Vitr => {
            reveal_strlit("a pool of chaotic acid");
            object::lemma_ids_unique(name_tags(name));
        },
        _ => {},
    }
}

/// `lemma_listed_object` for the characters.
#[verifier::rlimit(60)]
proof fn lemma_listed_npcs(name: ObjectName)
    requires
        matches!(name, ObjectName::BerokeSoftVoice | ObjectName::HaladRackBearer | ObjectName::ImrothTheCruel | ObjectName::KahlbTheSilentHunter | ObjectName::SiballeTheUnfound | ObjectName::ThenikTheShattered | ObjectName::UrugalTheWoven | ObjectName::Doorman | ObjectName::Guard | ObjectName::Icarium | ObjectName::Rhulad | ObjectName::Spectator),
    ensures
        name_description(name).len() > 0,
        object::tags_wf(name_tags(name)),
        object::terrain_of(name_tags(name)) == terrain_for(name),
        object::has_id(name_tags(name), tag::CHARACTER_ID) == is_character_name(name),
        object::has_id(name_tags(name), tag::PORTABLE_ID) == is_portable_name(name),
        !object::has_id(name_tags(name), tag::PLAYER_ID),
        object::has_id(name_tags(name), tag::SCHEDULED_ID) == is_scheduled_name(name),
        tags_like(name_tags(name), name_tags(name)),
{
    reveal_with_fuel(object::find_id, 14);
    reveal_with_fuel(object::unique_from, 14);
    lemma_tags_like_same(name_tags(name), name_tags(name));
    match name {
        ObjectName::BerokeSoftVoice | ObjectName::HaladRackBearer | ObjectName::ImrothTheCruel | ObjectName::KahlbTheSilentHunter | ObjectName::SiballeTheUnfound | ObjectName::ThenikTheShattered | ObjectName::UrugalTheWoven => {
            reveal_strlit("One of seven broken Logros T'lan Imass worshipped as gods by the Teblor.");
            object::lemma_ids_unique(name_tags(name));
        },
        ObjectName::Doorman => {
            reveal_strlit("a royal guard");
            object::lemma_ids_unique(name_tags(name));
        },
        ObjectName::Guard => {
            reveal_strlit("a low level guard");
            object::lemma_ids_unique(name_tags(name));
        },
        ObjectName::Icarium => {
            reveal_strlit("Icarium Lifestealer, a mixed blood Jahgut. He looks extremely dangerous");
            object::lemma_ids_unique(name_tags(name));
        },
        ObjectName::Rhulad => {
            reveal_strlit("the Emperor of a Thousand Deaths");
            object::lemma_ids_unique(name_tags(name));
        },
        ObjectName::Spectator => {
            reveal_strlit("a spectator");
            object::lemma_ids_unique(name_tags(name));
        },
        _ => {},
    }
}

/// What `new_obj` makes for a name (other than the player, whose lists are made fresh)
/// follows the object rules, and its tags say what kind of object it is.
proof fn lemma_listed_object(name: ObjectName)
    requires
        name != ObjectName::Player,
    ensures
        name_description(name).len() > 0,
        object::tags_wf(name_tags(name)),
        object::terrain_of(name_tags(name)) == terrain_for(name),
        object::has_id(name_tags(name), tag::CHARACTER_ID) == is_character_name(name),
        object::has_id(name_tags(name), tag::PORTABLE_ID) == is_portable_name(name),
        !object::has_id(name_tags(name), tag::PLAYER_ID),
        object::has_id(name_tags(name), tag::SCHEDULED_ID) == is_scheduled_name(name),
        tags_like(name_tags(name), name_tags(name)),
{
    match name {
        ObjectName::LeatherChest | ObjectName::LeatherGloves | ObjectName::LeatherHat | ObjectName::LeatherLegs | ObjectName::LeatherSandals | ObjectName::GreaterArmorySign | ObjectName::LesserArmorySign | ObjectName::PickAxe | ObjectName::Broadsword | ObjectName::Dagger | ObjectName::EmperorSword | ObjectName::LongKnife | ObjectName::LongSword | ObjectName::MightySword => lemma_listed_items(name),
        ObjectName::ClosedDoor | ObjectName::DeepWater | ObjectName::Dirt | ObjectName::MetalWall | ObjectName::OpenDoor | ObjectName::Rubble | ObjectName::ShallowWater | ObjectName::StoneWall | ObjectName::Tree | ObjectName::Vitr => lemma_listed_terrain(name),
        _ => lemma_listed_npcs(name),
    }
}

/// Creates an object of the given kind. Every object created here follows the object
/// rules.
#[verifier::rlimit(100)]
pub fn new_obj(name: ObjectName) -> (obj: Object)
    ensures
        obj.spec_name() == name,
        obj.wf(),
        object::terrain_of(obj.spec_tags()) == terrain_for(name),
        obj.spec_has(tag::CHARACTER_ID) == is_character_name(name),
        obj.spec_has(tag::PORTABLE_ID) == is_portable_name(name),
        obj.spec_has(tag::PLAYER_ID) == (name == ObjectName::Player),
        obj.spec_has(tag::SCHEDULED_ID) == is_scheduled_name(name),
        tags_like(obj.spec_tags(), name_tags(name)),
        obj.spec_description() == name_description(name),
        obj.spec_symbol() == name_symbol(name),
        obj.spec_color() == name_color(name),
        made_as(obj, name),
{
    proof {
        reveal(made_as);
    }
    match name {
        ObjectName::LeatherChest => {
            let tags = vec![Tag::Name("leather chest"), Tag::Portable, Tag::Armor(Slot::Chest), Tag::Mitigation(5)];
            proof {
                assert(tags@ =~= name_tags(name));
                lemma_listed_object(name);
            }
            Object::new(name, "a leather chest", Symbol::Armor, Color::SandyBrown, tags)
        },
        ObjectName::LeatherGloves => {
            let tags = vec![Tag::Name("leather gloves"), Tag::Portable, Tag::Armor(Slot::Hands), Tag::Mitigation(3)];
            proof {
                assert(tags@ =~= name_tags(name));
                lemma_listed_object(name);
            }
            Object::new(name, "a leather gloves", Symbol::Armor, Color::SandyBrown, tags)
        },
        ObjectName::LeatherHat => {
            let tags = vec![Tag::Name("leather hat"), Tag::Portable, Tag::Armor(Slot::Head), Tag::Mitigation(3)];
            proof {
                assert(tags@ =~= name_tags(name));
                lemma_listed_object(name);
            }
            Object::new(name, "a leather hat", Symbol::Armor, Color::SandyBrown, tags)
        },
        ObjectName::LeatherLegs => {
            let tags = vec![Tag::Name("leather shin guards"), Tag::Portable, Tag::Armor(Slot::Legs), Tag::Mitigation(4)];
            proof {
                assert(tags@ =~= name_tags(name));
                lemma_listed_object(name);
            }
            Object::new(name, "leather shin guard", Symbol::Armor, Color::SandyBrown, tags)
        },
        ObjectName::LeatherSandals => {
            let tags = vec![Tag::Name("leather sandals"), Tag::Portable, Tag::Armor(Slot::Feet), Tag::Mitigation(3)];
            proof {
                assert(tags@ =~= name_tags(name));
                lemma_listed_object(name);
            }
            Object::new(name, "a leather sandals", Symbol::Armor, Color::SandyBrown, tags)
        },
        ObjectName::GreaterArmorySign => {
            let tags = vec![Tag::Sign];
            proof {
                assert(tags@ =~= name_tags(name));
                lemma_listed_object(name);
            }
            Object::new(name, "a sign that says 'the Greater Armory'", Symbol::Sign, Color::Pink, tags)
        },
        ObjectName::LesserArmorySign => {
            let tags = vec![Tag::Sign];
            proof {
                assert(tags@ =~= name_tags(name));
                lemma_listed_object(name);
            }
            Object::new(name, "a sign that says 'the Lesser Armory'", Symbol::Sign, Color::Pink, tags)
        },
        ObjectName::PickAxe => {
            let tags = vec![Tag::Name("pick-axe"), Tag::PickAxe, Tag::Delay(secs(32)), Tag::Portable];
            proof {
                assert(tags@ =~= name_tags(name));
                lemma_listed_object(name);
            }
            Object::new(name, "a pick-axe", Symbol::PickAxe, Color::Tan, tags)
        },
        ObjectName::BerokeSoftVoice|ObjectName::HaladRackBearer|ObjectName::ImrothTheCruel|ObjectName::KahlbTheSilentHunter|ObjectName::SiballeTheUnfound|ObjectName::ThenikTheShattered|ObjectName::UrugalTheWoven => {
            let tags = vec![Tag::Strength(10), Tag::Dexterity(10), Tag::Disposition(Disposition::Aggressive), Tag::Behavior(Behavior::Wandering(Time::max())), Tag::Damage(35), Tag::Delay(secs(5)), Tag::Durability(Durability { current: 170, max: 170 }), Tag::Name(broken_name(name)), Tag::Scheduled, Tag::Character];
            proof {
                assert(tags@ =~= name_tags(name));
                lemma_listed_object(name);
            }
            Object::new(name, "One of seven broken Logros T'lan Imass worshipped as gods by the Teblor.", Symbol::Npc('u'), Color::Red, tags)
        },
        ObjectName::Doorman => {
            let tags = vec![Tag::Disposition(Disposition::Friendly), Tag::Name("Doorman"), Tag::Doorman, Tag::Character];
            proof {
                assert(tags@ =~= name_tags(name));
                lemma_listed_object(name);
            }
            Object::new(name, "a royal guard", Symbol::Npc('D'), Color::Green, tags)
        },
        ObjectName::Guard => {
            let tags = vec![Tag::Strength(10), Tag::Dexterity(10), Tag::Disposition(Disposition::Neutral), Tag::Behavior(Behavior::Sleeping), Tag::Damage(6), Tag::Delay(secs(3)), Tag::Flees(50), Tag::Hearing(0), Tag::Durability(Durability { current: 30, max: 30 }), Tag::Name("a guard"), Tag::Guard, Tag::Scheduled, Tag::Character];
            proof {
                assert(tags@ =~= name_tags(name));
                lemma_listed_object(name);
            }
            Object::new(name, "a low level guard", Symbol::Npc('g'), Color::Green, tags)
        },
        ObjectName::Icarium => {
            let tags = vec![Tag::Strength(10), Tag::Dexterity(20), Tag::Disposition(Disposition::Neutral), Tag::Behavior(Behavior::Wandering(Time::max())), Tag::Damage(45), Tag::Delay(secs(3)), Tag::Durability(Durability { current: 500, max: 500 }), Tag::Name("Icarium"), Tag::Icarium, Tag::Scheduled, Tag::Character];
            proof {
                assert(tags@ =~= name_tags(name));
                lemma_listed_object(name);
            }
            Object::new(name, "Icarium Lifestealer, a mixed blood Jahgut. He looks extremely dangerous", Symbol::Npc('I'), Color::LightGrey, tags)
        },
        ObjectName::Player => {
            let inventory: Vec<Oid> = Vec::new();
            let equipped = empty_equipment();
            proof {
                assert(inventory@ =~= Seq::<Oid>::empty());
                assert(equipped@ =~= Seq::new(7, |i: int| None::<Oid>));
            }
            let tags = vec![Tag::Strength(10), Tag::Dexterity(10), Tag::Durability(Durability { current: 100, max: 100 }), Tag::Damage(6), Tag::Delay(secs(2)), Tag::Inventory(inventory), Tag::Equipped(equipped), Tag::Name("yourself"), Tag::CanOpenDoor, Tag::Player, Tag::Scheduled, Tag::Character];
            proof {
                reveal_with_fuel(object::find_id, 14);
                reveal_with_fuel(object::unique_from, 14);
                reveal_strlit("yourself");
                object::lemma_ids_unique(tags@);
                let listed = name_tags(name);
                assert forall|i: int| 0 <= i < tags@.len() implies same_tag(#[trigger] tags@[i], listed[i]) by {
                    if i != 5 && i != 6 {
                        assert(tags@[i] == listed[i]);
                    }
                }
            }
            Object::new(name, "yourself", Symbol::Player, Color::Linen, tags)
        },
        ObjectName::Rhulad => {
            let tags = vec![Tag::Strength(10), Tag::Dexterity(10), Tag::Disposition(Disposition::Aggressive), Tag::Behavior(Behavior::Sleeping), Tag::Damage(24), Tag::Delay(secs(4)), Tag::Durability(Durability { current: 100, max: 100 }), Tag::Name("Rhulad"), Tag::Rhulad, Tag::Scheduled, Tag::Character];
            proof {
                assert(tags@ =~= name_tags(name));
                lemma_listed_object(name);
            }
            Object::new(name, "the Emperor of a Thousand Deaths", Symbol::Npc('R'), Color::Red, tags)
        },
        ObjectName::Spectator => {
            let tags = vec![Tag::Strength(10), Tag::Dexterity(10), Tag::Disposition(Disposition::Neutral), Tag::Behavior(Behavior::Sleeping), Tag::Hearing(0), Tag::Durability(Durability { current: 33, max: 33 }), Tag::Name("Spectator"), Tag::Spectator, Tag::Scheduled, Tag::Character];
            proof {
                assert(tags@ =~= name_tags(name));
                lemma_listed_object(name);
            }
            Object::new(name, "a spectator", Symbol::Npc('s'), Color::Plum, tags)
        },
        ObjectName::ClosedDoor => {
            let tags = door_tags(Color::Black, Material::Stone, false);
            proof {
                assert(tags@ =~= name_tags(name));
                lemma_listed_object(name);
            }
            Object::new(name, "a closed door", Symbol::ClosedDoor, Color::Yellow, tags)
        },
        ObjectName::DeepWater => {
            let tags = vec![Tag::Terrain(Terrain::DeepWater), Tag::Background(Color::LightBlue), Tag::Scheduled];
            proof {
                assert(tags@ =~= name_tags(name));
                lemma_listed_object(name);
            }
            Object::new(name, "deep water", Symbol::DeepLiquid, Color::Blue, tags)
        },
        ObjectName::Dirt => {
            let tags = vec![Tag::Terrain(Terrain::Ground), Tag::Background(Color::Black)];
            proof {
                assert(tags@ =~= name_tags(name));
                lemma_listed_object(name);
            }
            Object::new(name, "a patch of dirt", Symbol::Dirt, Color::LightSlateGray, tags)
        },
        ObjectName::MetalWall => {
            let tags = wall_tags(Color::Black, Material::Metal);
            proof {
                assert(tags@ =~= name_tags(name));
                lemma_listed_object(name);
            }
            Object::new(name, "a metal wall", Symbol::Wall, Color::Silver, tags)
        },
        ObjectName::OpenDoor => {
            let tags = door_tags(Color::Black, Material::Stone, true);
            proof {
                assert(tags@ =~= name_tags(name));
                lemma_listed_object(name);
            }
            Object::new(name, "an open door", Symbol::OpenDoor, Color::Yellow, tags)
        },
        ObjectName::Rubble => {
            let tags = vec![Tag::Terrain(Terrain::Ground), Tag::Background(Color::Black)];
            proof {
                assert(tags@ =~= name_tags(name));
                lemma_listed_object(name);
            }
            Object::new(name, "a destroyed wall", Symbol::Rubble, Color::Chocolate, tags)
        },
        ObjectName::ShallowWater => {
            let tags = vec![Tag::Terrain(Terrain::ShallowWater), Tag::Background(Color::LightBlue), Tag::Scheduled];
            proof {
                assert(tags@ =~= name_tags(name));
                lemma_listed_object(name);
            }
            Object::new(name, "shallow water", Symbol::ShallowLiquid, Color::Blue, tags)
        },
        ObjectName::StoneWall => {
            let tags = wall_tags(Color::Black, Material::Stone);
            proof {
                assert(tags@ =~= name_tags(name));
                lemma_listed_object(name);
            }
            Object::new(name, "a stone wall", Symbol::Wall, Color::Chocolate, tags)
        },
        ObjectName::Tree => {
            let tags = vec![Tag::Terrain(Terrain::Tree), Tag::Background(Color::Black)];
            proof {
                assert(tags@ =~= name_tags(name));
                lemma_listed_object(name);
            }
            Object::new(name, "a tree", Symbol::Tree, Color::ForestGreen, tags)
        },
        ObjectName::Vitr => {
            let tags = vec![Tag::Terrain(Terrain::Vitr), Tag::Background(Color::Black)];
            proof {
                assert(tags@ =~= name_tags(name));
                lemma_listed_object(name);
            }
            Object::new(name, "a pool of chaotic acid", Symbol::DeepLiquid, Color::Gold, tags)
        },
        ObjectName::Broadsword => {
            let tags = vec![Tag::Name("broadsword"), Tag::Portable, Tag::Weapon(Weapon::OneHand), Tag::Damage(12), Tag::Delay(secs(3)), Tag::Strength(4), Tag::Dexterity(8), Tag::Crit(10)];
            proof {
                assert(tags@ =~= name_tags(name));
                lemma_listed_object(name);
            }
            Object::new(name, "a dull broadsword", Symbol::WeakSword, Color::Silver, tags)
        },
        ObjectName::Dagger => {
            let tags = vec![Tag::Name("dagger"), Tag::Portable, Tag::Weapon(Weapon::OneHand), Tag::Damage(12), Tag::Delay(secs(3)), Tag::Strength(4), Tag::Dexterity(8), Tag::Crit(10)];
            proof {
                assert(tags@ =~= name_tags(name));
                lemma_listed_object(name);
            }
            Object::new(name, "a pointy dagger", Symbol::WeakSword, Color::Silver, tags)
        },
        ObjectName::EmperorSword => {
            let tags = vec![Tag::Name("Sword of the Crippled God"), Tag::Weapon(Weapon::TwoHander), Tag::Portable, Tag::EmpSword, Tag::Damage(50), Tag::Delay(secs(5)), Tag::Crit(3), Tag::Strength(7), Tag::Dexterity(20)];
            proof {
                assert(tags@ =~= name_tags(name));
                lemma_listed_object(name);
            }
            Object::new(name, "the Sword of the Crippled God", Symbol::StrongSword, Color::Silver, tags)
        },
        ObjectName::LongKnife => {
            let tags = vec![Tag::Name("long knife"), Tag::Portable, Tag::Weapon(Weapon::OneHand), Tag::Damage(12), Tag::Delay(secs(3)), Tag::Strength(4), Tag::Dexterity(8), Tag::Crit(10)];
            proof {
                assert(tags@ =~= name_tags(name));
                lemma_listed_object(name);
            }
            Object::new(name, "a shiny long knife", Symbol::WeakSword, Color::Silver, tags)
        },
        ObjectName::LongSword => {
            let tags = vec![Tag::Name("long sword"), Tag::Portable, Tag::Weapon(Weapon::OneHand), Tag::Damage(12), Tag::Delay(secs(3)), Tag::Strength(4), Tag::Dexterity(8), Tag::Crit(10)];
            proof {
                assert(tags@ =~= name_tags(name));
                lemma_listed_object(name);
            }
            Object::new(name, "a nicked long sword", Symbol::WeakSword, Color::Silver, tags)
        },
        ObjectName::MightySword => {
            let tags = vec![Tag::Name("Sword of Impending Doom"), Tag::Portable, Tag::Weapon(Weapon::TwoHander), Tag::Damage(40), Tag::Delay(secs(5)), Tag::Strength(6), Tag::Dexterity(15), Tag::Crit(2)];
            proof {
                assert(tags@ =~= name_tags(name));
                lemma_listed_object(name);
            }
            Object::new(name, "the Sword of Impending Doom", Symbol::StrongSword, Color::Silver, tags)
        },
    }
}


// ---- level maps --------------------------------------------------------------------------

/// The terrain that a map character puts down: dirt for a space, under a character or an
/// item, and for a character that the map does not know.
pub open spec fn map_terrain(c: char) -> ObjectName {
    if c == '#' {
        ObjectName::StoneWall
    } else if c == 'M' {
        ObjectName::MetalWall
    } else if c == '+' {
        ObjectName::ClosedDoor
    } else if c == '~' {
        ObjectName::ShallowWater
    } else if c == 'V' {
        ObjectName::Vitr
    } else if c == 'T' {
        ObjectName::Tree
    } else if c == 'W' {
        ObjectName::DeepWater
    } else {
        ObjectName::Dirt
    }
}

/// Every map character lays terrain, and the terrain is the one the character shows:
/// '#' and 'M' walls, '+' a closed door, '~' shallow water, 'W' deep water, 'V' vitr, 'T'
/// trees, and a blank (like anything else) open ground.
pub proof fn law_map_terrain(c: char)
    ensures
        object::terrain_of(name_tags(map_terrain(c))) is Some,
        c == '#' || c == 'M' ==> object::terrain_of(name_tags(map_terrain(c))) == Some(Terrain::Wall),
        c == '+' ==> object::terrain_of(name_tags(map_terrain(c))) == Some(Terrain::ClosedDoor),
        c == '~' ==> object::terrain_of(name_tags(map_terrain(c))) == Some(Terrain::ShallowWater),
        c == 'W' ==> object::terrain_of(name_tags(map_terrain(c))) == Some(Terrain::DeepWater),
        c == 'V' ==> object::terrain_of(name_tags(map_terrain(c))) == Some(Terrain::Vitr),
        c == 'T' ==> object::terrain_of(name_tags(map_terrain(c))) == Some(Terrain::Tree),
        c == ' ' ==> object::terrain_of(name_tags(map_terrain(c))) == Some(Terrain::Ground),
{
    lemma_listed_terrain(map_terrain(c));
}

/// The character or item that a map character puts on its dirt (a weak sword, `'s'`, is
/// picked at random and is not listed here).
pub open spec fn map_occupant(c: char) -> Option<ObjectName> {
    if c == 'P' {
        Some(ObjectName::Player)
    } else if c == 'D' {
        Some(ObjectName::Doorman)
    } else if c == 'I' {
        Some(ObjectName::Icarium)
    } else if c == 'g' {
        Some(ObjectName::Guard)
    } else if c == 'o' {
        Some(ObjectName::Spectator)
    } else if c == 'R' {
        Some(ObjectName::Rhulad)
    } else if c == 'p' {
        Some(ObjectName::PickAxe)
    } else if c == 'S' {
        Some(ObjectName::MightySword)
    } else if c == 'a' {
        Some(ObjectName::LesserArmorySign)
    } else if c == 'b' {
        Some(ObjectName::GreaterArmorySign)
    } else {
        None
    }
}

/// The swords that a `'s'` on the map can be.
pub open spec fn is_weak_sword(name: ObjectName) -> bool {
    name == ObjectName::LongSword || name == ObjectName::Broadsword || name == ObjectName::LongKnife
        || name == ObjectName::Dagger
}

/// The map character puts something on its dirt.
pub open spec fn has_occupant(c: char) -> bool {
    map_occupant(c) is Some || c == 's'
}

/// The map character is one that the map format knows.
pub open spec fn map_char_known(c: char) -> bool {
    c == '\n' || c == ' ' || map_terrain(c) != ObjectName::Dirt || has_occupant(c)
}

/// The map character puts down an NPC.
pub open spec fn is_npc_char(c: char) -> bool {
    map_occupant(c) matches Some(name) && is_character_name(name) && name != ObjectName::Player
}

/// How many ids the map character takes from the lookup's counter (the player has an id
/// of its own).
pub open spec fn ids_taken(c: char) -> nat {
    if c == '\n' {
        0
    } else if has_occupant(c) && c != 'P' {
        2
    } else {
        1
    }
}

/// The id of what stands on the terrain of a map character whose terrain got `first`.
pub open spec fn occupant_id(c: char, first: int) -> Oid {
    if c == 'P' {
        Oid { value: 0 }
    } else {
        Oid { value: (first + 1) as u32 }
    }
}

/// The cell that a map character makes when its terrain gets the id `first`: the terrain
/// at the bottom, and what stands on it above.
pub open spec fn cell_ids(c: char, first: int) -> Seq<Oid> {
    if has_occupant(c) {
        seq![Oid { value: first as u32 }, occupant_id(c, first)]
    } else {
        seq![Oid { value: first as u32 }]
    }
}

/// The entries hold the objects of a map character at the location, its terrain with the
/// id `first`: the terrain it names, and what it puts on it.
pub open spec fn char_objects_ok(entries: Map<Oid, Entry>, c: char, first: int, loc: Point) -> bool {
    let t = Oid { value: first as u32 };
    let o = occupant_id(c, first);
    &&& entries.contains_key(t)
    &&& made_as(entries[t].obj, map_terrain(c))
    &&& entries[t].loc == Some(loc)
    &&& has_occupant(c) ==> {
        &&& entries.contains_key(o)
        &&& entries[o].loc == Some(loc)
        &&& match map_occupant(c) {
            Some(name) => made_as(entries[o].obj, name),
            None => is_weak_sword(entries[o].obj.spec_name()) && made_as(entries[o].obj, entries[o].obj.spec_name()),
        }
    }
}

/// The terrain that the map character names.
fn terrain_name(c: char) -> (r: ObjectName)
    ensures
        r == map_terrain(c),
{
    match c {
        '#' => ObjectName::StoneWall,
        'M' => ObjectName::MetalWall,
        '+' => ObjectName::ClosedDoor,
        '~' => ObjectName::ShallowWater,
        'V' => ObjectName::Vitr,
        'T' => ObjectName::Tree,
        'W' => ObjectName::DeepWater,
        _ => ObjectName::Dirt,
    }
}

/// What the map character puts on its dirt, if it names it.
fn occupant_name(c: char) -> (r: Option<ObjectName>)
    ensures
        r == map_occupant(c),
{
    match c {
        'P' => Some(ObjectName::Player),
        'D' => Some(ObjectName::Doorman),
        'I' => Some(ObjectName::Icarium),
        'g' => Some(ObjectName::Guard),
        'o' => Some(ObjectName::Spectator),
        'R' => Some(ObjectName::Rhulad),
        'p' => Some(ObjectName::PickAxe),
        'S' => Some(ObjectName::MightySword),
        'a' => Some(ObjectName::LesserArmorySign),
        'b' => Some(ObjectName::GreaterArmorySign),
        _ => None,
    }
}

/// One of the weak swords, picked at random.
fn weak_sword(rng: &mut SmallRng) -> (obj: Object)
    ensures
        is_weak_sword(obj.spec_name()),
        made_as(obj, obj.spec_name()),
        !obj.spec_has(tag::PLAYER_ID),
        !obj.spec_has(tag::CHARACTER_ID),
{
    let swords = vec![ObjectName::LongSword, ObjectName::Broadsword, ObjectName::LongKnife, ObjectName::Dagger];
    match choose_one(&swords, rng) {
        Some(name) => {
            proof {
                let i = choose|i: int| 0 <= i < swords@.len() && swords@[i] == name;
                assert(swords@[i] == name);
            }
            new_obj(name)
        },
        None => new_obj(ObjectName::LongSword),
    }
}

/// What putting down a map character (not a newline) at the location, a new cell, does to
/// the lookup: the character's cell, its objects under new ids, and nothing else changed.
#[verifier::opaque]
spec fn placed(before: Lookup, after: Lookup, c: char, loc: Point) -> bool {
    let first = before.spec_next_id() as int;
    &&& after.spec_next_id() == first + ids_taken(c)
    &&& after.cells() == before.cells().insert(key(loc), cell_ids(c, first))
    &&& forall|k: Oid| #[trigger] after.entries().contains_key(k) <==> (before.entries().contains_key(k)
        || cell_ids(c, first).contains(k))
    &&& forall|k: Oid| #[trigger] before.entries().contains_key(k) ==> after.entries()[k] == before.entries()[k]
    &&& char_objects_ok(after.entries(), c, first, loc)
    &&& after.spec_npcs() == if is_npc_char(c) {
        before.spec_npcs().push(occupant_id(c, first))
    } else {
        before.spec_npcs()
    }
    &&& after.spec_player_loc() == if c == 'P' {
        loc
    } else {
        before.spec_player_loc()
    }
    &&& after.spec_default() == before.spec_default()
    &&& after.spec_constructing() == before.spec_constructing()
    &&& before.cells_exist() ==> after.cells_exist()
}

/// The lookup can take a map character (not a newline) at the location: its ids are free
/// and fit, and the location is not a cell yet.
spec fn can_place(lookup: Lookup, c: char, loc: Point) -> bool {
    &&& c != '\n'
    &&& lookup.spec_next_id() + ids_taken(c) < u32::MAX
    &&& !lookup.entries().contains_key(Oid { value: lookup.spec_next_id() })
    &&& ids_taken(c) == 2 ==> !lookup.entries().contains_key(Oid { value: (lookup.spec_next_id() + 1) as u32 })
    &&& c == 'P' ==> !lookup.entries().contains_key(Oid { value: 0 }) && lookup.spec_next_id() != 0
    &&& !lookup.cells().contains_key(key(loc))
}

/// Puts down what one map character (not a newline) makes at the location, a new cell.
fn place(lookup: &mut Lookup, c: char, loc: Point, rng: &mut SmallRng)
    requires
        can_place(*old(lookup), c, loc),
    ensures
        placed(*old(lookup), *final(lookup), c, loc),
{
    reveal(placed);
    let ghost first = old(lookup).spec_next_id() as int;
    let terrain = new_obj(terrain_name(c));
    let t = lookup.add(terrain, Some(loc));
    assert(t == Oid { value: first as u32 });
    let ghost mid = *lookup;
    let occupant = match occupant_name(c) {
        Some(name) => Some(new_obj(name)),
        None => if c == 's' {
            Some(weak_sword(rng))
        } else {
            None
        },
    };
    proof {
        assert(occupant is Some <==> has_occupant(c));
        if occupant is Some {
            let obj = occupant->0;
            assert(obj.spec_has(tag::PLAYER_ID) <==> c == 'P');
            assert(obj.spec_has(tag::CHARACTER_ID) <==> (is_npc_char(c) || c == 'P'));
            match map_occupant(c) {
                Some(name) => assert(made_as(obj, name)),
                None => assert(is_weak_sword(obj.spec_name()) && made_as(obj, obj.spec_name())),
            }
        }
    }
    match occupant {
        Some(obj) => {
            let ghost o_obj = obj;
            let o = lookup.add(obj, Some(loc));
            proof {
                assert(has_occupant(c));
                assert(o == occupant_id(c, first));
                let cell = cell_ids(c, first);
                assert(cell =~= seq![t, o]);
                assert(mid.cells()[key(loc)] =~= seq![t]);
                assert(seq![t].push(o) =~= cell);
                assert(lookup.cells() =~= old(lookup).cells().insert(key(loc), cell));
                assert(lookup.entries()[t] == mid.entries()[t]);
                assert(cell[0] == t && cell[1] == o);
                assert forall|k: Oid| #[trigger] lookup.entries().contains_key(k) <==> (old(lookup).entries().contains_key(k)
                    || cell.contains(k)) by {
                    if cell.contains(k) {
                        let i = choose|i: int| 0 <= i < cell.len() && cell[i] == k;
                        assert(i == 0 || i == 1);
                    }
                    if k == t {
                        assert(cell.contains(k));
                    }
                    if k == o {
                        assert(cell.contains(k));
                    }
                }
            }
        },
        None => {
            proof {
                let cell = cell_ids(c, first);
                assert(lookup.cells() =~= old(lookup).cells().insert(key(loc), cell));
                assert(cell[0] == t);
                assert forall|k: Oid| #[trigger] lookup.entries().contains_key(k) <==> (old(lookup).entries().contains_key(k)
                    || cell.contains(k)) by {
                    if k == t {
                        assert(cell.contains(k));
                    }
                }
            }
        },
    }
}


/// The location of the n-th character of a level map: each row starts at x = 0, and the
/// first row is y = 0.
pub open spec fn map_pos(map: Seq<char>, n: nat) -> (int, int)
    decreases n,
{
    if n == 0 {
        (0, 0)
    } else {
        let prev = map_pos(map, (n - 1) as nat);
        if map[n - 1] == '\n' {
            (0, prev.1 + 1)
        } else {
            (prev.0 + 1, prev.1)
        }
    }
}

pub open spec fn map_point(map: Seq<char>, n: nat) -> Point {
    Point { x: map_pos(map, n).0 as i32, y: map_pos(map, n).1 as i32 }
}

/// How many ids the first n characters of the map take from the lookup's counter.
pub open spec fn ids_before(map: Seq<char>, n: nat) -> nat
    decreases n,
{
    if n == 0 {
        0
    } else {
        ids_before(map, (n - 1) as nat) + ids_taken(map[n - 1])
    }
}

/// The id that the terrain of the n-th map character gets, the counter starting at `next`.
pub open spec fn first_id(map: Seq<char>, n: nat, next: int) -> int {
    next + ids_before(map, n)
}

/// The cells that the first n characters of the map make.
pub open spec fn map_cells(map: Seq<char>, n: nat, next: int) -> Map<(i32, i32), Seq<Oid>>
    decreases n,
{
    if n == 0 {
        Map::empty()
    } else {
        let cells = map_cells(map, (n - 1) as nat, next);
        if map[n - 1] == '\n' {
            cells
        } else {
            cells.insert(
                key(map_point(map, (n - 1) as nat)),
                cell_ids(map[n - 1], first_id(map, (n - 1) as nat, next)),
            )
        }
    }
}

/// The NPCs that the first n characters of the map put down, in order.
pub open spec fn map_npcs(map: Seq<char>, n: nat, next: int) -> Seq<Oid>
    decreases n,
{
    if n == 0 {
        Seq::empty()
    } else {
        let prev = map_npcs(map, (n - 1) as nat, next);
        if is_npc_char(map[n - 1]) {
            prev.push(occupant_id(map[n - 1], first_id(map, (n - 1) as nat, next)))
        } else {
            prev
        }
    }
}

/// The characters among the first n of the map that it does not know, in order.
pub open spec fn ignored_chars(map: Seq<char>, n: nat) -> Seq<char>
    decreases n,
{
    if n == 0 {
        Seq::empty()
    } else {
        let prev = ignored_chars(map, (n - 1) as nat);
        if map_char_known(map[n - 1]) {
            prev
        } else {
            prev.push(map[n - 1])
        }
    }
}

/// The warning about a map character that the map does not know.
pub open spec fn ignore_text(c: char) -> Seq<char> {
    "Ignoring map char '"@.push(c).push('\'')
}

/// The warnings about the characters among the first n of the map that it does not know:
/// an error each, in order.
pub open spec fn warnings_ok(messages: Seq<Message>, map: Seq<char>, n: nat) -> bool {
    let ignored = ignored_chars(map, n);
    &&& messages.len() == ignored.len()
    &&& forall|i: int| 0 <= i < messages.len() ==> (#[trigger] messages[i]).topic == Topic::Error
        && messages[i].text@ == ignore_text(ignored[i])
}

/// Where the first n characters of the map put the player, if they do.
pub open spec fn player_at(map: Seq<char>, n: nat) -> Option<Point>
    decreases n,
{
    if n == 0 {
        None
    } else if map[n - 1] == 'P' {
        Some(map_point(map, (n - 1) as nat))
    } else {
        player_at(map, (n - 1) as nat)
    }
}

/// The id is one that the first n characters of the map give out.
pub open spec fn map_id(map: Seq<char>, n: nat, next: int, k: Oid) -> bool {
    ||| next <= k.value < next + ids_before(map, n)
    ||| k.value == 0 && player_at(map, n) is Some
}

/// The map can be read into the lookup: every location and id fits its integer type, the
/// ids that the map takes are free, the player (if the map has one) is on it once and is
/// not in the lookup yet, and the map's locations are not cells yet.
pub open spec fn map_fits(lookup: Lookup, map: Seq<char>) -> bool {
    let next = lookup.spec_next_id() as int;
    let taken = ids_before(map, map.len());
    &&& map.len() < 0x7fff_0000
    &&& next + taken < u32::MAX
    &&& forall|j: u32| next <= j < next + taken ==> !#[trigger] lookup.entries().contains_key(Oid { value: j })
    &&& forall|i: int, j: int| 0 <= i < map.len() && 0 <= j < map.len() && map[i] == 'P' && map[j] == 'P' ==> i == j
    &&& player_at(map, map.len()) is Some ==> next >= 1 && !lookup.entries().contains_key(Oid { value: 0 })
    &&& forall|i: int| 0 <= i < map.len() && map[i] != '\n' ==> !lookup.cells().contains_key(
        #[trigger] key(map_point(map, i as nat)),
    )
}

proof fn lemma_map_pos_bounds(map: Seq<char>, n: nat)
    requires
        n <= map.len(),
    ensures
        0 <= map_pos(map, n).0 <= n,
        0 <= map_pos(map, n).1 <= n,
    decreases n,
{
    if n > 0 {
        lemma_map_pos_bounds(map, (n - 1) as nat);
    }
}

/// Later characters are on a later row, or further along the same row.
proof fn lemma_map_pos_order(map: Seq<char>, i: nat, j: nat)
    requires
        i <= j <= map.len(),
    ensures
        map_pos(map, j).1 > map_pos(map, i).1 || (map_pos(map, j).1 == map_pos(map, i).1 && map_pos(map, j).0
            == map_pos(map, i).0 + (j - i)),
    decreases j - i,
{
    if j > i {
        lemma_map_pos_order(map, i, (j - 1) as nat);
    }
}

/// Two characters of the map that are not newlines are at different locations.
proof fn lemma_map_points_distinct(map: Seq<char>, i: nat, j: nat)
    requires
        i < j < map.len(),
        map.len() < 0x7fff_0000,
        map[i as int] != '\n',
    ensures
        key(map_point(map, i)) != key(map_point(map, j)),
{
    lemma_map_pos_order(map, i + 1, j);
    lemma_map_pos_bounds(map, i);
    lemma_map_pos_bounds(map, j);
}

proof fn lemma_ids_before_mono(map: Seq<char>, i: nat, j: nat)
    requires
        i <= j <= map.len(),
    ensures
        ids_before(map, i) <= ids_before(map, j),
    decreases j - i,
{
    if i < j {
        lemma_ids_before_mono(map, i, (j - 1) as nat);
    }
}

/// A location of a later character is not yet among the cells of the first n.
proof fn lemma_map_cells_fresh(map: Seq<char>, n: nat, i: nat, next: int)
    requires
        n <= i < map.len(),
        map.len() < 0x7fff_0000,
    ensures
        !map_cells(map, n, next).contains_key(key(map_point(map, i))),
    decreases n,
{
    if n > 0 {
        lemma_map_cells_fresh(map, (n - 1) as nat, i, next);
        if map[n - 1] != '\n' {
            lemma_map_points_distinct(map, (n - 1) as nat, i);
        }
    }
}

/// The cell of each character among the first n of the map is the one it makes.
proof fn lemma_map_cells_at(map: Seq<char>, n: nat, i: nat, next: int)
    requires
        i < n <= map.len(),
        map.len() < 0x7fff_0000,
        map[i as int] != '\n',
    ensures
        map_cells(map, n, next).contains_key(key(map_point(map, i))),
        map_cells(map, n, next)[key(map_point(map, i))] == cell_ids(map[i as int], first_id(map, i, next)),
    decreases n,
{
    if n - 1 > i {
        lemma_map_cells_at(map, (n - 1) as nat, i, next);
        if map[n - 1] != '\n' {
            lemma_map_points_distinct(map, i, (n - 1) as nat);
        }
    }
}

/// Only a `'P'` among the first n characters puts the player down.
proof fn lemma_player_at(map: Seq<char>, n: nat)
    requires
        n <= map.len(),
    ensures
        player_at(map, n) is Some ==> exists|j: int| 0 <= j < n && map[j] == 'P',
    decreases n,
{
    if n > 0 {
        lemma_player_at(map, (n - 1) as nat);
        if map[n - 1] == 'P' {
            assert(map[n - 1] == 'P');
        }
    }
}

/// The lookup holds what the first n characters of the map put into the start lookup.
#[verifier::opaque]
spec fn read_so_far(start: Lookup, cur: Lookup, map: Seq<char>, n: nat) -> bool {
    let next = start.spec_next_id() as int;
    &&& cur.spec_next_id() == next + ids_before(map, n)
    &&& cur.cells() == start.cells().union_prefer_right(map_cells(map, n, next))
    &&& forall|k: Oid| #[trigger] cur.entries().contains_key(k) <==> (start.entries().contains_key(k)
        || map_id(map, n, next, k))
    &&& forall|k: Oid| #[trigger] start.entries().contains_key(k) ==> cur.entries()[k] == start.entries()[k]
    &&& forall|j: int| 0 <= j < n && map[j] != '\n' ==> char_objects_ok(
        cur.entries(),
        #[trigger] map[j],
        first_id(map, j as nat, next),
        map_point(map, j as nat),
    )
    &&& cur.spec_npcs() == start.spec_npcs() + map_npcs(map, n, next)
    &&& cur.spec_player_loc() == match player_at(map, n) {
        Some(p) => p,
        None => start.spec_player_loc(),
    }
    &&& cur.spec_default() == start.spec_default()
    &&& cur.spec_constructing() == start.spec_constructing()
    &&& start.cells_exist() ==> cur.cells_exist()
}

proof fn lemma_player_at_later(map: Seq<char>, n: nat, m: nat)
    requires
        n < m <= map.len(),
        map[n as int] == 'P',
    ensures
        player_at(map, m) is Some,
    decreases m,
{
    if m - 1 > n {
        lemma_player_at_later(map, n, (m - 1) as nat);
    }
}

/// A newline takes nothing and puts nothing down.
#[verifier::rlimit(40)]
proof fn lemma_read_newline(start: Lookup, cur: Lookup, map: Seq<char>, n: nat)
    requires
        n < map.len(),
        map[n as int] == '\n',
        read_so_far(start, cur, map, n),
    ensures
        read_so_far(start, cur, map, n + 1),
{
    reveal(read_so_far);
    let next = start.spec_next_id() as int;
    assert(map_cells(map, n + 1, next) == map_cells(map, n, next));
    assert(map_npcs(map, n + 1, next) == map_npcs(map, n, next));
    assert(player_at(map, n + 1) == player_at(map, n));
    assert forall|j: int| 0 <= j < n + 1 && map[j] != '\n' implies char_objects_ok(
        cur.entries(),
        #[trigger] map[j],
        first_id(map, j as nat, next),
        map_point(map, j as nat),
    ) by {
        assert(j < n);
    }
}

/// What the lookup holds after the first n characters lets it take the next one.
proof fn lemma_read_can_place(start: Lookup, cur: Lookup, map: Seq<char>, n: nat)
    requires
        n < map.len(),
        map[n as int] != '\n',
        map_fits(start, map),
        read_so_far(start, cur, map, n),
    ensures
        can_place(cur, map[n as int], map_point(map, n)),
{
    reveal(read_so_far);
    let next = start.spec_next_id() as int;
    let c = map[n as int];
    lemma_ids_before_mono(map, n + 1, map.len());
    lemma_map_cells_fresh(map, n, n, next);
    assert(!start.cells().contains_key(key(map_point(map, n))));
    let first = cur.spec_next_id();
    lemma_player_at(map, n);
    if player_at(map, n) is Some {
        let j = choose|j: int| 0 <= j < n && map[j] == 'P';
        lemma_player_at_later(map, j as nat, map.len());
    }
    assert(!start.entries().contains_key(Oid { value: first }));
    assert(!map_id(map, n, next, Oid { value: first }));
    assert(!cur.entries().contains_key(Oid { value: first }));
    if ids_taken(c) == 2 {
        assert(!start.entries().contains_key(Oid { value: (first + 1) as u32 }));
        assert(!map_id(map, n, next, Oid { value: (first + 1) as u32 }));
    }
    if c == 'P' {
        lemma_player_at_later(map, n, map.len());
        if player_at(map, n) is Some {
            let j = choose|j: int| 0 <= j < n && map[j] == 'P';
            assert(map[j] == 'P' && map[n as int] == 'P');
        }
        assert(!map_id(map, n, next, Oid { value: 0 }));
    }
    assert(!cur.cells().contains_key(key(map_point(map, n))));
}

/// The ids after the next character of the map are those before and its cell's.
proof fn lemma_read_placed_ids(
    start: Map<Oid, Entry>,
    prev: Map<Oid, Entry>,
    cur: Map<Oid, Entry>,
    map: Seq<char>,
    n: nat,
    next: int,
)
    requires
        n < map.len(),
        map[n as int] != '\n',
        next >= 0,
        forall|i: int, j: int| 0 <= i < map.len() && 0 <= j < map.len() && map[i] == 'P' && map[j] == 'P' ==> i == j,
        forall|k: Oid| #[trigger] prev.contains_key(k) <==> (start.contains_key(k) || map_id(map, n, next, k)),
        forall|k: Oid| #[trigger] cur.contains_key(k) <==> (prev.contains_key(k) || cell_ids(
            map[n as int],
            first_id(map, n, next),
        ).contains(k)),
        next + ids_before(map, n + 1) < u32::MAX,
    ensures
        forall|k: Oid| #[trigger] cur.contains_key(k) <==> (start.contains_key(k) || map_id(map, n + 1, next, k)),
{
    let c = map[n as int];
    let first = first_id(map, n, next);
    let cell = cell_ids(c, first);
    if c == 'P' {
        lemma_player_at(map, n);
        if player_at(map, n) is Some {
            let j = choose|j: int| 0 <= j < n && map[j] == 'P';
            assert(map[j] == 'P' && map[n as int] == 'P');
        }
    }
    assert forall|k: Oid| #[trigger] cur.contains_key(k) <==> (start.contains_key(k) || map_id(map, n + 1, next, k)) by {
        if cell.contains(k) {
            let i = choose|i: int| 0 <= i < cell.len() && cell[i] == k;
            assert(i == 0 || i == 1);
        }
        if map_id(map, n + 1, next, k) && !map_id(map, n, next, k) {
            if k.value == first {
                assert(cell[0] == k);
            } else {
                assert(cell[1] == k);
            }
        }
    }
}

/// The objects of a map character stay where entries are only added.
proof fn lemma_objects_kept(before: Map<Oid, Entry>, after: Map<Oid, Entry>, c: char, first: int, loc: Point)
    requires
        char_objects_ok(before, c, first, loc),
        forall|k: Oid| #[trigger] before.contains_key(k) ==> after.contains_key(k) && after[k] == before[k],
    ensures
        char_objects_ok(after, c, first, loc),
{
    assert(before.contains_key(Oid { value: first as u32 }));
    if has_occupant(c) {
        assert(before.contains_key(occupant_id(c, first)));
    }
}

/// The objects of the characters so far stay, and the next one's join them.
proof fn lemma_read_placed_objects(
    prev: Map<Oid, Entry>,
    cur: Map<Oid, Entry>,
    map: Seq<char>,
    n: nat,
    next: int,
)
    requires
        n < map.len(),
        forall|j: int| 0 <= j < n && map[j] != '\n' ==> char_objects_ok(
            prev,
            #[trigger] map[j],
            first_id(map, j as nat, next),
            map_point(map, j as nat),
        ),
        forall|k: Oid| #[trigger] prev.contains_key(k) ==> cur.contains_key(k) && cur[k] == prev[k],
        map[n as int] != '\n' ==> char_objects_ok(cur, map[n as int], first_id(map, n, next), map_point(map, n)),
    ensures
        forall|j: int| 0 <= j < n + 1 && map[j] != '\n' ==> char_objects_ok(
            cur,
            #[trigger] map[j],
            first_id(map, j as nat, next),
            map_point(map, j as nat),
        ),
{
    assert forall|j: int| 0 <= j < n + 1 && map[j] != '\n' implies char_objects_ok(
        cur,
        #[trigger] map[j],
        first_id(map, j as nat, next),
        map_point(map, j as nat),
    ) by {
        if j < n {
            lemma_objects_kept(prev, cur, map[j], first_id(map, j as nat, next), map_point(map, j as nat));
        }
    }
}

/// Putting down the next character of the map extends what the lookup holds by it.
#[verifier::rlimit(60)]
proof fn lemma_read_placed(start: Lookup, prev: Lookup, cur: Lookup, map: Seq<char>, n: nat)
    requires
        n < map.len(),
        map[n as int] != '\n',
        map_fits(start, map),
        read_so_far(start, prev, map, n),
        placed(prev, cur, map[n as int], map_point(map, n)),
    ensures
        read_so_far(start, cur, map, n + 1),
{
    reveal(read_so_far);
    reveal(placed);
    let next = start.spec_next_id() as int;
    lemma_ids_before_mono(map, n + 1, map.len());
    lemma_read_placed_ids(start.entries(), prev.entries(), cur.entries(), map, n, next);
    lemma_read_placed_objects(prev.entries(), cur.entries(), map, n, next);
    assert forall|k: Oid| #[trigger] start.entries().contains_key(k) implies cur.entries()[k] == start.entries()[k] by {
        assert(prev.entries().contains_key(k));
    }
    assert(cur.cells() =~= start.cells().union_prefer_right(map_cells(map, n + 1, next)));
    assert(cur.spec_npcs() =~= start.spec_npcs() + map_npcs(map, n + 1, next));
}

/// The map character is one the map format knows.
fn char_known(c: char) -> (r: bool)
    ensures
        r == map_char_known(c),
{
    c == '\n' || c == ' ' || c == '#' || c == 'M' || c == '+' || c == '~' || c == 'V' || c == 'T' || c == 'W'
        || c == 'P' || c == 'D' || c == 'I' || c == 'g' || c == 'o' || c == 'R' || c == 'p' || c == 'S'
        || c == 'a' || c == 'b' || c == 's'
}

/// Reads a level map into the lookup, row by row from (0, 0): each character puts down
/// the terrain it names (dirt for a space, under a character or an item, and for a
/// character the map does not know), then the character or item it names on it; an `'s'`
/// is a weak sword picked at random. Returns an error message for each character that the
/// map does not know, in order, saying that it is ignored.
pub fn level(lookup: &mut Lookup, map: &str, rng: &mut SmallRng) -> (warnings: Vec<Message>)
    requires
        map_fits(*old(lookup), map@),
    ensures
        warnings_ok(warnings@, map@, map@.len()),
        final(lookup).cells() == old(lookup).cells().union_prefer_right(
            map_cells(map@, map@.len(), old(lookup).spec_next_id() as int),
        ),
        forall|i: int| 0 <= i < map@.len() && map@[i] != '\n' ==> {
            &&& final(lookup).cells().contains_key(key(#[trigger] map_point(map@, i as nat)))
            &&& final(lookup).cells()[key(map_point(map@, i as nat))] == cell_ids(
                map@[i],
                first_id(map@, i as nat, old(lookup).spec_next_id() as int),
            )
        },
        forall|i: int| 0 <= i < map@.len() && map@[i] != '\n' ==> char_objects_ok(
            final(lookup).entries(),
            #[trigger] map@[i],
            first_id(map@, i as nat, old(lookup).spec_next_id() as int),
            map_point(map@, i as nat),
        ),
        forall|k: Oid| #[trigger] final(lookup).entries().contains_key(k) <==> (old(lookup).entries().contains_key(k)
            || map_id(map@, map@.len(), old(lookup).spec_next_id() as int, k)),
        forall|k: Oid| #[trigger] old(lookup).entries().contains_key(k) ==> final(lookup).entries()[k]
            == old(lookup).entries()[k],
        final(lookup).spec_next_id() == old(lookup).spec_next_id() + ids_before(map@, map@.len()),
        final(lookup).spec_npcs() == old(lookup).spec_npcs() + map_npcs(map@, map@.len(), old(lookup).spec_next_id() as int),
        final(lookup).spec_player_loc() == match player_at(map@, map@.len()) {
            Some(p) => p,
            None => old(lookup).spec_player_loc(),
        },
        final(lookup).spec_default() == old(lookup).spec_default(),
        final(lookup).spec_constructing() == old(lookup).spec_constructing(),
        old(lookup).cells_exist() ==> final(lookup).cells_exist(),
{
    broadcast use vstd::string::axiom_spec_iter;

    let ghost chars = map@;
    let ghost start = *old(lookup);
    let ghost next = old(lookup).spec_next_id() as int;
    let ghost len = chars.len();
    let mut warnings: Vec<Message> = Vec::new();
    let mut loc = Point::new(0, 0);
    let ghost mut n: nat = 0;
    proof {
        reveal(read_so_far);
        assert(lookup.cells() =~= start.cells().union_prefer_right(map_cells(chars, 0, next)));
        assert(lookup.spec_npcs() =~= start.spec_npcs() + map_npcs(chars, 0, next));
    }
    for ch in it: map.chars()
        invariant
            chars == map@,
            len == chars.len(),
            it.seq() == chars,
            n == it.index(),
            n <= len,
            map_fits(start, chars),
            next == start.spec_next_id(),
            loc == map_point(chars, n),
            read_so_far(start, *lookup, chars, n),
            warnings_ok(warnings@, chars, n),
    {
        proof {
            assert(chars[n as int] == ch);
            lemma_map_pos_bounds(chars, n);
        }
        let ghost prev = *lookup;
        if ch != '\n' {
            proof {
                lemma_read_can_place(start, prev, chars, n);
            }
            place(lookup, ch, loc, rng);
            proof {
                lemma_read_placed(start, prev, *lookup, chars, n);
            }
        } else {
            proof {
                lemma_read_newline(start, prev, chars, n);
            }
        }
        if !char_known(ch) {
            let mut text = String::from_str("Ignoring map char '");
            push_char(&mut text, ch);
            push_char(&mut text, '\'');
            let ghost before = warnings@;
            warnings.push(Message { topic: Topic::Error, text });
            proof {
                assert(ignored_chars(chars, n + 1) == ignored_chars(chars, n).push(ch));
                assert forall|i: int| 0 <= i < warnings@.len() implies (#[trigger] warnings@[i]).topic == Topic::Error
                    && warnings@[i].text@ == ignore_text(ignored_chars(chars, n + 1)[i]) by {
                    if i < before.len() {
                        assert(warnings@[i] == before[i]);
                    }
                }
            }
        }
        loc = if ch == '\n' {
            Point::new(0, loc.y + 1)
        } else {
            Point::new(loc.x + 1, loc.y)
        };
        proof {
            n = n + 1;
        }
    }
    proof {
        reveal(read_so_far);
        assert forall|i: int| 0 <= i < len && chars[i] != '\n' implies ({
            &&& lookup.cells().contains_key(key(#[trigger] map_point(chars, i as nat)))
            &&& lookup.cells()[key(map_point(chars, i as nat))] == cell_ids(chars[i], first_id(chars, i as nat, next))
        }) by {
            lemma_map_cells_at(chars, len, i as nat, next);
        }
    }
    warnings
}


/// The bottom object at the location: its cell's terrain, or the default object outside
/// the map.
pub open spec fn bottom_of(lookup: Lookup, loc: Point) -> Object {
    if lookup.cells().contains_key(key(loc)) {
        lookup.objs()[lookup.cells()[key(loc)][0]]
    } else {
        lookup.spec_default()
    }
}

/// An extra item can go to the location: ground, with no character on it.
pub open spec fn extra_fits(lookup: Lookup, loc: Point) -> bool {
    &&& lookup.spec_get(loc, tag::CHARACTER_ID) is None
    &&& object::terrain_of(bottom_of(lookup, loc).spec_tags()) == Some(Terrain::Ground)
}

/// No object in the cell at the location is a character.
pub open spec fn no_character_at(lookup: Lookup, loc: Point) -> bool {
    forall|i: int|
        0 <= i < lookup.cells()[key(loc)].len() ==> !lookup.objs()[#[trigger] lookup.cells()[key(loc)][i]].spec_has(
            tag::CHARACTER_ID,
        )
}

/// Every cell has a terrain at the bottom, and so does the default object, which is not
/// ground.
pub open spec fn bottoms_ok(lookup: Lookup) -> bool {
    &&& lookup.cells_exist()
    &&& object::terrain_of(lookup.spec_default().spec_tags()) is Some
    &&& object::terrain_of(lookup.spec_default().spec_tags()) != Some(Terrain::Ground)
    &&& forall|l: (i32, i32)| #[trigger] lookup.cells().contains_key(l) ==> lookup.cells()[l].len() > 0
        && object::terrain_of(lookup.objs()[lookup.cells()[l][0]].spec_tags()) is Some
}

/// What putting an extra of the name on top of the location does to the lookup.
pub open spec fn extra_placed(before: Lookup, after: Lookup, name: ObjectName, loc: Point) -> bool {
    let oid = Oid { value: before.spec_next_id() };
    &&& after.spec_next_id() == before.spec_next_id() + 1
    &&& after.cells() == before.pushed(loc, oid)
    &&& after.entries().contains_key(oid)
    &&& made_as(after.entries()[oid].obj, name)
    &&& after.entries()[oid].loc == Some(loc)
    &&& after.entries() == before.entries().insert(oid, after.entries()[oid])
    &&& after.spec_npcs() == before.spec_npcs()
    &&& after.spec_player_loc() == before.spec_player_loc()
    &&& after.spec_default() == before.spec_default()
    &&& after.spec_constructing() == before.spec_constructing()
    &&& before.cells_exist() ==> after.cells_exist()
}

/// Puts an extra item of the name on top of the location (a drawn one) if it can go there;
/// says whether it did.
pub fn place_extra(lookup: &mut Lookup, name: ObjectName, loc: Point) -> (added: bool)
    requires
        bottoms_ok(*old(lookup)),
        !is_character_name(name),
        old(lookup).spec_next_id() < u32::MAX,
        !old(lookup).entries().contains_key(Oid { value: old(lookup).spec_next_id() }),
    ensures
        added == extra_fits(*old(lookup), loc),
        added ==> extra_placed(*old(lookup), *final(lookup), name, loc),
        !added ==> *final(lookup) == *old(lookup),
{
    let has_char = match lookup.get(loc, Tid(tag::CHARACTER_ID)) {
        Some(_) => true,
        None => false,
    };
    let ground = {
        let (_, bottom) = lookup.get_bottom(loc);
        match bottom.terrain_value() {
            Some(Terrain::Ground) => true,
            _ => false,
        }
    };
    if ground && !has_char {
        let obj = new_obj(name);
        let oid = lookup.add(obj, Some(loc));
        proof {
            assert(lookup.entries() =~= old(lookup).entries().insert(oid, lookup.entries()[oid]));
        }
        true
    } else {
        false
    }
}

/// The lookup holds the start lookup with `placed` extras of the name added on top of
/// ground cells.
#[verifier::opaque]
spec fn extras_so_far(start: Lookup, cur: Lookup, name: ObjectName, placed: u32) -> bool {
    let next = start.spec_next_id();
    &&& cur.spec_next_id() == next + placed
    &&& forall|k: Oid| #[trigger] cur.entries().contains_key(k) <==> (start.entries().contains_key(k) || next
        <= k.value < next + placed)
    &&& forall|k: Oid| #[trigger] start.entries().contains_key(k) ==> cur.entries()[k] == start.entries()[k]
    &&& forall|k: Oid| next <= k.value < next + placed ==> {
        &&& made_as(#[trigger] cur.entries()[k].obj, name)
        &&& cur.entries()[k].loc matches Some(l) && start.cells().contains_key(key(l))
            && object::terrain_of(bottom_of(start, l).spec_tags()) == Some(Terrain::Ground)
            && no_character_at(start, l)
    }
    &&& cur.cells().dom() == start.cells().dom()
    &&& forall|l: (i32, i32)| #[trigger] start.cells().contains_key(l) ==> cur.cells()[l].len() >= start.cells()[l].len()
        && cur.cells()[l].subrange(0, start.cells()[l].len() as int) == start.cells()[l]
    &&& cur.spec_npcs() == start.spec_npcs()
    &&& cur.spec_player_loc() == start.spec_player_loc()
    &&& cur.spec_default() == start.spec_default()
    &&& cur.spec_constructing() == start.spec_constructing()
    &&& cur.cells_exist()
}

/// Extras keep each cell's bottom, so the cells keep their terrain.
proof fn lemma_extras_bottoms(start: Lookup, cur: Lookup, name: ObjectName, placed: u32)
    requires
        bottoms_ok(start),
        extras_so_far(start, cur, name, placed),
    ensures
        bottoms_ok(cur),
        forall|l: (i32, i32)| #[trigger] cur.cells().contains_key(l) ==> cur.cells()[l][0] == start.cells()[l][0]
            && cur.objs()[cur.cells()[l][0]] == start.objs()[start.cells()[l][0]],
{
    reveal(extras_so_far);
    assert forall|l: (i32, i32)| #[trigger] cur.cells().contains_key(l) implies cur.cells()[l][0] == start.cells()[l][0]
        && cur.objs()[cur.cells()[l][0]] == start.objs()[start.cells()[l][0]] by {
        assert(start.cells().contains_key(l));
        assert(cur.cells()[l].subrange(0, start.cells()[l].len() as int)[0] == cur.cells()[l][0]);
        assert(start.entries().contains_key(start.cells()[l][0]));
    }
}

/// One more extra placed where it fits keeps the account of the extras.
proof fn lemma_extras_step(start: Lookup, prev: Lookup, cur: Lookup, name: ObjectName, placed: u32, loc: Point)
    requires
        bottoms_ok(start),
        start.spec_next_id() + placed + 1 < u32::MAX,
        extras_so_far(start, prev, name, placed),
        !prev.entries().contains_key(Oid { value: prev.spec_next_id() }),
        extra_fits(prev, loc),
        extra_placed(prev, cur, name, loc),
    ensures
        extras_so_far(start, cur, name, (placed + 1) as u32),
{
    lemma_extras_bottoms(start, prev, name, placed);
    reveal(extras_so_far);
    let next = start.spec_next_id();
    let oid = Oid { value: prev.spec_next_id() };
    let k = key(loc);
    assert(start.cells().contains_key(k));
    assert(bottom_of(prev, loc) == bottom_of(start, loc));
    assert(cur.cells() == prev.cells().insert(k, prev.cells()[k].push(oid)));
    assert(cur.cells().dom() =~= start.cells().dom());
    assert forall|l: (i32, i32)| #[trigger] start.cells().contains_key(l) implies cur.cells()[l].len() >= start.cells()[l].len()
        && cur.cells()[l].subrange(0, start.cells()[l].len() as int) == start.cells()[l] by {
        if l == k {
            assert(cur.cells()[l].subrange(0, start.cells()[l].len() as int) =~= prev.cells()[l].subrange(
                0,
                start.cells()[l].len() as int,
            ));
        }
    }
    assert forall|j: Oid| #[trigger] start.entries().contains_key(j) implies cur.entries()[j] == start.entries()[j] by {
        assert(prev.entries().contains_key(j));
    }
    let pc = prev.cells()[k];
    let sc = start.cells()[k];
    crate::model::lemma_top_with(prev.objs(), pc, tag::CHARACTER_ID, pc.len() - 1);
    assert forall|i: int| 0 <= i < sc.len() implies !start.objs()[#[trigger] sc[i]].spec_has(tag::CHARACTER_ID) by {
        assert(prev.cells()[k].subrange(0, sc.len() as int)[i] == pc[i]);
        assert(pc[i] == sc[i]);
        assert(start.entries().contains_key(sc[i]));
    }
    assert(no_character_at(start, loc));
    assert forall|j: Oid| next <= j.value < next + placed + 1 implies {
        &&& made_as(#[trigger] cur.entries()[j].obj, name)
        &&& cur.entries()[j].loc matches Some(l) && start.cells().contains_key(key(l))
            && object::terrain_of(bottom_of(start, l).spec_tags()) == Some(Terrain::Ground)
            && no_character_at(start, l)
    } by {
        if j != oid {
            assert(prev.entries().contains_key(j));
        }
    }
}

/// Puts up to `count` extras of the name on random ground with no character on it, each
/// tried at up to five random locations. Returns how many it put down.
pub fn add_extra(lookup: &mut Lookup, name: ObjectName, count: u32, rng: &mut SmallRng) -> (placed: u32)
    requires
        bottoms_ok(*old(lookup)),
        !is_character_name(name),
        old(lookup).spec_next_id() + count < u32::MAX,
        forall|j: u32| old(lookup).spec_next_id() <= j < old(lookup).spec_next_id() + count ==> !#[trigger] old(
            lookup,
        ).entries().contains_key(Oid { value: j }),
    ensures
        placed <= count,
        final(lookup).spec_next_id() == old(lookup).spec_next_id() + placed,
        forall|k: Oid| #[trigger] final(lookup).entries().contains_key(k) <==> (old(lookup).entries().contains_key(k)
            || old(lookup).spec_next_id() <= k.value < old(lookup).spec_next_id() + placed),
        forall|k: Oid| #[trigger] old(lookup).entries().contains_key(k) ==> final(lookup).entries()[k]
            == old(lookup).entries()[k],
        forall|k: Oid| old(lookup).spec_next_id() <= k.value < old(lookup).spec_next_id() + placed ==> {
            &&& made_as(#[trigger] final(lookup).entries()[k].obj, name)
            &&& final(lookup).entries()[k].loc matches Some(l) && old(lookup).cells().contains_key(key(l))
                && object::terrain_of(bottom_of(*old(lookup), l).spec_tags()) == Some(Terrain::Ground)
                && no_character_at(*old(lookup), l)
        },
        final(lookup).cells().dom() == old(lookup).cells().dom(),
        forall|l: (i32, i32)| #[trigger] old(lookup).cells().contains_key(l) ==> final(lookup).cells()[l].len()
            >= old(lookup).cells()[l].len() && final(lookup).cells()[l].subrange(0, old(lookup).cells()[l].len() as int)
            == old(lookup).cells()[l],
        final(lookup).spec_npcs() == old(lookup).spec_npcs(),
        final(lookup).spec_player_loc() == old(lookup).spec_player_loc(),
        final(lookup).spec_default() == old(lookup).spec_default(),
        final(lookup).spec_constructing() == old(lookup).spec_constructing(),
        bottoms_ok(*final(lookup)),
{
    let ghost start = *old(lookup);
    let ghost next = start.spec_next_id();
    let mut placed: u32 = 0;
    proof {
        reveal(extras_so_far);
        assert forall|l: (i32, i32)| #[trigger] start.cells().contains_key(l) implies lookup.cells()[l].len() >= start.cells()[l].len()
            && lookup.cells()[l].subrange(0, start.cells()[l].len() as int) == start.cells()[l] by {
            assert(lookup.cells()[l].subrange(0, start.cells()[l].len() as int) =~= start.cells()[l]);
        }
    }
    let mut i: u32 = 0;
    while i < count
        invariant
            placed <= i <= count,
            next == start.spec_next_id(),
            next + count < u32::MAX,
            !is_character_name(name),
            forall|j: u32| next <= j < next + count ==> !#[trigger] start.entries().contains_key(Oid { value: j }),
            bottoms_ok(start),
            extras_so_far(start, *lookup, name, placed),
        decreases count - i,
    {
        let mut tries: u32 = 0;
        let mut done = false;
        while tries < 5 && !done
            invariant
                placed <= i + 1,
                i < count,
                !done ==> placed <= i,
                tries <= 5,
                next == start.spec_next_id(),
                next + count < u32::MAX,
                !is_character_name(name),
                forall|j: u32| next <= j < next + count ==> !#[trigger] start.entries().contains_key(Oid { value: j }),
                bottoms_ok(start),
                extras_so_far(start, *lookup, name, placed),
            decreases 5 - tries,
        {
            let ghost prev = *lookup;
            proof {
                lemma_extras_bottoms(start, prev, name, placed);
                reveal(extras_so_far);
                assert(!start.entries().contains_key(Oid { value: (next + placed) as u32 }));
            }
            match lookup.random_loc(rng) {
                Some(loc) => {
                    if place_extra(lookup, name, loc) {
                        proof {
                            lemma_extras_step(start, prev, *lookup, name, placed, loc);
                        }
                        placed = placed + 1;
                        done = true;
                    }
                },
                None => {},
            }
            tries = tries + 1;
        }
        i = i + 1;
    }
    proof {
        lemma_extras_bottoms(start, *lookup, name, placed);
        reveal(extras_so_far);
    }
    placed
}

} // verus!
