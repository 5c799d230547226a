use one_thousand_deaths::melee::{attack_message, melee_outcome, melee_topic};
use one_thousand_deaths::message::Topic;
use one_thousand_deaths::oid::Oid;
use one_thousand_deaths::tag::Durability;

fn oid(v: u32) -> Oid {
    Oid::without_tag(v)
}

#[test]
fn attack_messages_say_what_happened() {
    assert_eq!(attack_message("You", "the guard", false, false, 5, 10), "You missed the guard.");
    assert_eq!(attack_message("You", "the guard", true, false, 0, 10), "You hit the guard for no damage.");
    assert_eq!(attack_message("Rhulad", "you", true, true, 12, 3), "Rhulad critcally hit you for 12 damage.");
    assert_eq!(attack_message("You", "Icarium", true, false, 7, -4), "You hit Icarium for 7 damage (4 over kill).");
    assert_eq!(attack_message("You", "Icarium", true, false, -2, 4), "You hit Icarium for -2 damage.");
}

#[test]
fn melee_topics_follow_who_was_hit() {
    assert_eq!(melee_topic(oid(0), oid(5), 3), Topic::PlayerDidDamage);
    assert_eq!(melee_topic(oid(0), oid(5), 0), Topic::PlayerDidNoDamage);
    assert_eq!(melee_topic(oid(5), oid(0), 3), Topic::PlayerIsDamaged);
    assert_eq!(melee_topic(oid(5), oid(0), 0), Topic::PlayerIsNotDamaged);
    assert_eq!(melee_topic(oid(5), oid(6), 3), Topic::NpcIsDamaged);
    assert_eq!(melee_topic(oid(5), oid(6), -1), Topic::NpcIsNotDamaged);
}

#[test]
fn a_miss_changes_nothing() {
    let out = melee_outcome(oid(0), oid(5), "You", "the guard", false, false, 9, Durability { current: 30, max: 30 });
    assert!(out.durability.is_none());
    assert!(!out.killed);
    assert_eq!(out.messages.len(), 1);
    assert_eq!(out.messages[0].topic, Topic::Normal);
    assert_eq!(out.messages[0].text, "You missed the guard.");
}

#[test]
fn a_hit_lowers_durability() {
    let out = melee_outcome(oid(0), oid(5), "You", "the guard", true, false, 9, Durability { current: 30, max: 30 });
    assert_eq!(out.durability, Some(Durability { current: 21, max: 30 }));
    assert!(!out.killed);
    assert_eq!(out.messages.len(), 1);
    assert_eq!(out.messages[0].topic, Topic::PlayerDidDamage);
    assert_eq!(out.messages[0].text, "You hit the guard for 9 damage.");
}

#[test]
fn killing_the_player_loses_the_game() {
    let out = melee_outcome(oid(5), oid(0), "Rhulad", "you", true, true, 40, Durability { current: 30, max: 100 });
    assert_eq!(out.durability, Some(Durability { current: -10, max: 100 }));
    assert!(out.killed);
    assert_eq!(out.messages.len(), 2);
    assert_eq!(out.messages[0].topic, Topic::Important);
    assert_eq!(out.messages[0].text, "You've lost the game!");
    assert_eq!(out.messages[1].topic, Topic::PlayerIsDamaged);
    assert_eq!(out.messages[1].text, "Rhulad critcally hit you for 40 damage (10 over kill).");
}
