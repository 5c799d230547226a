//! What a melee attack does once its random draws are made: whether it hit, whether it
//! was a critical hit and how much damage it does. The draws themselves are made from
//! probabilities by the caller.
use crate::message::{Message, Topic};
use crate::oid::Oid;
use crate::tag::Durability;
use crate::text::{decimal, decimal_value, law_decimal_reads_back, push_char, push_decimal};
use vstd::prelude::*;

verus! {

/// The number in decimal, with a minus sign when it is negative.
pub open spec fn signed_text(n: int) -> Seq<char> {
    if n < 0 {
        seq!['-'] + decimal((-n) as nat)
    } else {
        decimal(n as nat)
    }
}

/// The number that a string of decimal digits, perhaps after a minus sign, stands for.
pub open spec fn signed_value(s: Seq<char>) -> int {
    if s.len() > 0 && s[0] == '-' {
        -decimal_value(s.drop_first())
    } else {
        decimal_value(s)
    }
}

/// The text of a number reads back as that number: the damage a message reports is the
/// damage done.
pub proof fn law_signed_text_reads_back(n: int)
    ensures
        signed_value(signed_text(n)) == n,
{
    if n < 0 {
        law_decimal_reads_back((-n) as nat);
        assert(signed_text(n).drop_first() =~= decimal((-n) as nat));
    } else {
        law_decimal_reads_back(n as nat);
        assert('0' <= decimal(n as nat)[0] <= '9');
    }
}

/// How a hit is described.
pub open spec fn hit_word(crit: bool) -> Seq<char> {
    if crit {
        "critcally hit"@
    } else {
        "hit"@
    }
}

/// The message about the attack: a miss; a hit for no damage; or a hit for the damage,
/// with the damage beyond what the defender could take when it was more.
pub open spec fn attack_text(
    attacker: Seq<char>,
    defender: Seq<char>,
    hit: bool,
    crit: bool,
    damage: int,
    new_hps: int,
) -> Seq<char> {
    if !hit {
        attacker + " missed "@ + defender + "."@
    } else if damage == 0 {
        attacker + " "@ + hit_word(crit) + " "@ + defender + " for no damage."@
    } else if new_hps < 0 {
        attacker + " "@ + hit_word(crit) + " "@ + defender + " for "@ + signed_text(damage) + " damage ("@
            + signed_text(-new_hps) + " over kill)."@
    } else {
        attacker + " "@ + hit_word(crit) + " "@ + defender + " for "@ + signed_text(damage) + " damage."@
    }
}

/// The topic of the message about a hit, by who attacked whom (the player is object 0)
/// and whether it did damage.
pub open spec fn spec_melee_topic(attacker: Oid, defender: Oid, damage: int) -> Topic {
    if attacker.value == 0 {
        if damage > 0 {
            Topic::PlayerDidDamage
        } else {
            Topic::PlayerDidNoDamage
        }
    } else if defender.value == 0 {
        if damage > 0 {
            Topic::PlayerIsDamaged
        } else {
            Topic::PlayerIsNotDamaged
        }
    } else {
        if damage > 0 {
            Topic::NpcIsDamaged
        } else {
            Topic::NpcIsNotDamaged
        }
    }
}

/// A hit's message is filed by who it concerns: the player's own attacks, attacks on the
/// player, or fights between NPCs; and within each, by whether the hit did damage.
pub proof fn law_melee_topic(attacker: Oid, defender: Oid, damage: int)
    ensures
        attacker.value == 0 ==> (spec_melee_topic(attacker, defender, damage)
            == Topic::PlayerDidDamage || spec_melee_topic(attacker, defender, damage)
            == Topic::PlayerDidNoDamage),
        attacker.value != 0 && defender.value == 0 ==> (spec_melee_topic(attacker, defender, damage)
            == Topic::PlayerIsDamaged || spec_melee_topic(attacker, defender, damage)
            == Topic::PlayerIsNotDamaged),
        attacker.value != 0 && defender.value != 0 ==> (spec_melee_topic(attacker, defender, damage)
            == Topic::NpcIsDamaged || spec_melee_topic(attacker, defender, damage)
            == Topic::NpcIsNotDamaged),
        damage > 0 <==> (spec_melee_topic(attacker, defender, damage) == Topic::PlayerDidDamage
            || spec_melee_topic(attacker, defender, damage) == Topic::PlayerIsDamaged
            || spec_melee_topic(attacker, defender, damage) == Topic::NpcIsDamaged),
{
}

pub fn melee_topic(attacker: Oid, defender: Oid, damage: i32) -> (t: Topic)
    ensures
        t == spec_melee_topic(attacker, defender, damage as int),
{
    if attacker.value == 0 {
        if damage > 0 {
            Topic::PlayerDidDamage
        } else {
            Topic::PlayerDidNoDamage
        }
    } else if defender.value == 0 {
        if damage > 0 {
            Topic::PlayerIsDamaged
        } else {
            Topic::PlayerIsNotDamaged
        }
    } else {
        if damage > 0 {
            Topic::NpcIsDamaged
        } else {
            Topic::NpcIsNotDamaged
        }
    }
}

/// Appends the number in decimal, with a minus sign when it is negative.
fn push_signed(s: &mut String, n: i32)
    ensures
        final(s)@ == old(s)@ + signed_text(n as int),
{
    let ghost start = s@;
    if n < 0 {
        push_char(s, '-');
        let m: i64 = n as i64;
        push_decimal(s, (-m) as u64);
        assert(s@ =~= start + signed_text(n as int));
    } else {
        push_decimal(s, n as u64);
    }
}

/// The message about the attack, as `attack_text` describes it.
pub fn attack_message(attacker: &str, defender: &str, hit: bool, crit: bool, damage: i32, new_hps: i32) -> (text: String)
    requires
        new_hps > i32::MIN,
    ensures
        text@ == attack_text(attacker@, defender@, hit, crit, damage as int, new_hps as int),
{
    let mut text = String::from_str(attacker);
    if !hit {
        text.append(" missed ");
        text.append(defender);
        text.append(".");
    } else {
        text.append(" ");
        if crit {
            text.append("critcally hit");
        } else {
            text.append("hit");
        }
        text.append(" ");
        text.append(defender);
        if damage == 0 {
            text.append(" for no damage.");
        } else {
            text.append(" for ");
            push_signed(&mut text, damage);
            if new_hps < 0 {
                text.append(" damage (");
                push_signed(&mut text, -new_hps);
                text.append(" over kill).");
            } else {
                text.append(" damage.");
            }
        }
    }
    proof {
        assert(text@ =~= attack_text(attacker@, defender@, hit, crit, damage as int, new_hps as int));
    }
    text
}

/// What a melee attack does to the defender and says to the player.
pub struct MeleeOutcome {
    /// The defender's durability after a hit that did damage.
    pub durability: Option<Durability>,
    /// The hit took the defender's durability to zero or below.
    pub killed: bool,
    /// The messages, oldest first.
    pub messages: Vec<Message>,
}

/// The outcome of a melee attack by `attacker` on `defender` (the player is object 0),
/// given the draws: whether it hit, whether it was critical, and the damage after the
/// defender's mitigation. A miss only says so. A hit for no damage says so. A hit for
/// damage lowers the defender's durability by it; at zero or below the defender is
/// killed, and when the defender is the player the game is lost, which is said first.
pub fn melee_outcome(
    attacker: Oid,
    defender: Oid,
    attacker_name: &str,
    defender_name: &str,
    hit: bool,
    crit: bool,
    damage: i32,
    durability: Durability,
) -> (r: MeleeOutcome)
    requires
        hit ==> i32::MIN < durability.current - damage <= i32::MAX,
    ensures
        ({
            let new_hps = durability.current - damage;
            let text = attack_text(attacker_name@, defender_name@, hit, crit, damage as int, new_hps);
            if !hit {
                &&& r.durability is None
                &&& !r.killed
                &&& r.messages@.len() == 1
                &&& r.messages@[0].topic == Topic::Normal
                &&& r.messages@[0].text@ == text
            } else if damage == 0 {
                &&& r.durability is None
                &&& !r.killed
                &&& r.messages@.len() == 1
                &&& r.messages@[0].topic == spec_melee_topic(attacker, defender, 0)
                &&& r.messages@[0].text@ == text
            } else {
                let lost = new_hps <= 0 && defender.value == 0;
                &&& r.durability == Some(Durability { current: new_hps as i32, max: durability.max })
                &&& r.killed == (new_hps <= 0)
                &&& r.messages@.len() == if lost { 2int } else { 1int }
                &&& lost ==> r.messages@[0].topic == Topic::Important && r.messages@[0].text@
                    == "You've lost the game!"@
                &&& r.messages@.last().topic == spec_melee_topic(attacker, defender, damage as int)
                &&& r.messages@.last().text@ == text
            }
        }),
{
    let mut messages: Vec<Message> = Vec::new();
    if !hit {
        let text = attack_message(attacker_name, defender_name, hit, crit, damage, 0);
        messages.push(Message { topic: Topic::Normal, text });
        MeleeOutcome { durability: None, killed: false, messages }
    } else if damage == 0 {
        let new_hps = durability.current - damage;
        let text = attack_message(attacker_name, defender_name, hit, crit, damage, new_hps);
        messages.push(Message { topic: melee_topic(attacker, defender, damage), text });
        MeleeOutcome { durability: None, killed: false, messages }
    } else {
        let new_hps = durability.current - damage;
        let killed = new_hps <= 0;
        if killed && defender.value == 0 {
            messages.push(Message::new(Topic::Important, "You've lost the game!"));
        }
        let text = attack_message(attacker_name, defender_name, hit, crit, damage, new_hps);
        messages.push(Message { topic: melee_topic(attacker, defender, damage), text });
        MeleeOutcome { durability: Some(Durability { current: new_hps, max: durability.max }), killed, messages }
    }
}

} // verus!
