use one_thousand_deaths::dig::dig_outcome;
use one_thousand_deaths::message::Topic;
use one_thousand_deaths::tag::Durability;

#[test]
fn a_weak_blow_chips_the_wall() {
    let r = dig_outcome(Durability { current: 100, max: 100 }, 4);
    assert_eq!(r.durability, Some(Durability { current: 75, max: 100 }));
    assert_eq!(r.message.topic, Topic::Normal);
    assert_eq!(r.message.text, "You chip away at the wall with your pick-axe.");
}

#[test]
fn a_blow_that_takes_all_that_is_left_destroys_the_wall() {
    let r = dig_outcome(Durability { current: 100, max: 100 }, 1);
    assert_eq!(r.durability, None);
    assert_eq!(r.message.topic, Topic::Important);
    assert_eq!(r.message.text, "You destroy the wall!");
}

#[test]
fn a_worn_wall_falls_to_a_smaller_blow() {
    let r = dig_outcome(Durability { current: 10, max: 100 }, 5);
    assert_eq!(r.durability, None);
    let r = dig_outcome(Durability { current: 21, max: 100 }, 5);
    assert_eq!(r.durability, Some(Durability { current: 1, max: 100 }));
}
