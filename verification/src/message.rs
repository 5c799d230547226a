use vstd::prelude::*;

verus! {

/// What a message to the player is about; the UI picks its color from this.
#[derive(Clone, Copy, Debug, PartialEq, Eq, Structural)]
pub enum Topic {
    /// An operation failed.
    Error,
    /// The player tried to do something and couldn't.
    Failed,
    /// Player is near death, special message when entering a new level, etc.
    Important,
    /// An NPC says something.
    NPCSpeaks,
    /// Relatively spammy messages, e.g. player was hit.
    Normal,
    NpcIsDamaged,
    NpcIsNotDamaged,
    PlayerDidDamage,
    PlayerDidNoDamage,
    PlayerIsDamaged,
    PlayerIsNotDamaged,
}

#[derive(Clone, Debug)]
pub struct Message {
    pub topic: Topic,
    pub text: String,
}

impl Message {
    pub fn new(topic: Topic, text: &str) -> (m: Message)
        ensures
            m.topic == topic,
            m.text@ == text@,
    {
        Message { topic, text: String::from_str(text) }
    }
}

} // verus!
