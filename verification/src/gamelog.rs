//! The message log: what happened, newest last.

use vstd::prelude::*;

verus! {

/// One event worth telling the user. A name is `None` where the entity
/// has none.
#[derive(Clone, Debug, PartialEq, Eq)]
pub enum LogEntry {
    Welcome,
    /// An attack that did no damage.
    CouldNotDamage { attacker: Option<String>, target: Option<String> },
    /// An attack that took `damage` hit points.
    Hit { attacker: Option<String>, target: Option<String>, damage: i32 },
    Died { name: String },
    NothingToPickUp,
    PickedUp { item: Option<String> },
    Dropped { item: Option<String> },
    Equipped { item: Option<String> },
    Unequipped { item: Option<String> },
    Confused { item: Option<String>, target: Option<String>, turns: i32 },
    Hastened { item: Option<String>, speed_modifier: i32, turns: i32 },
    Healed { item: Option<String>, heal_amount: i32 },
    Struck { item: Option<String>, target: Option<String>, damage: i32 },
    SpeedExpired,
    Descended,
}

pub struct GameLog {
    pub entries: Vec<LogEntry>,
}

impl GameLog {
    /// A log that holds the greeting.
    pub fn new() -> (log: GameLog)
        ensures
            log.entries@ == seq![LogEntry::Welcome],
    {
        let mut entries: Vec<LogEntry> = Vec::new();
        entries.push(LogEntry::Welcome);
        GameLog { entries }
    }

    pub fn push(&mut self, entry: LogEntry)
        ensures
            final(self).entries@ == old(self).entries@.push(entry),
    {
        self.entries.push(entry);
    }
}

} // verus!
