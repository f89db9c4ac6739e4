//! The message log.

use vstd::prelude::*;

verus! {

/// Messages for the player, newest first.
pub struct GameLog {
    pub entries: Vec<String>,
}

impl GameLog {
    /// The messages as character sequences, newest first.
    pub open spec fn lines(&self) -> Seq<Seq<char>> {
        Seq::new(self.entries@.len(), |i: int| self.entries@[i]@)
    }

    /// A log without messages.
    pub fn new() -> (log: GameLog)
        ensures
            log.lines() == Seq::<Seq<char>>::empty(),
    {
        let log = GameLog { entries: Vec::new() };
        assert(log.lines() =~= Seq::<Seq<char>>::empty());
        log
    }

    /// Puts `message` in front of all earlier messages.
    pub fn add(&mut self, message: String)
        ensures
            final(self).lines() == seq![message@] + old(self).lines(),
    {
        self.entries.insert(0, message);
        assert(self.lines() =~= seq![message@] + old(self).lines());
    }
}

} // verus!
