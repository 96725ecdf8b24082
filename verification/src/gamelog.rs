//! The textual message feed, ordered newest first.

use vstd::prelude::*;

verus! {

/// `log1` is `log0` with zero or more entries put in front.
pub open spec fn log_extended(log0: Seq<String>, log1: Seq<String>) -> bool {
    log0.len() <= log1.len()
        && log1.subrange(log1.len() - log0.len(), log1.len() as int) == log0
}

pub proof fn lemma_log_extended_refl(log0: Seq<String>)
    ensures
        log_extended(log0, log0),
{
    assert(log0.subrange(0, log0.len() as int) =~= log0);
}

pub proof fn lemma_log_extended_insert(log0: Seq<String>, s: String)
    ensures
        log_extended(log0, log0.insert(0, s)),
{
    let log1 = log0.insert(0, s);
    assert(log1.subrange(log1.len() - log0.len(), log1.len() as int) =~= log0);
}

pub proof fn lemma_log_extended_trans(log0: Seq<String>, log1: Seq<String>, log2: Seq<String>)
    requires
        log_extended(log0, log1),
        log_extended(log1, log2),
    ensures
        log_extended(log0, log2),
{
    assert(log2.subrange(log2.len() - log0.len(), log2.len() as int) =~= log0);
}

pub struct GameLog {
    pub entries: Vec<String>,
}

impl GameLog {
    pub fn new() -> (l: GameLog)
        ensures
            l.entries@.len() == 0,
    {
        GameLog { entries: Vec::new() }
    }

    /// Puts `s` in front of every earlier entry: the feed reads newest first.
    pub fn log(&mut self, s: String)
        ensures
            final(self).entries@ == old(self).entries@.insert(0, s),
            final(self).entries@.len() == old(self).entries@.len() + 1,
            final(self).entries@[0] == s,
    {
        self.entries.insert(0, s);
    }
}

} // verus!
