use vstd::prelude::*;
use crate::header::{decimal_text, demo_record_text};

verus! {

/// The player's results: score, high score and stage, whether the last stage was cleared,
/// and the best score the demo play reached with its stage.
#[derive(Clone, Copy, Debug, PartialEq, Eq, Structural)]
pub struct Record {
    pub score: i32,
    pub hi_score: i32,
    pub stage: i32,
    pub is_clear: bool,
    pub demo_hi_score: i32,
    pub demo_stage: i32,
}

impl Record {
    /// A record at the start of the game: everything zero, stage one, no stage cleared.
    pub fn new() -> (r: Record)
        ensures
            r == (Record { score: 0, hi_score: 0, stage: 1, is_clear: false, demo_hi_score: 0, demo_stage: 0 }),
    {
        Record { score: 0, hi_score: 0, stage: 1, is_clear: false, demo_hi_score: 0, demo_stage: 0 }
    }

    pub fn score(&self) -> (r: i32)
        ensures
            r == self.score,
    {
        self.score
    }

    /// A handle on the score; what is written through it becomes the score.
    pub fn score_mut(&mut self) -> (r: &mut i32)
        ensures
            *r == old(self).score,
            *final(self) == (Record { score: *final(r), ..*old(self) }),
    {
        &mut self.score
    }

    pub fn hi_score(&self) -> (r: i32)
        ensures
            r == self.hi_score,
    {
        self.hi_score
    }

    /// A handle on the high score; what is written through it becomes the high score.
    pub fn hi_score_mut(&mut self) -> (r: &mut i32)
        ensures
            *r == old(self).hi_score,
            *final(self) == (Record { hi_score: *final(r), ..*old(self) }),
    {
        &mut self.hi_score
    }

    pub fn stage(&self) -> (r: i32)
        ensures
            r == self.stage,
    {
        self.stage
    }

    /// A handle on the stage; what is written through it becomes the stage.
    pub fn stage_mut(&mut self) -> (r: &mut i32)
        ensures
            *r == old(self).stage,
            *final(self) == (Record { stage: *final(r), ..*old(self) }),
    {
        &mut self.stage
    }

    pub fn is_clear(&self) -> (r: bool)
        ensures
            r == self.is_clear,
    {
        self.is_clear
    }

    /// A handle on the flag of a cleared stage.
    pub fn is_clear_mut(&mut self) -> (r: &mut bool)
        ensures
            *r == old(self).is_clear,
            *final(self) == (Record { is_clear: *final(r), ..*old(self) }),
    {
        &mut self.is_clear
    }

    pub fn demo_hi_score(&self) -> (r: i32)
        ensures
            r == self.demo_hi_score,
    {
        self.demo_hi_score
    }

    /// A handle on the demo's best score.
    pub fn demo_hi_score_mut(&mut self) -> (r: &mut i32)
        ensures
            *r == old(self).demo_hi_score,
            *final(self) == (Record { demo_hi_score: *final(r), ..*old(self) }),
    {
        &mut self.demo_hi_score
    }

    pub fn demo_stage(&self) -> (r: i32)
        ensures
            r == self.demo_stage,
    {
        self.demo_stage
    }

    /// A handle on the stage of the demo's best score.
    pub fn demo_stage_mut(&mut self) -> (r: &mut i32)
        ensures
            *r == old(self).demo_stage,
            *final(self) == (Record { demo_stage: *final(r), ..*old(self) }),
    {
        &mut self.demo_stage
    }
}

impl Default for Record {
    /// The record at the start of the game.
    fn default() -> (r: Record)
        ensures
            r == (Record { score: 0, hi_score: 0, stage: 1, is_clear: false, demo_hi_score: 0, demo_stage: 0 }),
    {
        Record::new()
    }
}

/// After a cleared stage, the stage goes up by one.
pub fn increment_record(record: &mut Record)
    requires
        old(record).stage < i32::MAX,
    ensures
        *final(record) == (Record { stage: (old(record).stage + 1) as i32, ..*old(record) }),
{
    record.stage = record.stage + 1;
}

/// After a game over, the score goes back to zero and the stage to one.
pub fn clear_record(record: &mut Record)
    ensures
        *final(record) == (Record { score: 0, stage: 1, ..*old(record) }),
{
    record.score = 0;
    record.stage = 1;
}

/// The record for the stage about to start: after a cleared stage only the flag is
/// lowered; otherwise score and stage go back to zero. The high scores stay.
pub fn initialize_record_except_hi_score(record: &mut Record)
    ensures
        old(record).is_clear ==> *final(record) == (Record { is_clear: false, ..*old(record) }),
        !old(record).is_clear ==> *final(record) == (Record { score: 0, stage: 0, ..*old(record) }),
{
    // after a cleared stage
    if record.is_clear() {
        *record.is_clear_mut() = false;
        return;
    }

    // score and stage back to zero
    *record.score_mut() = 0;
    *record.stage_mut() = 0;
}

/// The reset of score and stage before a stage (see `initialize_record_except_hi_score`).
pub fn init_record_except_hiscore(record: &mut Record)
    ensures
        old(record).is_clear ==> *final(record) == (Record { is_clear: false, ..*old(record) }),
        !old(record).is_clear ==> *final(record) == (Record { score: 0, stage: 0, ..*old(record) }),
{
    initialize_record_except_hi_score(record);
}

/// Before a demo play: unless the demo cleared its last stage, score and stage go back
/// to zero; after a cleared stage only the flag is lowered.
pub fn init_demoplay_record(record: &mut Record)
    ensures
        old(record).is_clear ==> *final(record) == (Record { is_clear: false, ..*old(record) }),
        !old(record).is_clear ==> *final(record) == (Record { score: 0, stage: 0, ..*old(record) }),
{
    if !record.is_clear {
        // the game was over, or the demo player was caught
        record.score = 0;
        record.stage = 0;
    } else {
        // the demo cleared its stage
        record.is_clear = false;
    }
}

/// Keeps the demo's best score: when the current score beats it, the current score and
/// stage become the demo's best. Returns the footer's text of the demo's best: its stage in
/// two digits, a dash, and its score in five digits.
pub fn update_demo_record(record: &mut Record) -> (shown: String)
    ensures
        old(record).score > old(record).demo_hi_score ==> *final(record)
            == (Record { demo_hi_score: old(record).score, demo_stage: old(record).stage, ..*old(record) }),
        old(record).score <= old(record).demo_hi_score ==> *final(record) == *old(record),
        shown@ == decimal_text(final(record).demo_stage as int, 2) + seq!['-']
            + decimal_text(final(record).demo_hi_score as int, 5),
{
    if record.score() > record.demo_hi_score() {
        let score = record.score();
        let stage = record.stage();
        *record.demo_hi_score_mut() = score;
        *record.demo_stage_mut() = stage;
    }
    demo_record_text(record.demo_stage(), record.demo_hi_score())
}

} // verus!
