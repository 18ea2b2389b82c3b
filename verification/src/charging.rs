//! Cutting and resuming charging.
//!
//! Both reset the power path first, because the driver can latch its state and
//! ignore a plain write:
//!
//! ```text
//! 0        > /proc/mtk_battery_cmd/en_power_path   (50 ms)
//! 1        > /proc/mtk_battery_cmd/en_power_path   (50 ms)
//! 1 1|0 0  > /proc/mtk_battery_cmd/current_cmd
//! ```

use vstd::prelude::*;

use crate::mtk::{held, Action, Knob, MtkError, Outcome, Setting, RESUME_RESET_DELAY_MS};

verus! {

/// Where a run that cuts or resumes charging stands.
pub enum ChargingStage {
    /// Write 0 to the power path.
    Reset,
    /// Let the driver take note.
    SettleReset,
    /// Write 1 to the power path.
    Enable,
    /// Let the driver take note.
    SettleEnable,
    /// Write the cut flag.
    Command,
    /// The cut flag could not be written: write the opposite.
    Undo(MtkError),
    /// The run is over.
    Finished(Outcome),
}

/// A run that cuts charging, or resumes it.
pub struct ChargingRun {
    pub cut: bool,
    pub stage: ChargingStage,
}

/// The cut flag for charging that is to be cut, or not.
pub open spec fn cut_flag(cut: bool) -> Setting {
    if cut {
        Setting::Cut
    } else {
        Setting::Uncut
    }
}

impl ChargingRun {
    /// What the run asks for next.
    pub open spec fn asks(self) -> Option<Action> {
        match self.stage {
            ChargingStage::Reset => Some(
                Action::Write { knob: Knob::EnPowerPath, setting: Setting::Off },
            ),
            ChargingStage::SettleReset => Some(Action::Sleep { millis: RESUME_RESET_DELAY_MS }),
            ChargingStage::Enable => Some(
                Action::Write { knob: Knob::EnPowerPath, setting: Setting::On },
            ),
            ChargingStage::SettleEnable => Some(Action::Sleep { millis: RESUME_RESET_DELAY_MS }),
            ChargingStage::Command => Some(
                Action::Write { knob: Knob::CurrentCmd, setting: cut_flag(self.cut) },
            ),
            ChargingStage::Undo(_) => Some(
                Action::Write { knob: Knob::CurrentCmd, setting: cut_flag(!self.cut) },
            ),
            ChargingStage::Finished(_) => None,
        }
    }

    /// Where the run stands once the action it asked for has gone as `outcome`
    /// says.
    pub open spec fn after(self, outcome: Outcome) -> ChargingRun {
        let stage = match self.stage {
            ChargingStage::Reset => match outcome {
                Ok(_) => ChargingStage::SettleReset,
                Err(e) => ChargingStage::Finished(Err(e)),
            },
            ChargingStage::SettleReset => ChargingStage::Enable,
            ChargingStage::Enable => match outcome {
                Ok(_) => ChargingStage::SettleEnable,
                Err(e) => ChargingStage::Finished(Err(e)),
            },
            ChargingStage::SettleEnable => ChargingStage::Command,
            ChargingStage::Command => match outcome {
                Ok(_) => ChargingStage::Finished(Ok(())),
                Err(e) => ChargingStage::Undo(e),
            },
            ChargingStage::Undo(e) => ChargingStage::Finished(Err(e)),
            ChargingStage::Finished(r) => ChargingStage::Finished(r),
        };
        ChargingRun { cut: self.cut, stage }
    }

    /// The actions of the run from here on, where they go as `outcomes` says.
    pub open spec fn actions(self, outcomes: Seq<Outcome>) -> Seq<Action>
        decreases outcomes.len(),
    {
        match self.asks() {
            Some(action) if outcomes.len() > 0 => {
                seq![action] + self.after(outcomes[0]).actions(outcomes.drop_first())
            },
            _ => seq![],
        }
    }

    /// Where the run stands after actions that went as `outcomes` says.
    pub open spec fn end(self, outcomes: Seq<Outcome>) -> ChargingRun
        decreases outcomes.len(),
    {
        if outcomes.len() == 0 {
            self
        } else {
            self.after(outcomes[0]).end(outcomes.drop_first())
        }
    }

    /// What the run asks for next; nothing once it is over.
    pub fn pending(&self) -> (r: Option<Action>)
        ensures
            r == self.asks(),
    {
        match self.stage {
            ChargingStage::Reset => Some(
                Action::Write { knob: Knob::EnPowerPath, setting: Setting::Off },
            ),
            ChargingStage::SettleReset => Some(Action::Sleep { millis: RESUME_RESET_DELAY_MS }),
            ChargingStage::Enable => Some(
                Action::Write { knob: Knob::EnPowerPath, setting: Setting::On },
            ),
            ChargingStage::SettleEnable => Some(Action::Sleep { millis: RESUME_RESET_DELAY_MS }),
            ChargingStage::Command => {
                let setting: Setting = if self.cut {
                    Setting::Cut
                } else {
                    Setting::Uncut
                };
                Some(Action::Write { knob: Knob::CurrentCmd, setting })
            },
            ChargingStage::Undo(_) => {
                let setting: Setting = if self.cut {
                    Setting::Uncut
                } else {
                    Setting::Cut
                };
                Some(Action::Write { knob: Knob::CurrentCmd, setting })
            },
            ChargingStage::Finished(_) => None,
        }
    }

    /// Takes note of how the pending action went. A failed write of the power
    /// path ends the run; a failed write of the cut flag first has the opposite
    /// flag written, whose own outcome does not count.
    pub fn advance(self, outcome: Outcome) -> (r: ChargingRun)
        ensures
            r == self.after(outcome),
    {
        let cut: bool = self.cut;
        let stage = match self.stage {
            ChargingStage::Reset => match outcome {
                Ok(_) => ChargingStage::SettleReset,
                Err(e) => ChargingStage::Finished(Err(e)),
            },
            ChargingStage::SettleReset => ChargingStage::Enable,
            ChargingStage::Enable => match outcome {
                Ok(_) => ChargingStage::SettleEnable,
                Err(e) => ChargingStage::Finished(Err(e)),
            },
            ChargingStage::SettleEnable => ChargingStage::Command,
            ChargingStage::Command => match outcome {
                Ok(_) => ChargingStage::Finished(Ok(())),
                Err(e) => ChargingStage::Undo(e),
            },
            ChargingStage::Undo(e) => ChargingStage::Finished(Err(e)),
            ChargingStage::Finished(r) => ChargingStage::Finished(r),
        };
        ChargingRun { cut, stage }
    }

    /// The result of a run that is over, or the run itself.
    pub fn finish(self) -> (r: Result<Outcome, ChargingRun>)
        ensures
            match self.stage {
                ChargingStage::Finished(outcome) => r == Ok::<Outcome, ChargingRun>(outcome),
                _ => r == Err::<Outcome, ChargingRun>(self),
            },
    {
        match self.stage {
            ChargingStage::Finished(outcome) => Ok(outcome),
            _ => Err(self),
        }
    }
}

/// Begins to cut charging: resets the power path, enables it again, then sets
/// the cut flag. Where that flag cannot be set, it is cleared.
pub fn cut_off_charging() -> (run: ChargingRun)
    ensures
        run == (ChargingRun { cut: true, stage: ChargingStage::Reset }),
{
    ChargingRun { cut: true, stage: ChargingStage::Reset }
}

/// Begins to resume charging: resets the power path, enables it again, then
/// clears the cut flag. Where that flag cannot be cleared, it is set.
pub fn resume_charging() -> (run: ChargingRun)
    ensures
        run == (ChargingRun { cut: false, stage: ChargingStage::Reset }),
{
    ChargingRun { cut: false, stage: ChargingStage::Reset }
}

/// All actions that a run can come to.
pub open spec fn charging_script(cut: bool) -> Seq<Action> {
    seq![
        Action::Write { knob: Knob::EnPowerPath, setting: Setting::Off },
        Action::Sleep { millis: 50 },
        Action::Write { knob: Knob::EnPowerPath, setting: Setting::On },
        Action::Sleep { millis: 50 },
        Action::Write { knob: Knob::CurrentCmd, setting: cut_flag(cut) },
        Action::Write { knob: Knob::CurrentCmd, setting: cut_flag(!cut) },
    ]
}

/// How many actions of the script a run performs: a failed write of the power
/// path is the last, and only a failed write of the cut flag is undone.
pub open spec fn charging_length(outcomes: Seq<Outcome>) -> int {
    if outcomes[0] is Err {
        1
    } else if outcomes[2] is Err {
        3
    } else if outcomes[4] is Ok {
        5
    } else {
        6
    }
}

/// What a run comes to: the first write that fails decides.
pub open spec fn charging_result(outcomes: Seq<Outcome>) -> Outcome {
    match (outcomes[0], outcomes[2], outcomes[4]) {
        (Err(e), _, _) => Err(e),
        (_, Err(e), _) => Err(e),
        (_, _, Err(e)) => Err(e),
        _ => Ok(()),
    }
}

/// The whole of a run, for every way its actions can go: what it performs, in
/// what order, and what it comes to.
pub proof fn law_charging_run(cut: bool, outcomes: Seq<Outcome>)
    requires
        outcomes.len() >= 6,
    ensures
        ({
            let run = ChargingRun { cut, stage: ChargingStage::Reset };
            &&& run.actions(outcomes) == charging_script(cut).take(charging_length(outcomes))
            &&& run.end(outcomes).stage == ChargingStage::Finished(charging_result(outcomes))
        }),
{
    let run = ChargingRun { cut, stage: ChargingStage::Reset };
    reveal_with_fuel(ChargingRun::actions, 7);
    reveal_with_fuel(ChargingRun::end, 7);
    let o1 = outcomes.drop_first();
    let o2 = o1.drop_first();
    let o3 = o2.drop_first();
    let o4 = o3.drop_first();
    let o5 = o4.drop_first();
    let o6 = o5.drop_first();
    assert(o2[0] == outcomes[2]);
    assert(o4[0] == outcomes[4]);
    lemma_finished_stays(run.after(outcomes[0]), o1);
    let r3 = run.after(outcomes[0]).after(o1[0]).after(o2[0]);
    lemma_finished_stays(r3, o3);
    let r5 = r3.after(o3[0]).after(o4[0]);
    lemma_finished_stays(r5, o5);
    lemma_finished_stays(r5.after(o5[0]), o6);
    assert(run.actions(outcomes) =~= charging_script(cut).take(charging_length(outcomes)));
}

/// A run that is over stays over.
proof fn lemma_finished_stays(run: ChargingRun, outcomes: Seq<Outcome>)
    ensures
        run.stage is Finished ==> run.end(outcomes) == run && run.actions(outcomes) == Seq::<
            Action,
        >::empty(),
    decreases outcomes.len(),
{
    if outcomes.len() > 0 {
        lemma_finished_stays(run.after(outcomes[0]), outcomes.drop_first());
    }
}

/// A run that succeeds leaves the power path enabled and the cut flag as asked.
pub proof fn law_charging_success(cut: bool, outcomes: Seq<Outcome>, knobs: Map<Knob, Setting>)
    requires
        outcomes.len() >= 6,
        charging_result(outcomes) is Ok,
    ensures
        ({
            let run = ChargingRun { cut, stage: ChargingStage::Reset };
            held(knobs, run.actions(outcomes), outcomes) == knobs.insert(
                Knob::EnPowerPath,
                Setting::On,
            ).insert(Knob::CurrentCmd, cut_flag(cut))
        }),
{
    law_charging_run(cut, outcomes);
    reveal_with_fuel(held, 7);
    let run = ChargingRun { cut, stage: ChargingStage::Reset };
    let acts = run.actions(outcomes);
    assert(acts.len() == 5);
    assert(held(knobs, acts, outcomes) =~= knobs.insert(Knob::EnPowerPath, Setting::On).insert(
        Knob::CurrentCmd,
        cut_flag(cut),
    ));
}

/// A run whose last step fails has the opposite flag written; where that goes
/// well, the flag is as before the command: cut stays cut, uncut stays uncut.
pub proof fn law_charging_rollback(cut: bool, outcomes: Seq<Outcome>, knobs: Map<Knob, Setting>)
    requires
        outcomes.len() >= 6,
        outcomes[0] is Ok,
        outcomes[2] is Ok,
        outcomes[4] is Err,
        outcomes[5] is Ok,
    ensures
        ({
            let run = ChargingRun { cut, stage: ChargingStage::Reset };
            &&& run.end(outcomes).stage == ChargingStage::Finished(outcomes[4])
            &&& held(knobs, run.actions(outcomes), outcomes) == knobs.insert(
                Knob::EnPowerPath,
                Setting::On,
            ).insert(Knob::CurrentCmd, cut_flag(!cut))
        }),
{
    law_charging_run(cut, outcomes);
    reveal_with_fuel(held, 7);
    let run = ChargingRun { cut, stage: ChargingStage::Reset };
    let acts = run.actions(outcomes);
    assert(acts.len() == 6);
    assert(held(knobs, acts, outcomes) =~= knobs.insert(Knob::EnPowerPath, Setting::On).insert(
        Knob::CurrentCmd,
        cut_flag(!cut),
    ));
}

/// Cutting and resuming are the same run but for the flag they write, and each
/// comes to the same result where its actions go the same way.
pub proof fn law_cut_and_resume_are_symmetric(outcomes: Seq<Outcome>)
    requires
        outcomes.len() >= 6,
    ensures
        ({
            let cut = ChargingRun { cut: true, stage: ChargingStage::Reset };
            let resume = ChargingRun { cut: false, stage: ChargingStage::Reset };
            &&& cut.end(outcomes).stage == resume.end(outcomes).stage
            &&& resume.actions(outcomes) == cut.actions(outcomes).map_values(
                |a: Action| opposite(a),
            )
        }),
{
    law_charging_run(true, outcomes);
    law_charging_run(false, outcomes);
    let n = charging_length(outcomes);
    assert(charging_script(false).take(n) =~= charging_script(true).take(n).map_values(
        |a: Action| opposite(a),
    ));
}

/// The action with the cut flag turned round.
pub open spec fn opposite(action: Action) -> Action {
    match action {
        Action::Write { knob, setting: Setting::Cut } => {
            Action::Write { knob, setting: Setting::Uncut }
        },
        Action::Write { knob, setting: Setting::Uncut } => {
            Action::Write { knob, setting: Setting::Cut }
        },
        other => other,
    }
}

/// What cutting or resuming charging does, action by action: the power path is
/// switched off and on again with 50 ms after each, then the flag is written, `Cut`
/// to cut and `Uncut` to resume. A write that fails is the last and decides, but
/// for the flag, after which the opposite flag is written once.
pub proof fn law_charging_actions(cut: bool, outcomes: Seq<Outcome>)
    requires
        outcomes.len() >= 6,
    ensures
        ({
            let run = ChargingRun { cut, stage: ChargingStage::Reset };
            let acts = run.actions(outcomes);
            let end = run.end(outcomes).stage;
            let (flag, opposite) = if cut {
                (Setting::Cut, Setting::Uncut)
            } else {
                (Setting::Uncut, Setting::Cut)
            };
            &&& acts.len() >= 1
            &&& acts[0] == (Action::Write { knob: Knob::EnPowerPath, setting: Setting::Off })
            &&& if outcomes[0] is Err {
                acts.len() == 1 && end == ChargingStage::Finished(outcomes[0])
            } else {
                &&& acts.len() >= 3
                &&& acts[1] == (Action::Sleep { millis: 50 })
                &&& acts[2] == (Action::Write { knob: Knob::EnPowerPath, setting: Setting::On })
                &&& if outcomes[2] is Err {
                    acts.len() == 3 && end == ChargingStage::Finished(outcomes[2])
                } else {
                    &&& acts.len() >= 5
                    &&& acts[3] == (Action::Sleep { millis: 50 })
                    &&& acts[4] == (Action::Write { knob: Knob::CurrentCmd, setting: flag })
                    &&& if outcomes[4] is Err {
                        &&& acts.len() == 6
                        &&& acts[5] == (Action::Write { knob: Knob::CurrentCmd, setting: opposite })
                        &&& end == ChargingStage::Finished(outcomes[4])
                    } else {
                        acts.len() == 5 && end == ChargingStage::Finished(Ok(()))
                    }
                }
            }
        }),
{
    law_charging_run(cut, outcomes);
}

} // verus!
