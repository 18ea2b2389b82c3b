//! The thermal delimiter: two knobs, written one after the other and then read
//! back.
//!
//! ```text
//! 1|0 > /sys/devices/platform/battery/disable_nafg
//! 1|0 > /sys/devices/platform/battery/ntc_disable_nafg
//! ```

use vstd::prelude::*;

use crate::mtk::{held, Action, Knob, MtkError, Outcome, Setting};

verus! {

/// Where a run that enables or disables the delimiter stands.
pub enum ThermalStage {
    /// Write the first knob.
    WriteFirst,
    /// Write the second knob.
    WriteSecond,
    /// Read the first knob back.
    VerifyFirst,
    /// Read the second knob back.
    VerifySecond,
    /// The second knob could not be written: turn the first one back.
    UndoFirst(MtkError),
    /// A knob does not hold its value: turn the first one back, then the second.
    UndoBoth(MtkError),
    /// The first knob was turned back: now the second.
    UndoSecond(MtkError),
    /// The run is over.
    Finished(Outcome),
}

/// A run that enables the delimiter, or disables it.
pub struct ThermalRun {
    pub enable: bool,
    pub stage: ThermalStage,
}

/// What both knobs hold where the delimiter is enabled, or not.
pub open spec fn delimiter(enable: bool) -> Setting {
    if enable {
        Setting::On
    } else {
        Setting::Off
    }
}

/// What both knobs hold where the delimiter is enabled, or not.
fn delimiter_setting(enable: bool) -> (r: Setting)
    ensures
        r == delimiter(enable),
{
    if enable {
        Setting::On
    } else {
        Setting::Off
    }
}

impl ThermalRun {
    /// What the run asks for next.
    pub open spec fn asks(self) -> Option<Action> {
        let wanted = delimiter(self.enable);
        let undone = delimiter(!self.enable);
        match self.stage {
            ThermalStage::WriteFirst => Some(
                Action::Write { knob: Knob::DisableNafg, setting: wanted },
            ),
            ThermalStage::WriteSecond => Some(
                Action::Write { knob: Knob::NtcDisableNafg, setting: wanted },
            ),
            ThermalStage::VerifyFirst => Some(
                Action::Verify { knob: Knob::DisableNafg, setting: wanted },
            ),
            ThermalStage::VerifySecond => Some(
                Action::Verify { knob: Knob::NtcDisableNafg, setting: wanted },
            ),
            ThermalStage::UndoFirst(_) => Some(
                Action::Write { knob: Knob::DisableNafg, setting: undone },
            ),
            ThermalStage::UndoBoth(_) => Some(
                Action::Write { knob: Knob::DisableNafg, setting: undone },
            ),
            ThermalStage::UndoSecond(_) => Some(
                Action::Write { knob: Knob::NtcDisableNafg, setting: undone },
            ),
            ThermalStage::Finished(_) => None,
        }
    }

    /// Where the run stands once the action it asked for has gone as `outcome`
    /// says.
    pub open spec fn after(self, outcome: Outcome) -> ThermalRun {
        let stage = match self.stage {
            ThermalStage::WriteFirst => match outcome {
                Ok(_) => ThermalStage::WriteSecond,
                Err(e) => ThermalStage::Finished(Err(e)),
            },
            ThermalStage::WriteSecond => match outcome {
                Ok(_) => ThermalStage::VerifyFirst,
                Err(e) => ThermalStage::UndoFirst(e),
            },
            ThermalStage::VerifyFirst => match outcome {
                Ok(_) => ThermalStage::VerifySecond,
                Err(e) => ThermalStage::UndoBoth(e),
            },
            ThermalStage::VerifySecond => match outcome {
                Ok(_) => ThermalStage::Finished(Ok(())),
                Err(e) => ThermalStage::UndoBoth(e),
            },
            ThermalStage::UndoFirst(e) => ThermalStage::Finished(Err(e)),
            ThermalStage::UndoBoth(e) => ThermalStage::UndoSecond(e),
            ThermalStage::UndoSecond(e) => ThermalStage::Finished(Err(e)),
            ThermalStage::Finished(r) => ThermalStage::Finished(r),
        };
        ThermalRun { enable: self.enable, stage }
    }

    /// The actions of the run from here on, where they go as `outcomes` says.
    pub open spec fn actions(self, outcomes: Seq<Outcome>) -> Seq<Action>
        decreases outcomes.len(),
    {
        match self.asks() {
            Some(action) if outcomes.len() > 0 => {
                seq![action] + self.after(outcomes[0]).actions(outcomes.drop_first())
            },
            _ => seq![],
        }
    }

    /// Where the run stands after actions that went as `outcomes` says.
    pub open spec fn end(self, outcomes: Seq<Outcome>) -> ThermalRun
        decreases outcomes.len(),
    {
        if outcomes.len() == 0 {
            self
        } else {
            self.after(outcomes[0]).end(outcomes.drop_first())
        }
    }

    /// What the run asks for next; nothing once it is over.
    pub fn pending(&self) -> (r: Option<Action>)
        ensures
            r == self.asks(),
    {
        let wanted: Setting = delimiter_setting(self.enable);
        let undone: Setting = delimiter_setting(!self.enable);
        match self.stage {
            ThermalStage::WriteFirst => Some(
                Action::Write { knob: Knob::DisableNafg, setting: wanted },
            ),
            ThermalStage::WriteSecond => Some(
                Action::Write { knob: Knob::NtcDisableNafg, setting: wanted },
            ),
            ThermalStage::VerifyFirst => Some(
                Action::Verify { knob: Knob::DisableNafg, setting: wanted },
            ),
            ThermalStage::VerifySecond => Some(
                Action::Verify { knob: Knob::NtcDisableNafg, setting: wanted },
            ),
            ThermalStage::UndoFirst(_) => Some(
                Action::Write { knob: Knob::DisableNafg, setting: undone },
            ),
            ThermalStage::UndoBoth(_) => Some(
                Action::Write { knob: Knob::DisableNafg, setting: undone },
            ),
            ThermalStage::UndoSecond(_) => Some(
                Action::Write { knob: Knob::NtcDisableNafg, setting: undone },
            ),
            ThermalStage::Finished(_) => None,
        }
    }

    /// Takes note of how the pending action went. A failed first write ends the
    /// run; a failed second write first turns the first knob back, and a failed
    /// verification both. How an undoing write goes does not count.
    pub fn advance(self, outcome: Outcome) -> (r: ThermalRun)
        ensures
            r == self.after(outcome),
    {
        let enable: bool = self.enable;
        let stage = match self.stage {
            ThermalStage::WriteFirst => match outcome {
                Ok(_) => ThermalStage::WriteSecond,
                Err(e) => ThermalStage::Finished(Err(e)),
            },
            ThermalStage::WriteSecond => match outcome {
                Ok(_) => ThermalStage::VerifyFirst,
                Err(e) => ThermalStage::UndoFirst(e),
            },
            ThermalStage::VerifyFirst => match outcome {
                Ok(_) => ThermalStage::VerifySecond,
                Err(e) => ThermalStage::UndoBoth(e),
            },
            ThermalStage::VerifySecond => match outcome {
                Ok(_) => ThermalStage::Finished(Ok(())),
                Err(e) => ThermalStage::UndoBoth(e),
            },
            ThermalStage::UndoFirst(e) => ThermalStage::Finished(Err(e)),
            ThermalStage::UndoBoth(e) => ThermalStage::UndoSecond(e),
            ThermalStage::UndoSecond(e) => ThermalStage::Finished(Err(e)),
            ThermalStage::Finished(r) => ThermalStage::Finished(r),
        };
        ThermalRun { enable, stage }
    }

    /// The result of a run that is over, or the run itself.
    pub fn finish(self) -> (r: Result<Outcome, ThermalRun>)
        ensures
            match self.stage {
                ThermalStage::Finished(outcome) => r == Ok::<Outcome, ThermalRun>(outcome),
                _ => r == Err::<Outcome, ThermalRun>(self),
            },
    {
        match self.stage {
            ThermalStage::Finished(outcome) => Ok(outcome),
            _ => Err(self),
        }
    }
}

/// Begins to enable the delimiter: writes 1 to both knobs and reads both back.
pub fn enable_thermal_delimiter() -> (run: ThermalRun)
    ensures
        run == (ThermalRun { enable: true, stage: ThermalStage::WriteFirst }),
{
    ThermalRun { enable: true, stage: ThermalStage::WriteFirst }
}

/// Begins to disable the delimiter: writes 0 to both knobs and reads both back.
pub fn disable_thermal_delimiter() -> (run: ThermalRun)
    ensures
        run == (ThermalRun { enable: false, stage: ThermalStage::WriteFirst }),
{
    ThermalRun { enable: false, stage: ThermalStage::WriteFirst }
}

/// The actions of a run that nothing goes wrong in.
pub open spec fn thermal_script(enable: bool) -> Seq<Action> {
    let wanted = delimiter(enable);
    seq![
        Action::Write { knob: Knob::DisableNafg, setting: wanted },
        Action::Write { knob: Knob::NtcDisableNafg, setting: wanted },
        Action::Verify { knob: Knob::DisableNafg, setting: wanted },
        Action::Verify { knob: Knob::NtcDisableNafg, setting: wanted },
    ]
}

/// The actions that turn both knobs back.
pub open spec fn thermal_undo(enable: bool) -> Seq<Action> {
    let undone = delimiter(!enable);
    seq![
        Action::Write { knob: Knob::DisableNafg, setting: undone },
        Action::Write { knob: Knob::NtcDisableNafg, setting: undone },
    ]
}

/// The actions of a run: the script up to the first action that fails, then the
/// undoing writes. Where the first write fails there is nothing to undo; where
/// the second does, only the first knob is turned back.
pub open spec fn thermal_actions(enable: bool, outcomes: Seq<Outcome>) -> Seq<Action> {
    let script = thermal_script(enable);
    let undo = thermal_undo(enable);
    if outcomes[0] is Err {
        script.take(1)
    } else if outcomes[1] is Err {
        script.take(2) + undo.take(1)
    } else if outcomes[2] is Err {
        script.take(3) + undo
    } else if outcomes[3] is Err {
        script + undo
    } else {
        script
    }
}

/// What a run comes to: the first action of the script that fails decides.
pub open spec fn thermal_result(outcomes: Seq<Outcome>) -> Outcome {
    match (outcomes[0], outcomes[1], outcomes[2], outcomes[3]) {
        (Err(e), _, _, _) => Err(e),
        (_, Err(e), _, _) => Err(e),
        (_, _, Err(e), _) => Err(e),
        (_, _, _, Err(e)) => Err(e),
        _ => Ok(()),
    }
}

/// A run that is over stays over.
proof fn lemma_finished_stays(run: ThermalRun, outcomes: Seq<Outcome>)
    ensures
        run.stage is Finished ==> run.end(outcomes) == run && run.actions(outcomes) == Seq::<
            Action,
        >::empty(),
    decreases outcomes.len(),
{
    if outcomes.len() > 0 {
        lemma_finished_stays(run.after(outcomes[0]), outcomes.drop_first());
    }
}

/// The whole of a run, for every way its actions can go: what it performs, in
/// what order, and what it comes to.
pub proof fn law_thermal_run(enable: bool, outcomes: Seq<Outcome>)
    requires
        outcomes.len() >= 6,
    ensures
        ({
            let run = ThermalRun { enable, stage: ThermalStage::WriteFirst };
            &&& run.actions(outcomes) == thermal_actions(enable, outcomes)
            &&& run.end(outcomes).stage == ThermalStage::Finished(thermal_result(outcomes))
        }),
{
    let run = ThermalRun { enable, stage: ThermalStage::WriteFirst };
    reveal_with_fuel(ThermalRun::actions, 7);
    reveal_with_fuel(ThermalRun::end, 7);
    let o1 = outcomes.drop_first();
    let o2 = o1.drop_first();
    let o3 = o2.drop_first();
    let o4 = o3.drop_first();
    let o5 = o4.drop_first();
    let o6 = o5.drop_first();
    assert(o1[0] == outcomes[1]);
    assert(o2[0] == outcomes[2]);
    assert(o3[0] == outcomes[3]);
    let r1 = run.after(outcomes[0]);
    let r2 = r1.after(o1[0]);
    let r3 = r2.after(o2[0]);
    let r4 = r3.after(o3[0]);
    let r5 = r4.after(o4[0]);
    let r6 = r5.after(o5[0]);
    lemma_finished_stays(r1, o1);
    lemma_finished_stays(r3, o3);
    lemma_finished_stays(r4, o4);
    lemma_finished_stays(r5, o5);
    lemma_finished_stays(r6, o6);
    assert(run.actions(outcomes) =~= thermal_actions(enable, outcomes));
}

/// A run that succeeds leaves both knobs as asked, and has read both back.
pub proof fn law_thermal_success(enable: bool, outcomes: Seq<Outcome>, knobs: Map<Knob, Setting>)
    requires
        outcomes.len() >= 6,
        thermal_result(outcomes) is Ok,
    ensures
        ({
            let run = ThermalRun { enable, stage: ThermalStage::WriteFirst };
            &&& held(knobs, run.actions(outcomes), outcomes) == knobs.insert(
                Knob::DisableNafg,
                delimiter(enable),
            ).insert(Knob::NtcDisableNafg, delimiter(enable))
            &&& run.actions(outcomes)[2] == (Action::Verify {
                knob: Knob::DisableNafg,
                setting: delimiter(enable),
            })
            &&& run.actions(outcomes)[3] == (Action::Verify {
                knob: Knob::NtcDisableNafg,
                setting: delimiter(enable),
            })
            &&& outcomes[2] is Ok
            &&& outcomes[3] is Ok
        }),
{
    law_thermal_run(enable, outcomes);
    reveal_with_fuel(held, 7);
    let run = ThermalRun { enable, stage: ThermalStage::WriteFirst };
    let acts = run.actions(outcomes);
    assert(acts.len() == 4);
    assert(held(knobs, acts, outcomes) =~= knobs.insert(
        Knob::DisableNafg,
        delimiter(enable),
    ).insert(Knob::NtcDisableNafg, delimiter(enable)));
}

/// A run whose second write fails turns the first knob back, and leaves the
/// second as it was.
pub proof fn law_thermal_write_rollback(
    enable: bool,
    outcomes: Seq<Outcome>,
    knobs: Map<Knob, Setting>,
)
    requires
        outcomes.len() >= 6,
        outcomes[0] is Ok,
        outcomes[1] is Err,
        outcomes[2] is Ok,
    ensures
        ({
            let run = ThermalRun { enable, stage: ThermalStage::WriteFirst };
            held(knobs, run.actions(outcomes), outcomes) == knobs.insert(
                Knob::DisableNafg,
                delimiter(!enable),
            )
        }),
{
    law_thermal_run(enable, outcomes);
    reveal_with_fuel(held, 7);
    let run = ThermalRun { enable, stage: ThermalStage::WriteFirst };
    let acts = run.actions(outcomes);
    assert(acts.len() == 3);
    assert(held(knobs, acts, outcomes) =~= knobs.insert(Knob::DisableNafg, delimiter(!enable)));
}

/// A run whose verification fails turns both knobs back.
pub proof fn law_thermal_verify_rollback(
    enable: bool,
    outcomes: Seq<Outcome>,
    knobs: Map<Knob, Setting>,
)
    requires
        outcomes.len() >= 6,
        outcomes[0] is Ok,
        outcomes[1] is Ok,
        outcomes[2] is Err || outcomes[3] is Err,
        // The two undoing writes, wherever they come.
        outcomes[2] is Err ==> outcomes[3] is Ok && outcomes[4] is Ok,
        outcomes[2] is Ok ==> outcomes[4] is Ok && outcomes[5] is Ok,
    ensures
        ({
            let run = ThermalRun { enable, stage: ThermalStage::WriteFirst };
            held(knobs, run.actions(outcomes), outcomes) == knobs.insert(
                Knob::DisableNafg,
                delimiter(!enable),
            ).insert(Knob::NtcDisableNafg, delimiter(!enable))
        }),
{
    law_thermal_run(enable, outcomes);
    reveal_with_fuel(held, 7);
    let run = ThermalRun { enable, stage: ThermalStage::WriteFirst };
    let acts = run.actions(outcomes);
    if outcomes[2] is Err {
        assert(acts.len() == 5);
    } else {
        assert(acts.len() == 6);
    }
    assert(held(knobs, acts, outcomes) =~= knobs.insert(
        Knob::DisableNafg,
        delimiter(!enable),
    ).insert(Knob::NtcDisableNafg, delimiter(!enable)));
}

/// What enabling or disabling the delimiter does, action by action: `On` to enable
/// and `Off` to disable is written to both knobs and both are read back. The first
/// of these that fails decides. Where it is the second write, the first knob is
/// turned back; where it is a verification, both are.
pub proof fn law_thermal_steps(enable: bool, outcomes: Seq<Outcome>)
    requires
        outcomes.len() >= 6,
    ensures
        ({
            let run = ThermalRun { enable, stage: ThermalStage::WriteFirst };
            let acts = run.actions(outcomes);
            let end = run.end(outcomes).stage;
            let (wanted, undone) = if enable {
                (Setting::On, Setting::Off)
            } else {
                (Setting::Off, Setting::On)
            };
            let first = Knob::DisableNafg;
            let second = Knob::NtcDisableNafg;
            &&& acts.len() >= 1
            &&& acts[0] == (Action::Write { knob: first, setting: wanted })
            &&& if outcomes[0] is Err {
                acts.len() == 1 && end == ThermalStage::Finished(outcomes[0])
            } else {
                &&& acts.len() >= 3
                &&& acts[1] == (Action::Write { knob: second, setting: wanted })
                &&& if outcomes[1] is Err {
                    &&& acts.len() == 3
                    &&& acts[2] == (Action::Write { knob: first, setting: undone })
                    &&& end == ThermalStage::Finished(outcomes[1])
                } else {
                    &&& acts[2] == (Action::Verify { knob: first, setting: wanted })
                    &&& if outcomes[2] is Err {
                        &&& acts.len() == 5
                        &&& acts[3] == (Action::Write { knob: first, setting: undone })
                        &&& acts[4] == (Action::Write { knob: second, setting: undone })
                        &&& end == ThermalStage::Finished(outcomes[2])
                    } else {
                        &&& acts.len() >= 4
                        &&& acts[3] == (Action::Verify { knob: second, setting: wanted })
                        &&& if outcomes[3] is Err {
                            &&& acts.len() == 6
                            &&& acts[4] == (Action::Write { knob: first, setting: undone })
                            &&& acts[5] == (Action::Write { knob: second, setting: undone })
                            &&& end == ThermalStage::Finished(outcomes[3])
                        } else {
                            acts.len() == 4 && end == ThermalStage::Finished(Ok(()))
                        }
                    }
                }
            }
        }),
{
    law_thermal_run(enable, outcomes);
}

} // verus!
