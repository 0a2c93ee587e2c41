//! The order of a profile application: validate against a fresh snapshot of
//! the mixer, then run the source, settings and routing passes, each planned
//! from a fresh snapshot, and stop at the first failure. The caller reads
//! the snapshots and runs the commands; this state machine decides what
//! comes next.
use vstd::prelude::*;
use crate::model::{BridgeError, MixerSnapshot};
use crate::profile::{profile_error, validate_mixer_profile};
use crate::reconcile::{
    MixerCommand, commands_view, inputs_resolvable, plan_routing_pass, plan_settings_pass,
    plan_source_pass, routing_pass, settings_pass, source_pass,
};

verus! {

/// Where a profile application stands.
#[derive(Clone, Copy, Debug, PartialEq, Eq, Structural)]
pub enum ApplyStage {
    /// Waiting for the snapshot to validate the profile against.
    ReadingForValidation,
    RunningSourcePass,
    /// Waiting for the snapshot to plan the settings pass from.
    ReadingForSettings,
    RunningSettingsPass,
    /// Waiting for the snapshot to plan the routing pass from.
    ReadingForRouting,
    RunningRoutingPass,
    Finished,
}

/// What the caller reports back.
pub enum ApplyEvent {
    /// A fresh mixer snapshot.
    Snapshot(MixerSnapshot),
    /// Every command of the pass ran.
    CommandsRan,
    /// Reading the snapshot or running a command failed.
    Failed(BridgeError),
}

/// What the caller does next.
pub enum ApplyAction {
    ReadSnapshot,
    /// Run the commands in order, stopping at the first failure.
    Run(Vec<MixerCommand>),
    Finish(Result<(), BridgeError>),
}

/// A profile application in progress.
pub struct ProfileApplication {
    desired: MixerSnapshot,
    stage: ApplyStage,
    missing: Option<BridgeError>,
}

/// The event is one that the stage waits for.
pub open spec fn expects(stage: ApplyStage, event: ApplyEvent) -> bool {
    match stage {
        ApplyStage::ReadingForValidation | ApplyStage::ReadingForSettings
        | ApplyStage::ReadingForRouting => event is Snapshot || event is Failed,
        ApplyStage::RunningSourcePass | ApplyStage::RunningSettingsPass
        | ApplyStage::RunningRoutingPass => event is CommandsRan || event is Failed,
        ApplyStage::Finished => false,
    }
}

/// The error that the settings pass leaves for after its commands: a saved
/// source with no current match.
pub open spec fn missing_ok(missing: Option<BridgeError>, d: MixerSnapshot, c: MixerSnapshot) -> bool {
    match settings_pass(d, c).1 {
        Some(m) => missing matches Some(BridgeError::Backend(e)) && e@ == m,
        None => missing is None,
    }
}

impl ProfileApplication {
    /// The profile being applied.
    pub closed spec fn desired_profile(&self) -> MixerSnapshot {
        self.desired
    }

    pub closed spec fn stage_of(&self) -> ApplyStage {
        self.stage
    }

    /// The error the settings pass reported, held until its commands ran.
    pub closed spec fn missing_error(&self) -> Option<BridgeError> {
        self.missing
    }

    /// Starts applying `desired`: first read the mixer.
    pub fn start(desired: MixerSnapshot) -> (r: (Self, ApplyAction))
        ensures
            r.0.desired_profile() == desired,
            r.0.stage_of() == ApplyStage::ReadingForValidation,
            r.0.missing_error() is None,
            r.1 is ReadSnapshot,
    {
        (ProfileApplication { desired, stage: ApplyStage::ReadingForValidation, missing: None }, ApplyAction::ReadSnapshot)
    }

    /// The stage the application is in.
    pub fn stage(&self) -> (r: ApplyStage)
        ensures
            r == self.stage_of(),
    {
        self.stage
    }

    /// Decides what follows `event`. A failure ends the application with
    /// that error. The profile is validated against the first snapshot
    /// before any command is handed out; each pass is planned from the
    /// snapshot read just before it; a saved source missing after the
    /// source pass ends the application once the settings commands ran.
    pub fn step(&mut self, event: ApplyEvent) -> (r: ApplyAction)
        requires
            expects(old(self).stage_of(), event),
            old(self).stage_of() == ApplyStage::ReadingForSettings ==> (event matches ApplyEvent::Snapshot(c)
                ==> inputs_resolvable(old(self).desired_profile(), c)),
        ensures
            final(self).desired_profile() == old(self).desired_profile(),
            ({
                let d = old(self).desired_profile();
                match event {
                    ApplyEvent::Failed(e) => r matches ApplyAction::Finish(Err(x)) && x == e
                        && final(self).stage_of() == ApplyStage::Finished,
                    ApplyEvent::Snapshot(c) => match old(self).stage_of() {
                        ApplyStage::ReadingForValidation => match profile_error(d, c) {
                            Some(m) => (r matches ApplyAction::Finish(Err(BridgeError::InvalidValue(x))) && x@ == m)
                                && final(self).stage_of() == ApplyStage::Finished,
                            None => (r matches ApplyAction::Run(cmds) && commands_view(cmds@) == source_pass(d, c))
                                && final(self).stage_of() == ApplyStage::RunningSourcePass,
                        },
                        ApplyStage::ReadingForSettings => (r matches ApplyAction::Run(cmds) && commands_view(cmds@)
                            == settings_pass(d, c).0) && final(self).stage_of() == ApplyStage::RunningSettingsPass
                            && missing_ok(final(self).missing_error(), d, c),
                        _ => (r matches ApplyAction::Run(cmds) && commands_view(cmds@) == routing_pass(d, c))
                            && final(self).stage_of() == ApplyStage::RunningRoutingPass,
                    },
                    ApplyEvent::CommandsRan => match old(self).stage_of() {
                        ApplyStage::RunningSourcePass => r is ReadSnapshot && final(self).stage_of()
                            == ApplyStage::ReadingForSettings,
                        ApplyStage::RunningSettingsPass => match old(self).missing_error() {
                            Some(e) => (r matches ApplyAction::Finish(Err(x)) && x == e)
                                && final(self).stage_of() == ApplyStage::Finished,
                            None => r is ReadSnapshot && final(self).stage_of() == ApplyStage::ReadingForRouting,
                        },
                        _ => r matches ApplyAction::Finish(Ok(())) && final(self).stage_of()
                            == ApplyStage::Finished,
                    },
                }
            }),
    {
        match event {
            ApplyEvent::Failed(e) => {
                self.stage = ApplyStage::Finished;
                ApplyAction::Finish(Err(e))
            },
            ApplyEvent::Snapshot(current) => match self.stage {
                ApplyStage::ReadingForValidation => match validate_mixer_profile(&self.desired, &current) {
                    Err(e) => {
                        self.stage = ApplyStage::Finished;
                        ApplyAction::Finish(Err(e))
                    },
                    Ok(()) => {
                        self.stage = ApplyStage::RunningSourcePass;
                        ApplyAction::Run(plan_source_pass(&self.desired, &current))
                    },
                },
                ApplyStage::ReadingForSettings => {
                    let (commands, missing) = plan_settings_pass(&self.desired, &current);
                    self.missing = missing;
                    self.stage = ApplyStage::RunningSettingsPass;
                    ApplyAction::Run(commands)
                },
                _ => {
                    self.stage = ApplyStage::RunningRoutingPass;
                    ApplyAction::Run(plan_routing_pass(&self.desired, &current))
                },
            },
            ApplyEvent::CommandsRan => match self.stage {
                ApplyStage::RunningSourcePass => {
                    self.stage = ApplyStage::ReadingForSettings;
                    ApplyAction::ReadSnapshot
                },
                ApplyStage::RunningSettingsPass => {
                    let missing = self.missing.take();
                    match missing {
                        Some(e) => {
                            self.stage = ApplyStage::Finished;
                            ApplyAction::Finish(Err(e))
                        },
                        None => {
                            self.stage = ApplyStage::ReadingForRouting;
                            ApplyAction::ReadSnapshot
                        },
                    }
                },
                _ => {
                    self.stage = ApplyStage::Finished;
                    ApplyAction::Finish(Ok(()))
                },
            },
        }
    }
}

} // verus!
