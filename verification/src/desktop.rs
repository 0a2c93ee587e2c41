//! Status, refresh ordering and small presentation rules of the desktop
//! client.
use vstd::prelude::*;
use crate::client::DaemonErrorKind;
use crate::text::{
    decimal, decimal_string, push_str, str_eq, chars_of, string_push, seq_starts_with,
    ascii_lower_seq, eq_ignore_ascii_case, str_trim, to_ascii_lowercase, trim_seq, str_contains,
    seq_contains,
};
use crate::model::{MixerDeviceChoice, MixerSnapshot, MuteState, LinkChannel, MixerChannel, MixerSourceKind};
use crate::dsp::{DspWriteModule, EqualizerBandType, module_name};

verus! {

/// The banner and status line shown for a daemon failure.
#[derive(Debug, Clone, PartialEq, Eq)]
pub struct DaemonStatusPresentation {
    pub kind: &'static str,
    pub title: &'static str,
    pub detail: String,
    pub status: String,
}

pub open spec fn status_kind_text(kind: DaemonErrorKind) -> Seq<char> {
    match kind {
        DaemonErrorKind::Offline => "offline"@,
        DaemonErrorKind::Timeout => "timeout"@,
        DaemonErrorKind::HttpStatus(_) => "http"@,
        DaemonErrorKind::InvalidResponse => "invalid_response"@,
        DaemonErrorKind::Transport => "transport"@,
    }
}

pub open spec fn status_title_text(kind: DaemonErrorKind) -> Seq<char> {
    match kind {
        DaemonErrorKind::Offline => "STUDIOBRIDGE DAEMON IS OFFLINE"@,
        DaemonErrorKind::Timeout => "STUDIOBRIDGE DAEMON DID NOT RESPOND"@,
        DaemonErrorKind::HttpStatus(_) => "STUDIOBRIDGE DAEMON REJECTED THE REQUEST"@,
        DaemonErrorKind::InvalidResponse => "STUDIOBRIDGE DAEMON RESPONSE IS INVALID"@,
        DaemonErrorKind::Transport => "STUDIOBRIDGE DAEMON CONNECTION FAILED"@,
    }
}

pub open spec fn status_detail_text(kind: DaemonErrorKind) -> Seq<char> {
    match kind {
        DaemonErrorKind::Offline => "StudioBridge cannot reach the local daemon at 127.0.0.1:17840. Start or restart the daemon, then retry."@,
        DaemonErrorKind::Timeout => "The local daemon did not answer within the bounded timeout. No change is assumed to have completed."@,
        DaemonErrorKind::HttpStatus(s) => "The local daemon returned HTTP "@ + decimal(s as nat)
            + ". Existing read-only data remains available; retry after checking the daemon status."@,
        DaemonErrorKind::InvalidResponse => "The daemon replied, but StudioBridge could not safely decode its response. Controls remain unconfirmed until a valid refresh succeeds."@,
        DaemonErrorKind::Transport => "The localhost connection failed outside the normal offline or timeout cases. No change is assumed to have completed."@,
    }
}

/// The reason appended to the context in the status line.
pub open spec fn status_reason_text(kind: DaemonErrorKind) -> Seq<char> {
    match kind {
        DaemonErrorKind::Offline => "daemon offline"@,
        DaemonErrorKind::Timeout => "request timed out"@,
        DaemonErrorKind::HttpStatus(s) => "daemon returned HTTP "@ + decimal(s as nat),
        DaemonErrorKind::InvalidResponse => "invalid daemon response"@,
        DaemonErrorKind::Transport => "daemon transport failed"@,
    }
}

/// The status line for a failure in a context.
pub open spec fn status_line(kind: DaemonErrorKind, context: Seq<char>) -> Seq<char> {
    context + ": "@ + status_reason_text(kind)
}

fn concat2(a: &str, b: &str) -> (r: String)
    ensures
        r@ == a@ + b@,
{
    let mut s = String::from_str(a);
    push_str(&mut s, b);
    s
}

fn concat3(a: &str, b: &str, c: &str) -> (r: String)
    ensures
        r@ == a@ + b@ + c@,
{
    let mut s = String::from_str(a);
    push_str(&mut s, b);
    push_str(&mut s, c);
    s
}

fn status_reason(kind: DaemonErrorKind) -> (r: String)
    ensures
        r@ == status_reason_text(kind),
{
    match kind {
        DaemonErrorKind::Offline => String::from_str("daemon offline"),
        DaemonErrorKind::Timeout => String::from_str("request timed out"),
        DaemonErrorKind::HttpStatus(status) => {
            let digits = decimal_string(status as u64);
            concat2("daemon returned HTTP ", digits.as_str())
        },
        DaemonErrorKind::InvalidResponse => String::from_str("invalid daemon response"),
        DaemonErrorKind::Transport => String::from_str("daemon transport failed"),
    }
}

/// The deterministic, category-specific presentation of a daemon failure.
pub fn daemon_status_for_kind(kind: DaemonErrorKind, context: &str) -> (r: DaemonStatusPresentation)
    ensures
        r.kind@ == status_kind_text(kind),
        r.title@ == status_title_text(kind),
        r.detail@ == status_detail_text(kind),
        r.status@ == status_line(kind, context@),
{
    let reason = status_reason(kind);
    let status = concat3(context, ": ", reason.as_str());
    match kind {
        DaemonErrorKind::Offline => DaemonStatusPresentation {
            kind: "offline",
            title: "STUDIOBRIDGE DAEMON IS OFFLINE",
            detail: String::from_str(
                "StudioBridge cannot reach the local daemon at 127.0.0.1:17840. Start or restart the daemon, then retry.",
            ),
            status,
        },
        DaemonErrorKind::Timeout => DaemonStatusPresentation {
            kind: "timeout",
            title: "STUDIOBRIDGE DAEMON DID NOT RESPOND",
            detail: String::from_str(
                "The local daemon did not answer within the bounded timeout. No change is assumed to have completed.",
            ),
            status,
        },
        DaemonErrorKind::HttpStatus(code) => {
            let digits = decimal_string(code as u64);
            DaemonStatusPresentation {
                kind: "http",
                title: "STUDIOBRIDGE DAEMON REJECTED THE REQUEST",
                detail: concat3(
                    "The local daemon returned HTTP ",
                    digits.as_str(),
                    ". Existing read-only data remains available; retry after checking the daemon status.",
                ),
                status,
            }
        },
        DaemonErrorKind::InvalidResponse => DaemonStatusPresentation {
            kind: "invalid_response",
            title: "STUDIOBRIDGE DAEMON RESPONSE IS INVALID",
            detail: String::from_str(
                "The daemon replied, but StudioBridge could not safely decode its response. Controls remain unconfirmed until a valid refresh succeeds.",
            ),
            status,
        },
        DaemonErrorKind::Transport => DaemonStatusPresentation {
            kind: "transport",
            title: "STUDIOBRIDGE DAEMON CONNECTION FAILED",
            detail: String::from_str(
                "The localhost connection failed outside the normal offline or timeout cases. No change is assumed to have completed.",
            ),
            status,
        },
    }
}

/// The presentation of a daemon that answered but is not ready; it never
/// reuses the copy of a ready daemon.
pub fn daemon_not_ready_status(context: &str) -> (r: DaemonStatusPresentation)
    ensures
        r.kind@ == "not_ready"@,
        r.title@ == "STUDIOBRIDGE DAEMON IS NOT READY"@,
        r.detail@ == "The local daemon answered but reported that its audio runtime is not ready. Read-only navigation remains available."@,
        r.status@ == context@ + ": daemon reported not ready"@,
{
    DaemonStatusPresentation {
        kind: "not_ready",
        title: "STUDIOBRIDGE DAEMON IS NOT READY",
        detail: String::from_str(
            "The local daemon answered but reported that its audio runtime is not ready. Read-only navigation remains available.",
        ),
        status: concat2(context, ": daemon reported not ready"),
    }
}

/// The status carried from a mutation to the refresh that reads it back.
#[derive(Debug, Clone, PartialEq, Eq)]
pub struct RefreshStatus {
    pub status: String,
    pub alert: bool,
    pub failure_context: String,
    pub requires_profile_readback: bool,
    pub preferred_default: Option<(bool, String)>,
}

/// The ambiguity note of a failed mutation: a timeout leaves the result
/// unknown.
pub open spec fn ambiguity_text(kind: DaemonErrorKind) -> Seq<char> {
    if kind == DaemonErrorKind::Timeout {
        "; result was ambiguous, so current state was reloaded"@
    } else {
        "; current state was reloaded"@
    }
}

/// The status of a mutation: acceptance of the request and a reload, or the
/// failure with its ambiguity; it never claims the change took effect.
pub open spec fn mutation_status_spec(action: Seq<char>, result: Result<(), DaemonErrorKind>, r: RefreshStatus) -> bool {
    &&& r.failure_context@ == action + " was not confirmed"@
    &&& !r.requires_profile_readback
    &&& r.preferred_default is None
    &&& match result {
        Ok(_) => !r.alert && r.status@ == action + " request accepted; current state reloaded"@,
        Err(kind) => r.alert && r.status@ == status_line(kind, action + " was not confirmed"@)
            + ambiguity_text(kind),
    }
}

pub fn mutation_refresh_status(action: &str, result: &Result<(), DaemonErrorKind>) -> (r: RefreshStatus)
    ensures
        mutation_status_spec(action@, *result, r),
{
    let failure_context = concat2(action, " was not confirmed");
    match result {
        Ok(()) => RefreshStatus {
            status: concat2(action, " request accepted; current state reloaded"),
            alert: false,
            failure_context,
            requires_profile_readback: false,
            preferred_default: None,
        },
        Err(kind) => {
            let presentation = daemon_status_for_kind(*kind, failure_context.as_str());
            let ambiguity = match kind {
                DaemonErrorKind::Timeout => "; result was ambiguous, so current state was reloaded",
                _ => "; current state was reloaded",
            };
            let mut status = presentation.status;
            push_str(&mut status, ambiguity);
            RefreshStatus {
                status,
                alert: true,
                failure_context,
                requires_profile_readback: false,
                preferred_default: None,
            }
        },
    }
}

/// A profile mutation is only read back with the profile list.
pub fn profile_mutation_refresh_status(action: &str, result: &Result<(), DaemonErrorKind>) -> (r:
    RefreshStatus)
    ensures
        mutation_status_spec(action@, *result, RefreshStatus { requires_profile_readback: false, ..r }),
        r.requires_profile_readback,
{
    let mut status = mutation_refresh_status(action, result);
    status.requires_profile_readback = true;
    status
}

/// A default-device mutation stages the requested device for read-back when
/// the request was accepted.
pub fn default_mutation_refresh_status(
    action: &str,
    result: &Result<(), DaemonErrorKind>,
    input: bool,
    requested_id: &str,
) -> (r: RefreshStatus)
    ensures
        mutation_status_spec(action@, *result, RefreshStatus { preferred_default: None, ..r }),
        result is Ok ==> (r.preferred_default matches Some(p) && p.0 == input && p.1@
            == requested_id@),
        result is Err ==> r.preferred_default is None,
{
    let mut status = mutation_refresh_status(action, result);
    if result.is_ok() {
        status.preferred_default = Some((input, String::from_str(requested_id)));
    }
    status
}

/// A read-back settles a mutation only when health and snapshot are ready
/// and, for a profile mutation, the profile list too.
pub fn mutation_readback_is_authoritative(
    status: &RefreshStatus,
    health_ready: bool,
    snapshot_ready: bool,
    profiles_ready: bool,
) -> (r: bool)
    ensures
        r == (health_ready && snapshot_ready && (!status.requires_profile_readback
            || profiles_ready)),
{
    health_ready && snapshot_ready && (!status.requires_profile_readback || profiles_ready)
}

/// Merging a pending status with a newer one: an unreported alert is not
/// replaced by a success, profile read-back is required if either asks for
/// it, and the newer staged default wins.
pub open spec fn merged_status(pending: RefreshStatus, incoming: RefreshStatus) -> RefreshStatus {
    let base = if pending.alert && !incoming.alert {
        pending
    } else {
        incoming
    };
    RefreshStatus {
        requires_profile_readback: pending.requires_profile_readback
            || incoming.requires_profile_readback,
        preferred_default: if incoming.preferred_default is Some {
            incoming.preferred_default
        } else {
            pending.preferred_default
        },
        ..base
    }
}

pub fn merge_pending_refresh_status(pending: RefreshStatus, incoming: RefreshStatus) -> (r:
    RefreshStatus)
    ensures
        r == merged_status(pending, incoming),
{
    let requires_profile_readback = pending.requires_profile_readback
        || incoming.requires_profile_readback;
    let keep_pending = pending.alert && !incoming.alert;
    let (mut merged, other_default) = if keep_pending {
        let d = incoming.preferred_default;
        (pending, d)
    } else {
        let d = pending.preferred_default;
        (incoming, d)
    };
    let preferred_default = if keep_pending {
        match other_default {
            Some(d) => Some(d),
            None => merged.preferred_default,
        }
    } else {
        match merged.preferred_default {
            Some(d) => Some(d),
            None => other_default,
        }
    };
    merged.requires_profile_readback = requires_profile_readback;
    merged.preferred_default = preferred_default;
    merged
}

fn copy_text(s: &String) -> (r: String)
    ensures
        r == *s,
{
    s.clone()
}

/// A field-by-field copy of a status.
pub fn copy_status(s: &RefreshStatus) -> (r: RefreshStatus)
    ensures
        r == *s,
{
    let preferred_default = match &s.preferred_default {
        Some(p) => Some((p.0, copy_text(&p.1))),
        None => None,
    };
    RefreshStatus {
        status: copy_text(&s.status),
        alert: s.alert,
        failure_context: copy_text(&s.failure_context),
        requires_profile_readback: s.requires_profile_readback,
        preferred_default,
    }
}

/// The generation after `g`: it wraps past zero, which is never used.
pub open spec fn next_generation(g: u64) -> u64 {
    if g == u64::MAX {
        1
    } else {
        (g + 1) as u64
    }
}

/// The pending status after another refresh began with `status`.
pub open spec fn pending_after(pending: Option<RefreshStatus>, status: Option<RefreshStatus>) -> Option<RefreshStatus> {
    match status {
        Some(s) => Some(
            match pending {
                Some(p) => merged_status(p, s),
                None => s,
            },
        ),
        None => pending,
    }
}

/// Orders refreshes: only the newest generation may present its result or
/// consume the status of the mutations that preceded it.
#[derive(Debug)]
pub struct RefreshCoordinator {
    generation: u64,
    last_applied_generation: u64,
    pending_status: Option<RefreshStatus>,
}

impl RefreshCoordinator {
    pub closed spec fn current(&self) -> u64 {
        self.generation
    }

    pub closed spec fn applied(&self) -> u64 {
        self.last_applied_generation
    }

    pub closed spec fn pending(&self) -> Option<RefreshStatus> {
        self.pending_status
    }

    pub fn new() -> (r: Self)
        ensures
            r.current() == 0,
            r.applied() == 0,
            r.pending() is None,
    {
        RefreshCoordinator { generation: 0, last_applied_generation: 0, pending_status: None }
    }

    /// Starts a refresh, carrying a mutation's status forward, and returns
    /// its generation.
    pub fn begin(&mut self, status: Option<RefreshStatus>) -> (r: u64)
        ensures
            r == next_generation(old(self).current()),
            final(self).current() == r,
            final(self).applied() == old(self).applied(),
            final(self).pending() == pending_after(old(self).pending(), status),
    {
        self.generation = if self.generation == u64::MAX {
            1
        } else {
            self.generation + 1
        };
        match status {
            Some(s) => {
                let merged = match self.pending_status.take() {
                    Some(p) => merge_pending_refresh_status(p, s),
                    None => s,
                };
                self.pending_status = Some(merged);
            },
            None => {},
        }
        self.generation
    }

    /// The generation a health monitor may report under: only when no
    /// refresh is in flight.
    pub fn monitor_generation(&self) -> (r: Option<u64>)
        ensures
            r == (if self.current() == self.applied() {
                Some(self.current())
            } else {
                None
            }),
    {
        if self.generation == self.last_applied_generation {
            Some(self.generation)
        } else {
            None
        }
    }

    pub fn is_current(&self, generation: u64) -> (r: bool)
        ensures
            r == (generation == self.current()),
    {
        self.generation == generation
    }

    /// Records that the refresh of `generation` was presented, if it is
    /// still the newest.
    pub fn mark_applied(&mut self, generation: u64) -> (r: bool)
        ensures
            r == (generation == old(self).current()),
            final(self).current() == old(self).current(),
            final(self).pending() == old(self).pending(),
            final(self).applied() == (if r {
                generation
            } else {
                old(self).applied()
            }),
    {
        if self.generation != generation {
            return false;
        }
        self.last_applied_generation = generation;
        true
    }

    /// Takes the pending status for the newest refresh; a stale generation
    /// gets `None` and consumes nothing.
    pub fn take_pending_status(&mut self, generation: u64) -> (r: Option<Option<RefreshStatus>>)
        ensures
            final(self).current() == old(self).current(),
            final(self).applied() == old(self).applied(),
            generation != old(self).current() ==> r is None && final(self).pending() == old(
                self,
            ).pending(),
            generation == old(self).current() ==> r == Some(old(self).pending())
                && final(self).pending() is None,
    {
        if self.generation != generation {
            return None;
        }
        Some(self.pending_status.take())
    }

    /// Reads the pending status for the newest refresh and consumes it when
    /// the read-back is authoritative for it.
    pub fn settle_pending_status(
        &mut self,
        generation: u64,
        health_ready: bool,
        snapshot_ready: bool,
        profiles_ready: bool,
    ) -> (r: Option<Option<RefreshStatus>>)
        ensures
            final(self).current() == old(self).current(),
            final(self).applied() == old(self).applied(),
            generation != old(self).current() ==> r is None && final(self).pending() == old(
                self,
            ).pending(),
            generation == old(self).current() ==> r == Some(old(self).pending()),
            generation == old(self).current() ==> final(self).pending() == (match old(self).pending() {
                Some(s) => if health_ready && snapshot_ready && (!s.requires_profile_readback
                    || profiles_ready) {
                    None
                } else {
                    Some(s)
                },
                None => None,
            }),
    {
        if self.generation != generation {
            return None;
        }
        let status = match &self.pending_status {
            Some(s) => Some(copy_status(s)),
            None => None,
        };
        let settle = match &self.pending_status {
            Some(s) => mutation_readback_is_authoritative(s, health_ready, snapshot_ready, profiles_ready),
            None => false,
        };
        if settle {
            self.pending_status = None;
        }
        Some(status)
    }
}

/// A new refresh always invalidates the one before it, and generation zero
/// is never handed out.
pub proof fn lemma_begin_invalidates_previous(g: u64)
    ensures
        next_generation(g) != g,
        next_generation(g) != 0,
{
}

/// An unreported alert survives a newer success, and profile read-back is
/// kept if either status requires it.
pub proof fn lemma_merge_keeps_alert(pending: RefreshStatus, incoming: RefreshStatus)
    ensures
        pending.alert ==> merged_status(pending, incoming).alert,
        incoming.alert ==> merged_status(pending, incoming).alert,
        pending.alert && !incoming.alert ==> merged_status(pending, incoming).status == pending.status,
        merged_status(pending, incoming).requires_profile_readback == (pending.requires_profile_readback
            || incoming.requires_profile_readback),
{
}

/// The requested device is the one the snapshot reports.
pub fn default_selection_matches(actual: Option<&str>, requested_id: &str) -> (r: bool)
    ensures
        r == (actual matches Some(a) && a@ == requested_id@),
{
    match actual {
        Some(a) => str_eq(a, requested_id),
        None => false,
    }
}

fn opt_str(s: &Option<String>) -> (r: Option<&str>)
    ensures
        r matches Some(a) ==> (s matches Some(t) && a@ == t@),
        r is None <==> s is None,
{
    match s {
        Some(t) => Some(t.as_str()),
        None => None,
    }
}

/// The read-back of a default device selection matches the request.
pub open spec fn default_matches_spec(snapshot: crate::model::AppSnapshot, input: bool, requested: Seq<char>) -> bool {
    let actual = if input {
        snapshot.mixer.default_input
    } else {
        snapshot.mixer.default_output
    };
    actual matches Some(a) && a@ == requested
}

pub fn default_readback_matches(snapshot: &crate::model::AppSnapshot, input: bool, requested_id: &str) -> (r: bool)
    ensures
        r == default_matches_spec(*snapshot, input, requested_id@),
{
    if input {
        default_selection_matches(opt_str(&snapshot.mixer.default_input), requested_id)
    } else {
        default_selection_matches(opt_str(&snapshot.mixer.default_output), requested_id)
    }
}

#[derive(Debug, Clone, Copy, PartialEq, Eq, Structural)]
pub enum PreferredDefaultReadback {
    Retain,
    Persist,
    Reject,
}

/// A staged preferred default is kept until a healthy read-back, then
/// persisted if the daemon reports it and dropped otherwise.
pub fn preferred_default_readback(
    health_ready: bool,
    snapshot: Option<&crate::model::AppSnapshot>,
    input: bool,
    requested_id: &str,
) -> (r: PreferredDefaultReadback)
    ensures
        !health_ready ==> r == PreferredDefaultReadback::Retain,
        health_ready && snapshot is None ==> r == PreferredDefaultReadback::Retain,
        health_ready ==> (snapshot matches Some(s) ==> r == (if default_matches_spec(
            *s,
            input,
            requested_id@,
        ) {
            PreferredDefaultReadback::Persist
        } else {
            PreferredDefaultReadback::Reject
        })),
{
    if !health_ready {
        return PreferredDefaultReadback::Retain;
    }
    match snapshot {
        None => PreferredDefaultReadback::Retain,
        Some(s) => if default_readback_matches(s, input, requested_id) {
            PreferredDefaultReadback::Persist
        } else {
            PreferredDefaultReadback::Reject
        },
    }
}

pub const PROJECT_URL: &'static str = "https://github.com/dilllxd/StudioBridge";

pub const SUPPORT_URL: &'static str = "https://github.com/dilllxd/StudioBridge/issues";

/// Header links open only these fixed HTTPS destinations.
pub fn external_link_url(destination: &str) -> (r: Option<&'static str>)
    ensures
        destination@ == "project"@ ==> (r matches Some(u) && u@ == PROJECT_URL@),
        destination@ == "support"@ ==> (r matches Some(u) && u@ == SUPPORT_URL@),
        destination@ != "project"@ && destination@ != "support"@ ==> r is None,
{
    proof {
        reveal_strlit("project");
        reveal_strlit("support");
        assert("project"@[0] != "support"@[0]);
    }
    if str_eq(destination, "project") {
        Some(PROJECT_URL)
    } else if str_eq(destination, "support") {
        Some(SUPPORT_URL)
    } else {
        None
    }
}

/// Some choice offers the device.
pub open spec fn offered(choices: Seq<MixerDeviceChoice>, id: Seq<char>) -> bool {
    exists|i: int| 0 <= i < choices.len() && #[trigger] choices[i].id@ == id
}

/// The device to restore as default: the explicit preference, when
/// automatic reset is on, it is not already the default and it is offered.
pub open spec fn repair_spec(enabled: bool, preferred: Option<Seq<char>>, current: Option<Seq<char>>, choices: Seq<MixerDeviceChoice>) -> Option<Seq<char>> {
    if !enabled {
        None
    } else {
        match preferred {
            None => None,
            Some(p) => if current == Some(p) || !offered(choices, p) {
                None
            } else {
                Some(p)
            },
        }
    }
}

pub open spec fn opt_view(s: Option<&str>) -> Option<Seq<char>> {
    match s {
        Some(t) => Some(t@),
        None => None,
    }
}

pub open spec fn opt_string_view(s: Option<String>) -> Option<Seq<char>> {
    match s {
        Some(t) => Some(t@),
        None => None,
    }
}

fn choices_offer(choices: &[MixerDeviceChoice], id: &str) -> (r: bool)
    ensures
        r == offered(choices@, id@),
{
    let mut i: usize = 0;
    while i < choices.len()
        invariant
            i <= choices@.len(),
            forall|j: int| 0 <= j < i ==> choices@[j].id@ != id@,
        decreases choices@.len() - i,
    {
        if str_eq(choices[i].id.as_str(), id) {
            return true;
        }
        i = i + 1;
    }
    false
}

pub fn preferred_default_repair(
    enabled: bool,
    preferred: Option<&str>,
    current: Option<&str>,
    choices: &[MixerDeviceChoice],
) -> (r: Option<String>)
    ensures
        opt_string_view(r) == repair_spec(enabled, opt_view(preferred), opt_view(current), choices@),
{
    if !enabled {
        return None;
    }
    match preferred {
        None => None,
        Some(p) => {
            let already = match current {
                Some(c) => str_eq(c, p),
                None => false,
            };
            if already || !choices_offer(choices, p) {
                None
            } else {
                Some(String::from_str(p))
            }
        },
    }
}

#[derive(Debug, Clone, PartialEq, Eq)]
pub struct DefaultDeviceRepair {
    pub input: Option<String>,
    pub output: Option<String>,
}

/// The default input and output to restore from the saved preferences.
pub fn default_device_repair(
    automatic_default_reset: bool,
    preferred_input: Option<&str>,
    preferred_output: Option<&str>,
    mixer: &MixerSnapshot,
) -> (r: DefaultDeviceRepair)
    ensures
        opt_string_view(r.input) == repair_spec(
            automatic_default_reset,
            opt_view(preferred_input),
            opt_string_view(mixer.default_input),
            mixer.default_inputs@,
        ),
        opt_string_view(r.output) == repair_spec(
            automatic_default_reset,
            opt_view(preferred_output),
            opt_string_view(mixer.default_output),
            mixer.default_outputs@,
        ),
{
    let current_input = opt_str(&mixer.default_input);
    let current_output = opt_str(&mixer.default_output);
    DefaultDeviceRepair {
        input: preferred_default_repair(
            automatic_default_reset,
            preferred_input,
            current_input,
            mixer.default_inputs.as_slice(),
        ),
        output: preferred_default_repair(
            automatic_default_reset,
            preferred_output,
            current_output,
            mixer.default_outputs.as_slice(),
        ),
    }
}

/// A background start is honoured only when the tray is enabled.
pub fn should_start_in_background(requested: bool, open_to_system_tray: bool) -> (r: bool)
    ensures
        r == (requested && open_to_system_tray),
{
    requested && open_to_system_tray
}

/// A health monitor reports a recovery when a ready daemon follows an
/// unready one.
pub fn monitor_connection_recovered(health_ready: bool, daemon_was_ready: bool) -> (r: bool)
    ensures
        r == (health_ready && !daemon_was_ready),
{
    health_ready && !daemon_was_ready
}

/// The drawer keeps the window size unless it is maximised or fullscreen.
pub fn should_preserve_drawer_window_size(maximized: bool, fullscreen: bool) -> (r: bool)
    ensures
        r == (!maximized && !fullscreen),
{
    !maximized && !fullscreen
}

/// Separators of an action name read as spaces.
pub open spec fn hotkey_space(c: char) -> char {
    if c == ':' || c == '-' {
        ' '
    } else {
        c
    }
}

/// The spoken description of a hotkey action.
pub open spec fn hotkey_description_spec(a: Seq<char>) -> Seq<char> {
    if seq_starts_with(a, "profile:"@) {
        "Load mixer profile "@ + a.subrange(8, a.len() as int)
    } else if seq_starts_with(a, "mute:"@) {
        "Toggle mute for "@ + a.subrange(5, a.len() as int)
    } else if a == "mix:toggle-personal-device"@ {
        "Toggle Personal Mix device"@
    } else {
        a.map_values(|c: char| hotkey_space(c))
    }
}

fn chars_start_with(chars: &Vec<char>, prefix: &str) -> (r: bool)
    ensures
        r == seq_starts_with(chars@, prefix@),
{
    let p = chars_of(prefix);
    if p.len() > chars.len() {
        return false;
    }
    let mut i: usize = 0;
    while i < p.len()
        invariant
            i <= p@.len(),
            p@ == prefix@,
            p@.len() <= chars@.len(),
            forall|j: int| 0 <= j < i ==> chars@[j] == p@[j],
        decreases p@.len() - i,
    {
        if chars[i] != p[i] {
            assert(chars@.subrange(0, p@.len() as int)[i as int] != p@[i as int]);
            return false;
        }
        i = i + 1;
    }
    assert(chars@.subrange(0, p@.len() as int) =~= p@);
    true
}

fn push_chars_from(out: &mut String, chars: &Vec<char>, start: usize)
    requires
        start <= chars@.len(),
    ensures
        final(out)@ == old(out)@ + chars@.subrange(start as int, chars@.len() as int),
{
    let mut i = start;
    while i < chars.len()
        invariant
            start <= i <= chars@.len(),
            out@ == old(out)@ + chars@.subrange(start as int, i as int),
        decreases chars@.len() - i,
    {
        string_push(out, chars[i]);
        i = i + 1;
        assert(out@ =~= old(out)@ + chars@.subrange(start as int, i as int));
    }
}

pub fn hotkey_description(action: &str) -> (r: String)
    ensures
        r@ == hotkey_description_spec(action@),
{
    let chars = chars_of(action);
    if chars_start_with(&chars, "profile:") {
        proof {
            reveal_strlit("profile:");
        }
        let mut out = String::from_str("Load mixer profile ");
        push_chars_from(&mut out, &chars, 8);
        out
    } else if chars_start_with(&chars, "mute:") {
        proof {
            reveal_strlit("mute:");
        }
        let mut out = String::from_str("Toggle mute for ");
        push_chars_from(&mut out, &chars, 5);
        out
    } else if str_eq(action, "mix:toggle-personal-device") {
        String::from_str("Toggle Personal Mix device")
    } else {
        let mut out = String::new();
        let mut i: usize = 0;
        while i < chars.len()
            invariant
                i <= chars@.len(),
                chars@ == action@,
                out@ == chars@.subrange(0, i as int).map_values(|c: char| hotkey_space(c)),
            decreases chars@.len() - i,
        {
            let c = chars[i];
            let d = if c == ':' || c == '-' {
                ' '
            } else {
                c
            };
            string_push(&mut out, d);
            assert(d == hotkey_space(chars@[i as int]));
            i = i + 1;
            assert(out@ =~= chars@.subrange(0, i as int).map_values(|c: char| hotkey_space(c)));
        }
        assert(chars@.subrange(0, chars@.len() as int) =~= chars@);
        out
    }
}

/// A source's mute action: all, personal or (otherwise) audience.
pub fn normalize_mute_action(action: &str) -> (r: &'static str)
    ensures
        r@ == (if action@ == "all"@ {
            "all"@
        } else if action@ == "personal"@ {
            "personal"@
        } else {
            "audience"@
        }),
{
    if str_eq(action, "all") {
        "all"
    } else if str_eq(action, "personal") {
        "personal"
    } else {
        "audience"
    }
}

/// Whether the personal and audience mixes of a state are muted.
pub open spec fn personal_muted(m: MuteState) -> bool {
    m == MuteState::MutedAll || m == MuteState::MutedPersonal
}

pub open spec fn audience_muted(m: MuteState) -> bool {
    m == MuteState::MutedAll || m == MuteState::MutedAudience
}

/// The mute state with `target`'s mixes set to `muted` and the other mix
/// kept.
pub fn mute_state_with_target(current: MuteState, target: &str, muted: bool) -> (r: MuteState)
    ensures
        personal_muted(r) == (if target@ == "personal"@ || target@ == "all"@ {
            muted
        } else {
            personal_muted(current)
        }),
        audience_muted(r) == (if target@ == "audience"@ || target@ == "all"@ {
            muted
        } else {
            audience_muted(current)
        }),
{
    let all = str_eq(target, "all");
    let personal = if str_eq(target, "personal") || all {
        muted
    } else {
        current == MuteState::MutedAll || current == MuteState::MutedPersonal
    };
    let audience = if str_eq(target, "audience") || all {
        muted
    } else {
        current == MuteState::MutedAll || current == MuteState::MutedAudience
    };
    if !personal && !audience {
        MuteState::Unmuted
    } else if personal && audience {
        MuteState::MutedAll
    } else if personal {
        MuteState::MutedPersonal
    } else {
        MuteState::MutedAudience
    }
}

/// The label of a Link destination.
pub fn link_channel_label(channel: LinkChannel) -> (r: &'static str)
    ensures
        r@ == (match channel {
            LinkChannel::System => "System"@,
            LinkChannel::Link1 => "Link 1"@,
            LinkChannel::Link2 => "Link 2"@,
            LinkChannel::Link3 => "Link 3"@,
            LinkChannel::Link4 => "Link 4"@,
        }),
{
    match channel {
        LinkChannel::System => "System",
        LinkChannel::Link1 => "Link 1",
        LinkChannel::Link2 => "Link 2",
        LinkChannel::Link3 => "Link 3",
        LinkChannel::Link4 => "Link 4",
    }
}

/// The Link channel a source name stands for: 0 for the system, 1 to 4
/// for Link channels, -1 otherwise.
pub open spec fn link_channel_for_spec(name: Seq<char>) -> int {
    let n = ascii_lower_seq(trim_seq(name));
    if n == "system"@ {
        0
    } else if seq_contains(n, "link 4"@) || seq_contains(n, "link4"@) {
        4
    } else if seq_contains(n, "link 3"@) || seq_contains(n, "link3"@) {
        3
    } else if seq_contains(n, "link 2"@) || seq_contains(n, "link2"@) {
        2
    } else if n == "link in"@ || seq_contains(n, "link 1"@) || seq_contains(n, "link1"@) {
        1
    } else {
        -1
    }
}

pub fn link_channel_for_source(name: &str) -> (r: i32)
    ensures
        r == link_channel_for_spec(name@),
{
    let trimmed = str_trim(name);
    let lowered = to_ascii_lowercase(trimmed);
    let n = lowered.as_str();
    if str_eq(n, "system") {
        0
    } else if str_contains(n, "link 4") || str_contains(n, "link4") {
        4
    } else if str_contains(n, "link 3") || str_contains(n, "link3") {
        3
    } else if str_contains(n, "link 2") || str_contains(n, "link2") {
        2
    } else if str_eq(n, "link in") || str_contains(n, "link 1") || str_contains(n, "link1") {
        1
    } else {
        -1
    }
}

/// The lines of a text as `str::lines` yields them: split at `\n`, a `\r`
/// before the `\n` dropped, and no empty line after a final `\n`.
pub open spec fn lines_from(s: Seq<char>, cur: Seq<char>) -> Seq<Seq<char>>
    decreases s.len(),
{
    if s.len() == 0 {
        if cur.len() == 0 {
            Seq::empty()
        } else {
            seq![cur]
        }
    } else if s[0] == '\n' {
        seq![without_cr(cur)] + lines_from(s.drop_first(), Seq::empty())
    } else {
        lines_from(s.drop_first(), cur.push(s[0]))
    }
}

pub open spec fn without_cr(line: Seq<char>) -> Seq<char> {
    if line.len() > 0 && line.last() == '\r' {
        line.drop_last()
    } else {
        line
    }
}

pub open spec fn text_lines(s: Seq<char>) -> Seq<Seq<char>> {
    lines_from(s, Seq::empty())
}

/// No existing source name matches, ignoring ASCII case.
pub open spec fn source_name_available_spec(name: Seq<char>, source_names: Seq<char>) -> bool {
    forall|i: int|
        0 <= i < text_lines(source_names).len() ==> ascii_lower_seq(
            #[trigger] text_lines(source_names)[i],
        ) != ascii_lower_seq(name)
}

fn line_matches(line: &Vec<char>, name: &str) -> (r: bool)
    ensures
        r == (ascii_lower_seq(line@) == ascii_lower_seq(name@)),
{
    let text = crate::text::string_of(line);
    eq_ignore_ascii_case(text.as_str(), name)
}

fn vec_without_cr(line: Vec<char>) -> (r: Vec<char>)
    ensures
        r@ == without_cr(line@),
{
    let mut line = line;
    let n = line.len();
    if n > 0 && line[n - 1] == '\r' {
        line.pop();
    }
    line
}

pub fn source_name_available(name: &str, source_names: &str) -> (r: bool)
    ensures
        r == source_name_available_spec(name@, source_names@),
{
    let chars = chars_of(source_names);
    let ghost s = source_names@;
    let mut cur: Vec<char> = Vec::new();
    let mut i: usize = 0;
    let ghost mut seen: Seq<Seq<char>> = Seq::empty();
    assert(s.subrange(0, s.len() as int) =~= s);
    assert(seen + lines_from(s, cur@) =~= text_lines(s));
    while i < chars.len()
        invariant
            i <= chars@.len(),
            chars@ == s,
            s == source_names@,
            seen + lines_from(s.subrange(i as int, s.len() as int), cur@) == text_lines(s),
            forall|j: int| 0 <= j < seen.len() ==> ascii_lower_seq(#[trigger] seen[j]) != ascii_lower_seq(name@),
        decreases chars@.len() - i,
    {
        let c = chars[i];
        let ghost rest = s.subrange(i as int, s.len() as int);
        assert(rest.drop_first() =~= s.subrange(i + 1, s.len() as int));
        if c == '\n' {
            let line = vec_without_cr(cur);
            if line_matches(&line, name) {
                proof {
                    let lines = text_lines(s);
                    assert(rest[0] == '\n');
                    assert(lines_from(rest, cur@) == seq![without_cr(cur@)] + lines_from(rest.drop_first(), Seq::empty()));
                    assert(lines == seen + (seq![line@] + lines_from(s.subrange(i + 1, s.len() as int), Seq::empty())));
                    assert(lines[seen.len() as int] == line@);
                    assert(!source_name_available_spec(name@, s));
                }
                return false;
            }
            proof {
                assert(seen + (seq![line@] + lines_from(s.subrange(i + 1, s.len() as int), Seq::empty()))
                    =~= seen.push(line@) + lines_from(s.subrange(i + 1, s.len() as int), Seq::empty()));
                seen = seen.push(line@);
            }
            cur = Vec::new();
        } else {
            cur.push(c);
        }
        i = i + 1;
    }
    proof {
        assert(s.subrange(i as int, s.len() as int) =~= Seq::<char>::empty());
    }
    if cur.len() > 0 {
        if line_matches(&cur, name) {
            proof {
                assert(text_lines(s) == seen + seq![cur@]);
                assert(text_lines(s)[seen.len() as int] == cur@);
            }
            return false;
        }
        proof {
            assert(text_lines(s) == seen + seq![cur@]);
        }
    } else {
        proof {
            assert(text_lines(s) =~= seen);
        }
    }
    true
}

/// The detail line of a source: its applications, one per line; or, with
/// none, "Physical input" for a physical source and nothing for a virtual one.
pub open spec fn joined_lines(items: Seq<String>) -> Seq<char>
    decreases items.len(),
{
    if items.len() == 0 {
        Seq::empty()
    } else if items.len() == 1 {
        items[0]@
    } else {
        joined_lines(items.drop_last()) + "\n"@ + items.last()@
    }
}

pub open spec fn channel_detail_spec(channel: MixerChannel) -> Seq<char> {
    if channel.applications@.len() == 0 {
        match channel.source_kind {
            MixerSourceKind::Physical => "Physical input"@,
            MixerSourceKind::Virtual => Seq::empty(),
        }
    } else {
        joined_lines(channel.applications@)
    }
}

pub fn channel_detail(channel: &MixerChannel) -> (r: String)
    ensures
        r@ == channel_detail_spec(*channel),
{
    let apps = &channel.applications;
    if apps.len() == 0 {
        return match channel.source_kind {
            MixerSourceKind::Physical => String::from_str("Physical input"),
            MixerSourceKind::Virtual => String::new(),
        };
    }
    let mut out = String::new();
    push_str(&mut out, apps[0].as_str());
    let mut i: usize = 1;
    assert(apps@.subrange(0, 1).drop_last() =~= Seq::<String>::empty());
    while i < apps.len()
        invariant
            1 <= i <= apps@.len(),
            out@ == joined_lines(apps@.subrange(0, i as int)),
        decreases apps@.len() - i,
    {
        push_str(&mut out, "\n");
        push_str(&mut out, apps[i].as_str());
        proof {
            assert(apps@.subrange(0, i + 1).drop_last() =~= apps@.subrange(0, i as int));
        }
        i = i + 1;
    }
    assert(apps@.subrange(0, apps@.len() as int) =~= apps@);
    out
}

/// The wire name of an equaliser band type.
pub open spec fn band_type_name(t: EqualizerBandType) -> Seq<char> {
    match t {
        EqualizerBandType::NotSet => "not_set"@,
        EqualizerBandType::LowPass => "low_pass"@,
        EqualizerBandType::HighPass => "high_pass"@,
        EqualizerBandType::Notch => "notch"@,
        EqualizerBandType::Bell => "bell"@,
        EqualizerBandType::LowShelf => "low_shelf"@,
        EqualizerBandType::HighShelf => "high_shelf"@,
    }
}

pub fn eq_band_type_name(band_type: EqualizerBandType) -> (r: &'static str)
    ensures
        r@ == band_type_name(band_type),
{
    match band_type {
        EqualizerBandType::NotSet => "not_set",
        EqualizerBandType::LowPass => "low_pass",
        EqualizerBandType::HighPass => "high_pass",
        EqualizerBandType::Notch => "notch",
        EqualizerBandType::Bell => "bell",
        EqualizerBandType::LowShelf => "low_shelf",
        EqualizerBandType::HighShelf => "high_shelf",
    }
}

/// Parses a band type that can be selected; "not_set" is not one of them.
pub fn parse_eq_band_type(value: &str) -> (r: Option<EqualizerBandType>)
    ensures
        r matches Some(t) ==> t != EqualizerBandType::NotSet && band_type_name(t) == value@,
        r is None ==> (value@ == "not_set"@ || forall|t: EqualizerBandType| band_type_name(t) != value@),
{
    if str_eq(value, "low_pass") {
        Some(EqualizerBandType::LowPass)
    } else if str_eq(value, "high_pass") {
        Some(EqualizerBandType::HighPass)
    } else if str_eq(value, "notch") {
        Some(EqualizerBandType::Notch)
    } else if str_eq(value, "bell") {
        Some(EqualizerBandType::Bell)
    } else if str_eq(value, "low_shelf") {
        Some(EqualizerBandType::LowShelf)
    } else if str_eq(value, "high_shelf") {
        Some(EqualizerBandType::HighShelf)
    } else {
        None
    }
}

/// The DSP module page selected in the editor.
#[derive(Debug, Clone, Copy, PartialEq, Eq, Structural)]
pub enum DspSelection {
    Equalizer,
    Compressor,
    Expander,
    NoiseSuppression,
    EnhancementSuite,
    HeadphoneEqualizer,
}

impl Default for DspSelection {
    fn default() -> (r: Self)
        ensures
            r == DspSelection::NoiseSuppression,
    {
        DspSelection::NoiseSuppression
    }
}

pub open spec fn selection_module(s: DspSelection) -> DspWriteModule {
    match s {
        DspSelection::Equalizer => DspWriteModule::Equalizer,
        DspSelection::Compressor => DspWriteModule::Compressor,
        DspSelection::Expander => DspWriteModule::Expander,
        DspSelection::NoiseSuppression => DspWriteModule::NoiseSuppression,
        DspSelection::EnhancementSuite => DspWriteModule::EnhancementSuite,
        DspSelection::HeadphoneEqualizer => DspWriteModule::HeadphoneEqualizer,
    }
}

impl DspSelection {
    /// The selection a module name stands for; anything unknown selects the
    /// headphone equaliser.
    pub fn parse(value: &str) -> (r: Self)
        ensures
            r == (if value@ == "equalizer"@ {
                DspSelection::Equalizer
            } else if value@ == "compressor"@ {
                DspSelection::Compressor
            } else if value@ == "expander"@ {
                DspSelection::Expander
            } else if value@ == "noise_suppression"@ {
                DspSelection::NoiseSuppression
            } else if value@ == "enhancement_suite"@ {
                DspSelection::EnhancementSuite
            } else {
                DspSelection::HeadphoneEqualizer
            }),
    {
        if str_eq(value, "equalizer") {
            DspSelection::Equalizer
        } else if str_eq(value, "compressor") {
            DspSelection::Compressor
        } else if str_eq(value, "expander") {
            DspSelection::Expander
        } else if str_eq(value, "noise_suppression") {
            DspSelection::NoiseSuppression
        } else if str_eq(value, "enhancement_suite") {
            DspSelection::EnhancementSuite
        } else {
            DspSelection::HeadphoneEqualizer
        }
    }

    pub fn module(self) -> (r: DspWriteModule)
        ensures
            r == selection_module(self),
    {
        match self {
            DspSelection::Equalizer => DspWriteModule::Equalizer,
            DspSelection::Compressor => DspWriteModule::Compressor,
            DspSelection::Expander => DspWriteModule::Expander,
            DspSelection::NoiseSuppression => DspWriteModule::NoiseSuppression,
            DspSelection::EnhancementSuite => DspWriteModule::EnhancementSuite,
            DspSelection::HeadphoneEqualizer => DspWriteModule::HeadphoneEqualizer,
        }
    }

    pub fn as_str(self) -> (r: &'static str)
        ensures
            r@ == module_name(selection_module(self)),
    {
        self.module().as_str()
    }
}

/// The modifier prefix of a captured hotkey, in BEACN's order: ctrl, shift,
/// alt, super, each followed by `" + "`.
pub open spec fn hotkey_modifier_prefix(control: bool, alt: bool, shift: bool, meta: bool) -> Seq<char> {
    (if control { "ctrl + "@ } else { Seq::empty() }) + (if shift { "shift + "@ } else { Seq::empty() }) + (
    if alt { "alt + "@ } else { Seq::empty() }) + (if meta { "super + "@ } else { Seq::empty() })
}

/// Joins the held modifiers and the captured key's name into a binding such
/// as `"ctrl + shift + alt + F9"`. `key` is the name the key maps to, or
/// `None` for a key that cannot be bound (a modifier alone, an unknown key),
/// in which case nothing is captured.
pub fn normalize_captured_hotkey(key: Option<&str>, control: bool, alt: bool, shift: bool, meta: bool) -> (r: Option<String>)
    ensures
        key is None ==> r is None,
        key matches Some(k) ==> (r matches Some(b) && b@ == hotkey_modifier_prefix(control, alt, shift, meta) + k@),
{
    let k = match key {
        Some(k) => k,
        None => return None,
    };
    let mut out = String::new();
    if control {
        push_str(&mut out, "ctrl + ");
    }
    if shift {
        push_str(&mut out, "shift + ");
    }
    if alt {
        push_str(&mut out, "alt + ");
    }
    if meta {
        push_str(&mut out, "super + ");
    }
    assert(out@ =~= hotkey_modifier_prefix(control, alt, shift, meta));
    push_str(&mut out, k);
    Some(out)
}

/// The status shown once a repair's devices were restored: which of the
/// recording and playback devices it set, or nothing when it set neither.
pub fn default_repair_status(repair: &DefaultDeviceRepair) -> (r: Option<String>)
    ensures
        (repair.input is Some && repair.output is Some) ==> (r matches Some(s) && s@
            == "Preferred recording and playback devices restored"@),
        (repair.input is Some && repair.output is None) ==> (r matches Some(s) && s@
            == "Preferred recording device restored"@),
        (repair.input is None && repair.output is Some) ==> (r matches Some(s) && s@
            == "Preferred playback device restored"@),
        (repair.input is None && repair.output is None) ==> r is None,
{
    match (repair.input.is_some(), repair.output.is_some()) {
        (true, true) => Some(String::from_str("Preferred recording and playback devices restored")),
        (true, false) => Some(String::from_str("Preferred recording device restored")),
        (false, true) => Some(String::from_str("Preferred playback device restored")),
        (false, false) => None,
    }
}

/// A daemon write is attempted only while the daemon is ready; otherwise the
/// alert status to show instead.
pub fn daemon_write_refusal(ready: bool, action: &str) -> (r: Option<String>)
    ensures
        ready ==> r is None,
        !ready ==> (r matches Some(s) && s@ == action@ + " was not attempted: daemon is not ready"@),
{
    if ready {
        None
    } else {
        Some(concat2(action, " was not attempted: daemon is not ready"))
    }
}

/// What a hotkey's action asks for.
#[derive(Debug, Clone, PartialEq, Eq)]
pub enum HotkeyAction {
    LoadProfile(String),
    ToggleMute(String),
    CyclePersonalDevice,
    Unknown,
}

/// The action text split into its request: `profile:` then a profile name,
/// `mute:` then a source id, or the Personal Mix device toggle.
pub open spec fn hotkey_action_spec(a: Seq<char>) -> (u8, Seq<char>) {
    if seq_starts_with(a, "profile:"@) {
        (0, a.subrange(8, a.len() as int))
    } else if seq_starts_with(a, "mute:"@) {
        (1, a.subrange(5, a.len() as int))
    } else if a == "mix:toggle-personal-device"@ {
        (2, Seq::empty())
    } else {
        (3, Seq::empty())
    }
}

pub open spec fn hotkey_action_view(h: HotkeyAction) -> (u8, Seq<char>) {
    match h {
        HotkeyAction::LoadProfile(p) => (0, p@),
        HotkeyAction::ToggleMute(c) => (1, c@),
        HotkeyAction::CyclePersonalDevice => (2, Seq::empty()),
        HotkeyAction::Unknown => (3, Seq::empty()),
    }
}

pub fn parse_hotkey_action(action: &str) -> (r: HotkeyAction)
    ensures
        hotkey_action_view(r) == hotkey_action_spec(action@),
{
    let chars = chars_of(action);
    if chars_start_with(&chars, "profile:") {
        proof {
            reveal_strlit("profile:");
        }
        let mut out = String::new();
        push_chars_from(&mut out, &chars, 8);
        assert(out@ =~= action@.subrange(8, action@.len() as int));
        HotkeyAction::LoadProfile(out)
    } else if chars_start_with(&chars, "mute:") {
        proof {
            reveal_strlit("mute:");
        }
        let mut out = String::new();
        push_chars_from(&mut out, &chars, 5);
        assert(out@ =~= action@.subrange(5, action@.len() as int));
        HotkeyAction::ToggleMute(out)
    } else if str_eq(action, "mix:toggle-personal-device") {
        HotkeyAction::CyclePersonalDevice
    } else {
        HotkeyAction::Unknown
    }
}

/// A mute hotkey mutes an unmuted source in both mixes and unmutes any
/// other.
pub fn hotkey_mute_target(current: MuteState) -> (r: MuteState)
    ensures
        r == (if current == MuteState::Unmuted { MuteState::MutedAll } else { MuteState::Unmuted }),
{
    if current == MuteState::Unmuted {
        MuteState::MutedAll
    } else {
        MuteState::Unmuted
    }
}

/// The position of the current default output among the offered outputs,
/// or 0 when it is not offered.
pub open spec fn current_output_position(m: MixerSnapshot) -> int {
    if m.default_output is Some && exists|i: int| 0 <= i < m.default_outputs@.len()
        && #[trigger] m.default_outputs@[i].id@ == m.default_output->0@ {
        choose|i: int| 0 <= i < m.default_outputs@.len() && #[trigger] m.default_outputs@[i].id@
            == m.default_output->0@ && forall|j: int| 0 <= j < i ==> m.default_outputs@[j].id@
            != m.default_output->0@
    } else {
        0
    }
}

/// The output the Personal Mix device hotkey switches to: the one after the
/// current default (the first offered output with its id), wrapping round;
/// nothing with fewer than two outputs.
pub fn next_personal_device(m: &MixerSnapshot) -> (r: Option<usize>)
    ensures
        m.default_outputs@.len() < 2 ==> r is None,
        m.default_outputs@.len() >= 2 ==> (r matches Some(k) && k as int == (current_output_position(*m) + 1)
            % (m.default_outputs@.len() as int)),
{
    let n = m.default_outputs.len();
    if n < 2 {
        return None;
    }
    let mut current: usize = 0;
    match &m.default_output {
        Some(id) => {
            let mut k: usize = 0;
            while k < n
                invariant
                    k <= n,
                    n == m.default_outputs@.len(),
                    m.default_output == Some(*id),
                    forall|j: int| 0 <= j < k ==> m.default_outputs@[j].id@ != id@,
                ensures
                    k <= n,
                    forall|j: int| 0 <= j < k ==> m.default_outputs@[j].id@ != id@,
                    k < n ==> m.default_outputs@[k as int].id@ == id@,
                decreases n - k,
            {
                if str_eq(m.default_outputs[k].id.as_str(), id.as_str()) {
                    break;
                }
                k = k + 1;
            }
            if k < n {
                current = k;
                proof {
                    let w = k as int;
                    assert(m.default_outputs@[w].id@ == m.default_output->0@);
                    let c = choose|i: int| 0 <= i < m.default_outputs@.len() && #[trigger] m.default_outputs@[i].id@
                        == m.default_output->0@ && forall|j: int| 0 <= j < i ==> m.default_outputs@[j].id@
                        != m.default_output->0@;
                    assert(c == w) by {
                        if c < w {
                            assert(m.default_outputs@[c].id@ != id@);
                        } else if c > w {
                            assert(m.default_outputs@[w].id@ != m.default_output->0@);
                        }
                    }
                }
            } else {
                proof {
                    assert(!exists|i: int| 0 <= i < m.default_outputs@.len()
                        && #[trigger] m.default_outputs@[i].id@ == m.default_output->0@);
                }
            }
        },
        None => {},
    }
    Some((current + 1) % n)
}

/// The status of a mute hotkey whose source is absent from the read-back.
pub fn mute_hotkey_absent_status() -> (r: RefreshStatus)
    ensures
        r.status@ == "Mute hotkey was not attempted: source is absent from the current read-back"@,
        r.alert,
        r.failure_context@ == "Mute hotkey was not confirmed"@,
        !r.requires_profile_readback,
        r.preferred_default is None,
{
    RefreshStatus {
        status: String::from_str("Mute hotkey was not attempted: source is absent from the current read-back"),
        alert: true,
        failure_context: String::from_str("Mute hotkey was not confirmed"),
        requires_profile_readback: false,
        preferred_default: None,
    }
}

/// The status of a Personal Mix device hotkey with fewer than two outputs.
pub fn personal_device_too_few_status() -> (r: RefreshStatus)
    ensures
        r.status@ == "Personal Mix device cycling needs at least two outputs"@,
        r.alert,
        r.failure_context@ == "Personal Mix device hotkey was not confirmed"@,
        !r.requires_profile_readback,
        r.preferred_default is None,
{
    RefreshStatus {
        status: String::from_str("Personal Mix device cycling needs at least two outputs"),
        alert: true,
        failure_context: String::from_str("Personal Mix device hotkey was not confirmed"),
        requires_profile_readback: false,
        preferred_default: None,
    }
}

} // verus!
