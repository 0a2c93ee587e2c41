//! What a desktop refresh shows once its three daemon reads (health, the
//! snapshot, the mixer profiles) have come back: whether the daemon counts
//! as ready, which read-backs are applied, the failure panel, the status
//! line, and whether a pending mutation status is settled.
use vstd::prelude::*;
use crate::client::{DaemonErrorKind, RuntimeHealth};
use crate::desktop::{
    daemon_not_ready_status, daemon_status_for_kind, status_detail_text, status_kind_text,
    status_line, status_title_text, DaemonStatusPresentation, PreferredDefaultReadback,
    RefreshStatus,
};
use crate::text::push_str;

verus! {

/// The failure panel of a daemon that answered "not ready" (`None`) or whose
/// request failed with `kind`, in `context`.
pub open spec fn failure_panel(p: DaemonStatusPresentation, kind: Option<DaemonErrorKind>, context: Seq<char>) -> bool {
    match kind {
        Some(k) => p.kind@ == status_kind_text(k) && p.title@ == status_title_text(k) && p.detail@
            == status_detail_text(k) && p.status@ == status_line(k, context),
        None => p.kind@ == "not_ready"@ && p.title@ == "STUDIOBRIDGE DAEMON IS NOT READY"@
            && p.status@ == context + ": daemon reported not ready"@,
    }
}

/// What the refresh shows.
pub struct RefreshOutcome {
    /// The daemon answered healthy and the snapshot was read.
    pub ready: bool,
    pub apply_snapshot: bool,
    pub apply_profiles: bool,
    /// The failure panel shown, when the daemon is not ready.
    pub failure: Option<DaemonStatusPresentation>,
    pub status_alert: bool,
    pub status_text: String,
    /// The pending mutation status is settled by this read-back.
    pub clear_pending: bool,
}

/// The context a failure is reported in: the pending mutation's, or a
/// plain refresh's.
pub open spec fn refresh_context(pending: Option<RefreshStatus>) -> Seq<char> {
    match pending {
        Some(s) => s.failure_context@,
        None => "Refresh failed"@,
    }
}

/// The text of a healthy daemon: its studio and mixer modes.
pub open spec fn modes_text(h: RuntimeHealth) -> Seq<char> {
    h.studio_mode@ + " + "@ + h.mixer_mode@
}

/// Decides a refresh from its three reads and the pending mutation status
/// (after its preferred default, if any, was settled).
pub fn refresh_outcome(
    health: &Result<RuntimeHealth, DaemonErrorKind>,
    snapshot: Option<DaemonErrorKind>,
    profiles: Option<DaemonErrorKind>,
    pending: &Option<RefreshStatus>,
) -> (r: RefreshOutcome)
    ensures
        ({
            let ctx = refresh_context(*pending);
            let healthy = *health matches Ok(h) && h.ok;
            &&& r.ready == (healthy && snapshot is None)
            &&& r.apply_snapshot == r.ready
            &&& r.apply_profiles == (r.ready && profiles is None)
            &&& r.clear_pending == (pending matches Some(s) && healthy && snapshot is None && (
                !s.requires_profile_readback || profiles is None))
            &&& (*health matches Ok(h) && !h.ok) ==> (r.failure matches Some(p) && failure_panel(p, None, ctx))
            &&& *health matches Err(k) ==> (r.failure matches Some(p) && failure_panel(p, Some(k), ctx))
            &&& healthy ==> (snapshot matches Some(k) ==> (r.failure matches Some(p) && failure_panel(p, Some(k), ctx)))
            &&& r.ready ==> r.failure is None
            &&& !r.ready ==> (r.failure matches Some(p) && r.status_alert && r.status_text@ == p.status@)
            &&& r.ready ==> match (*pending, profiles) {
                (Some(s), Some(k)) => if s.requires_profile_readback {
                    r.status_alert && r.status_text@ == status_line(k, "Mixer profile read-back failed"@)
                        + "; no profile change is confirmed"@
                } else {
                    r.status_alert == s.alert && r.status_text@ == s.status@
                },
                (Some(s), None) => r.status_alert == s.alert && r.status_text@ == s.status@,
                (None, Some(k)) => r.status_alert && r.status_text@ == status_line(k, "Mixer profile read-back failed"@),
                (None, None) => !r.status_alert && (*health matches Ok(h) && r.status_text@ == modes_text(h)),
            }
        }),
{
    let context = match pending {
        Some(s) => String::from_str(s.failure_context.as_str()),
        None => String::from_str("Refresh failed"),
    };
    let healthy = match health {
        Ok(h) => h.ok,
        Err(_) => false,
    };
    let clear_pending = match pending {
        Some(s) => healthy && snapshot.is_none() && (!s.requires_profile_readback || profiles.is_none()),
        None => false,
    };
    let failure = match health {
        Ok(h) => if !h.ok {
            Some(daemon_not_ready_status(context.as_str()))
        } else {
            match snapshot {
                Some(k) => Some(daemon_status_for_kind(k, context.as_str())),
                None => None,
            }
        },
        Err(k) => Some(daemon_status_for_kind(*k, context.as_str())),
    };
    match failure {
        Some(p) => {
            let text = String::from_str(p.status.as_str());
            RefreshOutcome {
                ready: false,
                apply_snapshot: false,
                apply_profiles: false,
                failure: Some(p),
                status_alert: true,
                status_text: text,
                clear_pending,
            }
        },
        None => {
            let (status_alert, status_text) = match (pending, profiles) {
                (Some(s), Some(k)) => if s.requires_profile_readback {
                    let p = daemon_status_for_kind(k, "Mixer profile read-back failed");
                    let mut text = String::from_str(p.status.as_str());
                    push_str(&mut text, "; no profile change is confirmed");
                    (true, text)
                } else {
                    (s.alert, String::from_str(s.status.as_str()))
                },
                (Some(s), None) => (s.alert, String::from_str(s.status.as_str())),
                (None, Some(k)) => {
                    let p = daemon_status_for_kind(k, "Mixer profile read-back failed");
                    (true, p.status)
                },
                (None, None) => {
                    let text = match health {
                        Ok(h) => {
                            let mut text = String::from_str(h.studio_mode.as_str());
                            push_str(&mut text, " + ");
                            push_str(&mut text, h.mixer_mode.as_str());
                            text
                        },
                        Err(_) => String::new(),
                    };
                    (false, text)
                },
            };
            RefreshOutcome {
                ready: true,
                apply_snapshot: true,
                apply_profiles: profiles.is_none(),
                failure: None,
                status_alert,
                status_text,
                clear_pending,
            }
        },
    }
}

/// Notes on the pending status what the read-back made of its preferred
/// default: a rejected default, or a confirmed one whose saving failed with
/// `save_error`, turns the status into an alert.
pub fn note_preferred_default(status: &mut RefreshStatus, readback: PreferredDefaultReadback, save_error: Option<&str>)
    ensures
        final(status).failure_context == old(status).failure_context,
        final(status).requires_profile_readback == old(status).requires_profile_readback,
        final(status).preferred_default == old(status).preferred_default,
        readback == PreferredDefaultReadback::Reject ==> final(status).alert && final(status).status@
            == old(status).failure_context@
            + ": requested default was not confirmed by read-back; automatic reset preference unchanged"@,
        readback == PreferredDefaultReadback::Persist ==> (save_error matches Some(e) ==> final(status).alert
            && final(status).status@ == old(status).failure_context@
            + "; current state reloaded, but automatic reset preference save failed: "@ + e@),
        (readback == PreferredDefaultReadback::Retain || (readback == PreferredDefaultReadback::Persist
            && save_error is None)) ==> final(status).status == old(status).status && final(status).alert
            == old(status).alert,
{
    match readback {
        PreferredDefaultReadback::Reject => {
            let mut text = String::from_str(status.failure_context.as_str());
            push_str(&mut text, ": requested default was not confirmed by read-back; automatic reset preference unchanged");
            status.status = text;
            status.alert = true;
        },
        PreferredDefaultReadback::Persist => match save_error {
            Some(e) => {
                let mut text = String::from_str(status.failure_context.as_str());
                push_str(&mut text, "; current state reloaded, but automatic reset preference save failed: ");
                push_str(&mut text, e);
                status.status = text;
                status.alert = true;
            },
            None => {},
        },
        PreferredDefaultReadback::Retain => {},
    }
}

} // verus!
