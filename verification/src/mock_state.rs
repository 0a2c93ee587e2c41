//! The in-memory mixer and studio of the mock backends: how each request
//! changes the state they report.
use vstd::prelude::*;
use crate::model::{
    BackendStatus, BridgeError, HeadphoneOutputMode, HeadphoneState, LinkChannel, LinkedApplication,
    MicrophoneState, StudioIdentity, MixBus, MixerApplication, MixerChannel, MixerDeviceChoice, MixerRoute,
    MixerSnapshot, MixerSourceKind, MixerTarget, MuteState, SetMicrophoneRequest, StudioSnapshot,
};
use crate::text::{str_eq, push_str, str_trim, trim_seq, char_count, eq_ignore_ascii_case, ascii_lower_seq, to_ascii_lowercase, string_push, chars_of};
use crate::profile::{choice_present, opt_chars_of};
use crate::order::{texts, strictly_sorted, other_text, sorted_names_with, without_name};
use crate::reconcile::{
    CommandSpec, app_keys_distinct, app_route_command_effect, app_routes, route_command_effect,
    route_exists, route_set, routes_distinct, target_ids_distinct, target_volume_command_effect,
    target_volumes, channel_levels, level_command_effect, levels_of, first_where, id_pred,
    lemma_first_where_none, lemma_first_where_some, channel_ids_distinct, lemma_reorder_keeps_levels,
    channel_order, order_command_effect, id_at, source_command_effect, source_ids,
};

verus! {

fn find_channel(s: &MixerSnapshot, id: &str) -> (r: Option<usize>)
    ensures
        r matches Some(k) ==> k < s.channels@.len() && s.channels@[k as int].id@ == id@ && forall|j: int|
            0 <= j < k ==> (#[trigger] s.channels@[j]).id@ != id@,
        r is None ==> forall|j: int| 0 <= j < s.channels@.len() ==> (#[trigger] s.channels@[j]).id@ != id@,
{
    let mut k: usize = 0;
    while k < s.channels.len()
        invariant
            k <= s.channels@.len(),
            forall|j: int| 0 <= j < k ==> (#[trigger] s.channels@[j]).id@ != id@,
        decreases s.channels@.len() - k,
    {
        if str_eq(s.channels[k].id.as_str(), id) {
            return Some(k);
        }
        k = k + 1;
    }
    None
}

fn find_target(s: &MixerSnapshot, id: &str) -> (r: Option<usize>)
    ensures
        r matches Some(k) ==> k < s.targets@.len() && s.targets@[k as int].id@ == id@ && forall|j: int|
            0 <= j < k ==> (#[trigger] s.targets@[j]).id@ != id@,
        r is None ==> forall|j: int| 0 <= j < s.targets@.len() ==> (#[trigger] s.targets@[j]).id@ != id@,
{
    let mut k: usize = 0;
    while k < s.targets.len()
        invariant
            k <= s.targets@.len(),
            forall|j: int| 0 <= j < k ==> (#[trigger] s.targets@[j]).id@ != id@,
        decreases s.targets@.len() - k,
    {
        if str_eq(s.targets[k].id.as_str(), id) {
            return Some(k);
        }
        k = k + 1;
    }
    None
}

fn unknown(prefix: &str, id: &str) -> (r: BridgeError)
    ensures
        r matches BridgeError::InvalidValue(m) && m@ == prefix@ + id@,
{
    let mut text = String::from_str(prefix);
    push_str(&mut text, id);
    BridgeError::InvalidValue(text)
}

/// Applies a change to channel `k` in place.
fn modify_channel(s: &mut MixerSnapshot, k: usize, mix: Option<MixBus>, volume: u8, linked: Option<bool>, mute: Option<MuteState>)
    requires
        k < old(s).channels@.len(),
    ensures
        final(s).channels@ == old(s).channels@.update(k as int, channel_changed(old(s).channels@[k as int], mix, volume, linked, mute)),
        final(s).targets == old(s).targets,
        final(s).routes == old(s).routes,
        final(s).applications == old(s).applications,
        final(s).default_input == old(s).default_input,
        final(s).default_output == old(s).default_output,
        final(s).default_inputs == old(s).default_inputs,
        final(s).default_outputs == old(s).default_outputs,
        *final(s) == (MixerSnapshot { channels: final(s).channels, ..*old(s) }),
{
    let mut channels = Vec::new();
    std::mem::swap(&mut channels, &mut s.channels);
    let ghost before = channels@;
    let mut ch = channels.remove(k);
    match mix {
        Some(MixBus::Personal) => ch.personal_volume = volume,
        Some(MixBus::Audience) => ch.audience_volume = volume,
        None => {},
    }
    match linked {
        Some(l) => ch.volumes_linked = l,
        None => {},
    }
    match mute {
        Some(m) => ch.mute_state = m,
        None => {},
    }
    channels.insert(k, ch);
    assert(channels@ =~= before.update(k as int, channel_changed(before[k as int], mix, volume, linked, mute)));
    s.channels = channels;
}

/// A channel with a mix volume, the volume link or the mute state changed.
pub open spec fn channel_changed(c: MixerChannel, mix: Option<MixBus>, volume: u8, linked: Option<bool>, mute: Option<MuteState>) -> MixerChannel {
    let c1 = match mix {
        Some(MixBus::Personal) => MixerChannel { personal_volume: volume, ..c },
        Some(MixBus::Audience) => MixerChannel { audience_volume: volume, ..c },
        None => c,
    };
    let c2 = match linked {
        Some(l) => MixerChannel { volumes_linked: l, ..c1 },
        None => c1,
    };
    match mute {
        Some(m) => MixerChannel { mute_state: m, ..c2 },
        None => c2,
    }
}

/// The first channel with the id, when there is one.
pub open spec fn first_channel(s: MixerSnapshot, id: Seq<char>, k: int) -> bool {
    0 <= k < s.channels@.len() && s.channels@[k].id@ == id && forall|j: int|
        0 <= j < k ==> (#[trigger] s.channels@[j]).id@ != id
}

pub open spec fn no_channel(s: MixerSnapshot, id: Seq<char>) -> bool {
    forall|j: int| 0 <= j < s.channels@.len() ==> (#[trigger] s.channels@[j]).id@ != id
}

/// Changes one channel: an unknown id is refused and nothing changes.
fn change_channel(s: &mut MixerSnapshot, channel_id: &str, mix: Option<MixBus>, volume: u8, linked: Option<bool>, mute: Option<MuteState>) -> (r: Result<(), BridgeError>)
    ensures
        no_channel(*old(s), channel_id@) ==> (r matches Err(BridgeError::InvalidValue(m)) && m@ == "unknown channel: "@ + channel_id@) && *final(s) == *old(s),
        !no_channel(*old(s), channel_id@) ==> r is Ok && exists|k: int| #[trigger] first_channel(*old(s), channel_id@, k)
            && final(s).channels@ == old(s).channels@.update(k, channel_changed(old(s).channels@[k], mix, volume, linked, mute))
            && final(s).routes == old(s).routes && final(s).targets == old(s).targets && final(s).applications == old(s).applications,
        r is Ok ==> *final(s) == (MixerSnapshot { channels: final(s).channels, ..*old(s) }),
{
    match find_channel(s, channel_id) {
        Some(k) => {
            modify_channel(s, k, mix, volume, linked, mute);
            assert(first_channel(*old(s), channel_id@, k as int));
            Ok(())
        },
        None => Err(unknown("unknown channel: ", channel_id)),
    }
}

proof fn lemma_first_where_same(n: nat, p: spec_fn(int) -> bool, q: spec_fn(int) -> bool)
    requires
        forall|i: int| 0 <= i < n ==> #[trigger] p(i) == q(i),
    ensures
        first_where(n, p) == first_where(n, q),
    decreases n,
{
    if n > 0 {
        lemma_first_where_same((n - 1) as nat, p, q);
    }
}

/// Changing the first channel with an id changes the levels seen under that
/// id, and no others.
proof fn lemma_changed_levels(
    o: MixerSnapshot,
    f: MixerSnapshot,
    id: Seq<char>,
    k: int,
    mix: Option<MixBus>,
    volume: u8,
    linked: Option<bool>,
    mute: Option<MuteState>,
)
    requires
        first_channel(o, id, k),
        f.channels@ == o.channels@.update(k, channel_changed(o.channels@[k], mix, volume, linked, mute)),
    ensures
        channel_ids_distinct(o) ==> channel_ids_distinct(f),
        channel_order(f) == channel_order(o),
        channel_levels(o)(id) == Some(levels_of(o.channels@[k])),
        forall|x: Seq<char>| #[trigger] channel_levels(f)(x) == if x == id {
            Some(levels_of(channel_changed(o.channels@[k], mix, volume, linked, mute)))
        } else {
            channel_levels(o)(x)
        },
{
    assert forall|i: int| 0 <= i < f.channels@.len() implies (#[trigger] f.channels@[i]).id@ == o.channels@[i].id@ by {
        if i != k {
            assert(f.channels@[i] == o.channels@[i]);
        }
    }
    assert(channel_order(f) =~= channel_order(o));
    let po = id_pred(o, id);
    assert(po(k));
    if first_where(o.channels@.len(), po) is None {
        lemma_first_where_none(o.channels@.len(), po);
    }
    lemma_first_where_some(o.channels@.len(), po);
    let j = first_where(o.channels@.len(), po)->0;
    if j < k {
        assert(o.channels@[j].id@ != id);
    } else if j > k {
        assert(!po(k));
    }
    assert forall|x: Seq<char>| #[trigger] channel_levels(f)(x) == if x == id {
        Some(levels_of(channel_changed(o.channels@[k], mix, volume, linked, mute)))
    } else {
        channel_levels(o)(x)
    } by {
        let n = o.channels@.len();
        let po = id_pred(o, x);
        let pf = id_pred(f, x);
        assert forall|i: int| 0 <= i < n implies #[trigger] po(i) == pf(i) by {
            if i == k {
                assert(f.channels@[i].id@ == o.channels@[i].id@);
            } else {
                assert(f.channels@[i] == o.channels@[i]);
            }
        }
        lemma_first_where_same(n, po, pf);
        if x == id {
            assert(po(k));
            if first_where(n, po) is None {
                lemma_first_where_none(n, po);
            }
            lemma_first_where_some(n, po);
            let j = first_where(n, po)->0;
            if j < k {
                assert(o.channels@[j].id@ != id);
            } else if j > k {
                assert(!po(k));
            }
        } else if first_where(n, po) is Some {
            lemma_first_where_some(n, po);
            let j = first_where(n, po)->0;
            assert(j != k);
            assert(f.channels@[j] == o.channels@[j]);
        }
    }
}

/// Sets the volume of a channel in one mix; volumes run from 0 to 100.
pub fn mock_set_volume(s: &mut MixerSnapshot, channel_id: &str, mix: MixBus, volume: u8) -> (r: Result<(), BridgeError>)
    ensures
        volume > 100 ==> (r matches Err(BridgeError::InvalidValue(m)) && m@ == "volume must be between 0 and 100"@)
            && *final(s) == *old(s),
        volume <= 100 && no_channel(*old(s), channel_id@) ==> (r matches Err(BridgeError::InvalidValue(m))
            && m@ == "unknown channel: "@ + channel_id@) && *final(s) == *old(s),
        volume <= 100 && !no_channel(*old(s), channel_id@) ==> r is Ok && exists|k: int| #[trigger] first_channel(*old(s), channel_id@, k)
            && final(s).channels@ == old(s).channels@.update(k, channel_changed(old(s).channels@[k], Some(mix), volume, None, None)),
        r is Ok ==> *final(s) == (MixerSnapshot { channels: final(s).channels, ..*old(s) }),
        r is Ok ==> forall|x: Seq<char>| #[trigger] channel_levels(*final(s))(x) == level_command_effect(
            channel_levels(*old(s)),
            CommandSpec::SetVolume(channel_id@, mix, volume),
        )(x),
        r is Ok && channel_ids_distinct(*old(s)) ==> channel_ids_distinct(*final(s)),
        r is Ok ==> channel_order(*final(s)) == channel_order(*old(s)),
{
    if volume > 100 {
        return Err(BridgeError::InvalidValue(String::from_str("volume must be between 0 and 100")));
    }
    let r = change_channel(s, channel_id, Some(mix), volume, None, None);
    proof {
        if r is Ok {
            let k = choose|k: int| #[trigger] first_channel(*old(s), channel_id@, k)
                && s.channels@ == old(s).channels@.update(k, channel_changed(old(s).channels@[k], Some(mix), volume, None, None));
            lemma_changed_levels(*old(s), *s, channel_id@, k, Some(mix), volume, None, None);
            assert forall|x: Seq<char>| #[trigger] channel_levels(*s)(x) == level_command_effect(
                channel_levels(*old(s)),
                CommandSpec::SetVolume(channel_id@, mix, volume),
            )(x) by {
                if x == channel_id@ {
                    assert(channel_levels(*old(s))(x) == Some(levels_of(old(s).channels@[k])));
                }
            }
        }
    }
    r
}

/// Links or unlinks a channel's two volumes.
pub fn mock_set_volume_linked(s: &mut MixerSnapshot, channel_id: &str, linked: bool) -> (r: Result<(), BridgeError>)
    ensures
        no_channel(*old(s), channel_id@) ==> (r matches Err(BridgeError::InvalidValue(m)) && m@ == "unknown channel: "@ + channel_id@) && *final(s) == *old(s),
        !no_channel(*old(s), channel_id@) ==> r is Ok && exists|k: int| #[trigger] first_channel(*old(s), channel_id@, k)
            && final(s).channels@ == old(s).channels@.update(k, channel_changed(old(s).channels@[k], None, 0, Some(linked), None)),
        r is Ok ==> *final(s) == (MixerSnapshot { channels: final(s).channels, ..*old(s) }),
        r is Ok ==> forall|x: Seq<char>| #[trigger] channel_levels(*final(s))(x) == level_command_effect(
            channel_levels(*old(s)),
            CommandSpec::SetVolumeLinked(channel_id@, linked),
        )(x),
        r is Ok && channel_ids_distinct(*old(s)) ==> channel_ids_distinct(*final(s)),
        r is Ok ==> channel_order(*final(s)) == channel_order(*old(s)),
{
    let r = change_channel(s, channel_id, None, 0, Some(linked), None);
    proof {
        if r is Ok {
            let k = choose|k: int| #[trigger] first_channel(*old(s), channel_id@, k)
                && s.channels@ == old(s).channels@.update(k, channel_changed(old(s).channels@[k], None, 0, Some(linked), None));
            lemma_changed_levels(*old(s), *s, channel_id@, k, None, 0, Some(linked), None);
            assert forall|x: Seq<char>| #[trigger] channel_levels(*s)(x) == level_command_effect(
                channel_levels(*old(s)),
                CommandSpec::SetVolumeLinked(channel_id@, linked),
            )(x) by {
                if x == channel_id@ {
                    assert(channel_levels(*old(s))(x) == Some(levels_of(old(s).channels@[k])));
                }
            }
        }
    }
    r
}

/// Sets a channel's mute state.
pub fn mock_set_mute(s: &mut MixerSnapshot, channel_id: &str, state: MuteState) -> (r: Result<(), BridgeError>)
    ensures
        no_channel(*old(s), channel_id@) ==> (r matches Err(BridgeError::InvalidValue(m)) && m@ == "unknown channel: "@ + channel_id@) && *final(s) == *old(s),
        !no_channel(*old(s), channel_id@) ==> r is Ok && exists|k: int| #[trigger] first_channel(*old(s), channel_id@, k)
            && final(s).channels@ == old(s).channels@.update(k, channel_changed(old(s).channels@[k], None, 0, None, Some(state))),
        r is Ok ==> *final(s) == (MixerSnapshot { channels: final(s).channels, ..*old(s) }),
        r is Ok ==> forall|x: Seq<char>| #[trigger] channel_levels(*final(s))(x) == level_command_effect(
            channel_levels(*old(s)),
            CommandSpec::SetMute(channel_id@, state),
        )(x),
        r is Ok && channel_ids_distinct(*old(s)) ==> channel_ids_distinct(*final(s)),
        r is Ok ==> channel_order(*final(s)) == channel_order(*old(s)),
{
    let r = change_channel(s, channel_id, None, 0, None, Some(state));
    proof {
        if r is Ok {
            let k = choose|k: int| #[trigger] first_channel(*old(s), channel_id@, k)
                && s.channels@ == old(s).channels@.update(k, channel_changed(old(s).channels@[k], None, 0, None, Some(state)));
            lemma_changed_levels(*old(s), *s, channel_id@, k, None, 0, None, Some(state));
            assert forall|x: Seq<char>| #[trigger] channel_levels(*s)(x) == level_command_effect(
                channel_levels(*old(s)),
                CommandSpec::SetMute(channel_id@, state),
            )(x) by {
                if x == channel_id@ {
                    assert(channel_levels(*old(s))(x) == Some(levels_of(old(s).channels@[k])));
                }
            }
        }
    }
    r
}

/// Sets a target's volume; volumes run from 0 to 100.
pub fn mock_set_target_volume(s: &mut MixerSnapshot, target_id: &str, volume: u8) -> (r: Result<(), BridgeError>)
    ensures
        volume > 100 ==> (r matches Err(BridgeError::InvalidValue(m)) && m@ == "volume must be between 0 and 100"@)
            && *final(s) == *old(s),
        volume <= 100 && (forall|j: int| 0 <= j < old(s).targets@.len() ==> (#[trigger] old(s).targets@[j]).id@ != target_id@)
            ==> (r matches Err(BridgeError::InvalidValue(m)) && m@ == "unknown target: "@ + target_id@) && *final(s) == *old(s),
        volume <= 100 && (exists|j: int| 0 <= j < old(s).targets@.len() && (#[trigger] old(s).targets@[j]).id@ == target_id@)
            ==> r is Ok,
        r is Ok ==> exists|k: int| 0 <= k < old(s).targets@.len() && (#[trigger] old(s).targets@[k]).id@ == target_id@
            && (forall|j: int| 0 <= j < k ==> (#[trigger] old(s).targets@[j]).id@ != target_id@)
            && final(s).targets@ == old(s).targets@.update(k, crate::model::MixerTarget { volume, ..old(s).targets@[k] })
            && *final(s) == (MixerSnapshot { targets: final(s).targets, ..*old(s) }),
        r is Ok && target_ids_distinct(old(s).targets@) ==> target_ids_distinct(final(s).targets@)
            && target_volumes(*final(s)) == target_volume_command_effect(
            target_volumes(*old(s)),
            CommandSpec::SetTargetVolume(target_id@, volume),
        ),
{
    if volume > 100 {
        return Err(BridgeError::InvalidValue(String::from_str("volume must be between 0 and 100")));
    }
    match find_target(s, target_id) {
        Some(k) => {
            let mut targets = Vec::new();
            std::mem::swap(&mut targets, &mut s.targets);
            let ghost before = targets@;
            let mut t = targets.remove(k);
            t.volume = volume;
            targets.insert(k, t);
            assert(targets@ =~= before.update(k as int, crate::model::MixerTarget { volume, ..before[k as int] }));
            s.targets = targets;
            assert(old(s).targets@[k as int].id@ == target_id@);
            proof {
                if target_ids_distinct(old(s).targets@) {
                    let o = old(s).targets@;
                    assert forall|j: int| 0 <= j < o.len() && j != k implies (#[trigger] o[j]).id@ != target_id@ by {
                        if j < k {
                        } else {
                            assert(o[k as int].id@ != o[j].id@);
                        }
                    }
                    assert(target_volumes(*s) =~= target_volume_command_effect(
                        target_volumes(*old(s)),
                        CommandSpec::SetTargetVolume(target_id@, volume),
                    ));
                    assert forall|i: int, j: int| 0 <= i < j < s.targets@.len() implies (#[trigger] s.targets@[i]).id@
                        != (#[trigger] s.targets@[j]).id@ by {
                        assert(s.targets@[i].id@ == o[i].id@);
                        assert(s.targets@[j].id@ == o[j].id@);
                    }
                }
            }
            Ok(())
        },
        None => Err(unknown("unknown target: ", target_id)),
    }
}

/// Selects the default input; it must be one of the offered inputs.
pub fn mock_set_default_input(s: &mut MixerSnapshot, device_id: &str) -> (r: Result<(), BridgeError>)
    ensures
        !choice_present(old(s).default_inputs@, device_id@) ==> (r matches Err(BridgeError::InvalidValue(m))
            && m@ == "unknown default input: "@ + device_id@) && *final(s) == *old(s),
        choice_present(old(s).default_inputs@, device_id@) ==> r is Ok && (final(s).default_input matches Some(d) && d@ == device_id@)
            && final(s).channels == old(s).channels && final(s).default_output == old(s).default_output,
        r is Ok ==> *final(s) == (MixerSnapshot { default_input: final(s).default_input, ..*old(s) }),
{
    let mut k: usize = 0;
    let mut found = false;
    while k < s.default_inputs.len()
        invariant
            k <= s.default_inputs@.len(),
            found == exists|m: int| 0 <= m < k && (#[trigger] s.default_inputs@[m]).id@ == device_id@,
        decreases s.default_inputs@.len() - k,
    {
        if str_eq(s.default_inputs[k].id.as_str(), device_id) {
            found = true;
        }
        k = k + 1;
    }
    if !found {
        return Err(unknown("unknown default input: ", device_id));
    }
    s.default_input = Some(String::from_str(device_id));
    Ok(())
}

/// Selects the default output; it must be one of the offered outputs.
pub fn mock_set_default_output(s: &mut MixerSnapshot, device_id: &str) -> (r: Result<(), BridgeError>)
    ensures
        !choice_present(old(s).default_outputs@, device_id@) ==> (r matches Err(BridgeError::InvalidValue(m))
            && m@ == "unknown default output: "@ + device_id@) && *final(s) == *old(s),
        choice_present(old(s).default_outputs@, device_id@) ==> r is Ok && (final(s).default_output matches Some(d) && d@ == device_id@)
            && final(s).channels == old(s).channels && final(s).default_input == old(s).default_input,
        r is Ok ==> *final(s) == (MixerSnapshot { default_output: final(s).default_output, ..*old(s) }),
{
    let mut k: usize = 0;
    let mut found = false;
    while k < s.default_outputs.len()
        invariant
            k <= s.default_outputs@.len(),
            found == exists|m: int| 0 <= m < k && (#[trigger] s.default_outputs@[m]).id@ == device_id@,
        decreases s.default_outputs@.len() - k,
    {
        if str_eq(s.default_outputs[k].id.as_str(), device_id) {
            found = true;
        }
        k = k + 1;
    }
    if !found {
        return Err(unknown("unknown default output: ", device_id));
    }
    s.default_output = Some(String::from_str(device_id));
    Ok(())
}

/// The mixer routes the source to the target.
pub open spec fn routed(s: MixerSnapshot, source: Seq<char>, target: Seq<char>) -> bool {
    exists|k: int| 0 <= k < s.routes@.len() && (#[trigger] s.routes@[k]).source_id@ == source && s.routes@[k].target_id@ == target
}

/// Enables or disables one route between a known source and a known target.
pub fn mock_set_route(s: &mut MixerSnapshot, source_id: &str, target_id: &str, enabled: bool) -> (r: Result<(), BridgeError>)
    ensures
        no_channel(*old(s), source_id@) ==> (r matches Err(BridgeError::InvalidValue(m))
            && m@ == "unknown source channel: "@ + source_id@) && *final(s) == *old(s),
        !no_channel(*old(s), source_id@) && (forall|j: int| 0 <= j < old(s).targets@.len() ==> (#[trigger] old(s).targets@[j]).id@ != target_id@)
            ==> (r matches Err(BridgeError::InvalidValue(m)) && m@ == "unknown target: "@ + target_id@) && *final(s) == *old(s),
        !no_channel(*old(s), source_id@) && (exists|j: int| 0 <= j < old(s).targets@.len() && (#[trigger] old(s).targets@[j]).id@ == target_id@)
            ==> r is Ok,
        r is Ok ==> *final(s) == (MixerSnapshot { routes: final(s).routes, ..*old(s) }),
        r is Ok && enabled && routed(*old(s), source_id@, target_id@) ==> final(s).routes == old(s).routes,
        r is Ok && enabled && !routed(*old(s), source_id@, target_id@) ==> final(s).routes@.len() == old(s).routes@.len() + 1
            && final(s).routes@.subrange(0, old(s).routes@.len() as int) == old(s).routes@
            && final(s).routes@.last().source_id@ == source_id@ && final(s).routes@.last().target_id@ == target_id@,
        r is Ok && !enabled && !routed(*old(s), source_id@, target_id@) ==> final(s).routes == old(s).routes,
        r is Ok && !enabled && routed(*old(s), source_id@, target_id@) ==> exists|k: int|
            0 <= k < old(s).routes@.len() && (#[trigger] old(s).routes@[k]).source_id@ == source_id@
                && old(s).routes@[k].target_id@ == target_id@ && final(s).routes@ == old(s).routes@.remove(k),
        r is Ok ==> (enabled ==> routed(*final(s), source_id@, target_id@)),
        r is Ok && routes_distinct(*old(s)) ==> routes_distinct(*final(s)) && route_set(*final(s))
            == route_command_effect(
            route_set(*old(s)),
            CommandSpec::SetRoute(source_id@, target_id@, enabled),
        ),
{
    if find_channel(s, source_id).is_none() {
        return Err(unknown("unknown source channel: ", source_id));
    }
    if find_target(s, target_id).is_none() {
        return Err(unknown("unknown target: ", target_id));
    }
    let mut k: usize = 0;
    let mut existing: Option<usize> = None;
    while k < s.routes.len() && existing.is_none()
        invariant
            k <= s.routes@.len(),
            existing is None ==> forall|m: int| 0 <= m < k ==> !((#[trigger] s.routes@[m]).source_id@ == source_id@ && s.routes@[m].target_id@ == target_id@),
            existing matches Some(x) ==> x < s.routes@.len() && s.routes@[x as int].source_id@ == source_id@ && s.routes@[x as int].target_id@ == target_id@,
        decreases s.routes@.len() - k + if existing is None { 1int } else { 0int },
    {
        if str_eq(s.routes[k].source_id.as_str(), source_id) && str_eq(s.routes[k].target_id.as_str(), target_id) {
            existing = Some(k);
        } else {
            k = k + 1;
        }
    }
    let ghost pair = (source_id@, target_id@);
    let ghost r0 = s.routes@;
    match (enabled, existing) {
        (true, None) => {
            s.routes.push(MixerRoute { source_id: String::from_str(source_id), target_id: String::from_str(target_id) });
            assert(s.routes@.subrange(0, old(s).routes@.len() as int) =~= old(s).routes@);
            assert(routed(*s, source_id@, target_id@)) by {
                assert(s.routes@[s.routes@.len() - 1].source_id@ == source_id@);
            }
            proof {
                let n = r0.len() as int;
                assert forall|p: (Seq<char>, Seq<char>)| route_exists(*s, p.0, p.1) == (route_exists(*old(s), p.0, p.1)
                    || p == pair) by {
                    if route_exists(*s, p.0, p.1) {
                        let w = choose|w: int| 0 <= w < s.routes@.len() && (#[trigger] s.routes@[w]).source_id@ == p.0
                            && s.routes@[w].target_id@ == p.1;
                        if w < n {
                            assert(r0[w] == s.routes@[w]);
                        }
                    }
                    if route_exists(*old(s), p.0, p.1) {
                        let w = choose|w: int| 0 <= w < r0.len() && (#[trigger] r0[w]).source_id@ == p.0
                            && r0[w].target_id@ == p.1;
                        assert(s.routes@[w] == r0[w]);
                    }
                    if p == pair {
                        assert(s.routes@[n].source_id@ == p.0);
                    }
                }
                assert(route_set(*s) =~= route_set(*old(s)).insert(pair));
                if routes_distinct(*old(s)) {
                    assert forall|i: int, j: int| 0 <= i < j < s.routes@.len() implies !((#[trigger] s.routes@[i]).source_id@
                        == (#[trigger] s.routes@[j]).source_id@ && s.routes@[i].target_id@ == s.routes@[j].target_id@) by {
                        assert(s.routes@[i] == r0[i]);
                        if j < n {
                            assert(s.routes@[j] == r0[j]);
                        }
                    }
                }
            }
        },
        (false, Some(index)) => {
            s.routes.remove(index);
            proof {
                if routes_distinct(*old(s)) {
                    let x = index as int;
                    assert forall|p: (Seq<char>, Seq<char>)| route_exists(*s, p.0, p.1) == (route_exists(*old(s), p.0, p.1)
                        && p != pair) by {
                        if route_exists(*s, p.0, p.1) {
                            let w = choose|w: int| 0 <= w < s.routes@.len() && (#[trigger] s.routes@[w]).source_id@ == p.0
                                && s.routes@[w].target_id@ == p.1;
                            if w < x {
                                assert(s.routes@[w] == r0[w]);
                            } else {
                                assert(s.routes@[w] == r0[w + 1]);
                            }
                        }
                        if route_exists(*old(s), p.0, p.1) && p != pair {
                            let w = choose|w: int| 0 <= w < r0.len() && (#[trigger] r0[w]).source_id@ == p.0
                                && r0[w].target_id@ == p.1;
                            if w < x {
                                assert(s.routes@[w] == r0[w]);
                            } else {
                                assert(w != x);
                                assert(s.routes@[w - 1] == r0[w]);
                            }
                        }
                    }
                    assert(route_set(*s) =~= route_set(*old(s)).remove(pair));
                    assert forall|i: int, j: int| 0 <= i < j < s.routes@.len() implies !((#[trigger] s.routes@[i]).source_id@
                        == (#[trigger] s.routes@[j]).source_id@ && s.routes@[i].target_id@ == s.routes@[j].target_id@) by {
                        let i0 = if i < x { i } else { i + 1 };
                        let j0 = if j < x { j } else { j + 1 };
                        assert(s.routes@[i] == r0[i0]);
                        assert(s.routes@[j] == r0[j0]);
                        assert(i0 < j0);
                    }
                }
            }
        },
        (true, Some(index)) => {
            assert(routed(*s, source_id@, target_id@)) by {
                assert(s.routes@[index as int].source_id@ == source_id@);
            }
            proof {
                assert(route_exists(*old(s), pair.0, pair.1)) by {
                    assert(r0[index as int].source_id@ == pair.0);
                }
                assert(route_set(*s) =~= route_set(*old(s)).insert(pair));
            }
        },
        (false, None) => {
            proof {
                assert(!route_exists(*old(s), pair.0, pair.1));
                assert(route_set(*s) =~= route_set(*old(s)).remove(pair));
            }
        },
    }
    Ok(())
}

/// Moves a channel to a position, clamped to the end.
pub fn mock_set_source_order(s: &mut MixerSnapshot, source_id: &str, position: usize) -> (r: Result<(), BridgeError>)
    ensures
        no_channel(*old(s), source_id@) ==> (r matches Err(BridgeError::InvalidValue(m)) && m@ == "unknown channel: "@ + source_id@) && *final(s) == *old(s),
        !no_channel(*old(s), source_id@) ==> r is Ok && exists|k: int| #[trigger] first_channel(*old(s), source_id@, k)
            && final(s).channels@ == old(s).channels@.remove(k).insert(
                if position < old(s).channels@.len() - 1 { position as int } else { old(s).channels@.len() - 1 },
                old(s).channels@[k],
            ) && final(s).routes == old(s).routes && final(s).targets == old(s).targets,
        r is Ok ==> *final(s) == (MixerSnapshot { channels: final(s).channels, ..*old(s) }),
        r is Ok && channel_ids_distinct(*old(s)) ==> channel_ids_distinct(*final(s)) && forall|x: Seq<char>|
            #[trigger] channel_levels(*final(s))(x) == channel_levels(*old(s))(x),
        r is Ok ==> channel_order(*final(s)) == order_command_effect(
            channel_order(*old(s)),
            CommandSpec::SetSourceOrder(source_id@, position),
        ),
{
    match find_channel(s, source_id) {
        Some(k) => {
            let mut channels = Vec::new();
            std::mem::swap(&mut channels, &mut s.channels);
            let ch = channels.remove(k);
            let p = if position < channels.len() { position } else { channels.len() };
            channels.insert(p, ch);
            s.channels = channels;
            assert(first_channel(*old(s), source_id@, k as int));
            proof {
                if channel_ids_distinct(*old(s)) {
                    lemma_reorder_keeps_levels(*old(s), *s, k as int, p as int);
                }
                let ids = channel_order(*old(s));
                let pr = id_at(ids, source_id@);
                assert(pr(k as int));
                if first_where(ids.len(), pr) is None {
                    lemma_first_where_none(ids.len(), pr);
                }
                lemma_first_where_some(ids.len(), pr);
                let j = first_where(ids.len(), pr)->0;
                if j < k {
                    assert(old(s).channels@[j].id@ != source_id@);
                } else if j > k {
                    assert(!pr(k as int));
                }
                assert(channel_order(*s) =~= ids.remove(k as int).insert(p as int, source_id@));
            }
            Ok(())
        },
        None => Err(unknown("unknown channel: ", source_id)),
    }
}

/// The id of a mock source: its name in ASCII lowercase with spaces as
/// hyphens.
pub open spec fn mock_source_id(name: Seq<char>) -> Seq<char> {
    ascii_lower_seq(name).map_values(|c: char| if c == ' ' { '-' } else { c })
}

/// Some channel has the name, ignoring ASCII case.
pub open spec fn name_in_use(s: MixerSnapshot, name: Seq<char>) -> bool {
    exists|k: int| 0 <= k < s.channels@.len() && ascii_lower_seq((#[trigger] s.channels@[k]).name@) == ascii_lower_seq(name)
}

/// Removing the channels with an id takes that id out of the source ids.
proof fn lemma_removal_ids(o: MixerSnapshot, f: MixerSnapshot, id: Seq<char>)
    requires
        f.channels@ == o.channels@.filter(other_channel(id)),
    ensures
        source_ids(f) == source_ids(o).remove(id),
{
    let keep = other_channel(id);
    assert forall|x: Seq<char>| source_ids(f).contains(x) == source_ids(o).remove(id).contains(x) by {
        if source_ids(f).contains(x) {
            let k = choose|k: int| 0 <= k < f.channels@.len() && (#[trigger] f.channels@[k]).id@ == x;
            o.channels@.lemma_filter_pred(keep, k);
            assert(o.channels@.filter(keep).contains(f.channels@[k]));
            o.channels@.lemma_filter_contains_rev(keep, f.channels@[k]);
            let j = choose|j: int| 0 <= j < o.channels@.len() && o.channels@[j] == f.channels@[k];
            assert(o.channels@[j].id@ == x);
        }
        if source_ids(o).remove(id).contains(x) {
            let j = choose|j: int| 0 <= j < o.channels@.len() && (#[trigger] o.channels@[j]).id@ == x;
            o.channels@.lemma_filter_contains(keep, j);
            let k = choose|k: int| 0 <= k < f.channels@.len() && f.channels@[k] == o.channels@[j];
            assert(f.channels@[k].id@ == x);
        }
    }
    assert(source_ids(f) =~= source_ids(o).remove(id));
}

/// Appending a channel adds its id to the source ids.
proof fn lemma_append_ids(o: MixerSnapshot, f: MixerSnapshot)
    requires
        f.channels@.len() == o.channels@.len() + 1,
        f.channels@.subrange(0, o.channels@.len() as int) == o.channels@,
    ensures
        source_ids(f) == source_ids(o).insert(f.channels@.last().id@),
{
    assert forall|x: Seq<char>| source_ids(f).contains(x) == source_ids(o).insert(f.channels@.last().id@).contains(x) by {
        if source_ids(f).contains(x) {
            let k = choose|k: int| 0 <= k < f.channels@.len() && (#[trigger] f.channels@[k]).id@ == x;
            if k < o.channels@.len() {
                assert(f.channels@.subrange(0, o.channels@.len() as int)[k] == f.channels@[k]);
                assert(o.channels@[k].id@ == x);
            }
        }
        if source_ids(o).contains(x) {
            let j = choose|j: int| 0 <= j < o.channels@.len() && (#[trigger] o.channels@[j]).id@ == x;
            assert(f.channels@.subrange(0, o.channels@.len() as int)[j] == f.channels@[j]);
            assert(f.channels@[j].id@ == x);
        }
    }
    assert(source_ids(f) =~= source_ids(o).insert(f.channels@.last().id@));
}

/// Adds a virtual source named by the trimmed name, with mock defaults.
pub fn mock_create_source(s: &mut MixerSnapshot, name: &str) -> (r: Result<(), BridgeError>)
    ensures
        ({
            let n = trim_seq(name@);
            &&& (n.len() == 0 || n.len() > 64) ==> (r matches Err(BridgeError::InvalidValue(m))
                && m@ == "source name must contain 1 to 64 characters"@) && *final(s) == *old(s)
            &&& !(n.len() == 0 || n.len() > 64) && name_in_use(*old(s), n) ==> (r matches Err(
                BridgeError::InvalidValue(m),
            ) && m@ == "source already exists: "@ + n) && *final(s) == *old(s)
            &&& !(n.len() == 0 || n.len() > 64) && !name_in_use(*old(s), n) ==> r is Ok
                && final(s).channels@.len() == old(s).channels@.len() + 1
                && final(s).channels@.subrange(0, old(s).channels@.len() as int) == old(s).channels@
                && final(s).channels@.last().name@ == n
                && final(s).channels@.last().id@ == mock_source_id(n)
                && final(s).channels@.last().meter_id@ == "mock-source-"@ + mock_source_id(n)
                && final(s).channels@.last().colour@ == "#54c6c0"@
                && final(s).channels@.last().personal_volume == 72
                && final(s).channels@.last().audience_volume == 68
                && final(s).channels@.last().mute_state == MuteState::Unmuted
                && final(s).channels@.last().applications@.len() == 0
                && final(s).channels@.last().source_kind == MixerSourceKind::Virtual
                && final(s).channels@.last().volumes_linked
                && final(s).channels@.last().attached_devices@.len() == 0
                && final(s).routes == old(s).routes
        }),
        r is Ok ==> *final(s) == (MixerSnapshot { channels: final(s).channels, ..*old(s) }),
        r is Ok ==> source_ids(*final(s)) == source_command_effect(
            source_ids(*old(s)),
            |n: Seq<char>| mock_source_id(trim_seq(n)),
            CommandSpec::CreateSource(name@),
        ),
{
    let trimmed = str_trim(name);
    let n = char_count(trimmed);
    if n == 0 || n > 64 {
        return Err(BridgeError::InvalidValue(String::from_str("source name must contain 1 to 64 characters")));
    }
    let mut k: usize = 0;
    while k < s.channels.len()
        invariant
            k <= s.channels@.len(),
            *s == *old(s),
            trimmed@ == trim_seq(name@),
            0 < trimmed@.len() <= 64,
            forall|m: int| 0 <= m < k ==> ascii_lower_seq((#[trigger] s.channels@[m]).name@) != ascii_lower_seq(trimmed@),
        decreases s.channels@.len() - k,
    {
        if eq_ignore_ascii_case(s.channels[k].name.as_str(), trimmed) {
            assert(ascii_lower_seq(s.channels@[k as int].name@) == ascii_lower_seq(trimmed@));
            assert(name_in_use(*old(s), trim_seq(name@)));
            let mut text = String::from_str("source already exists: ");
            push_str(&mut text, trimmed);
            return Err(BridgeError::InvalidValue(text));
        }
        k = k + 1;
    }
    let lowered = to_ascii_lowercase(trimmed);
    let chars = chars_of(lowered.as_str());
    let mut id = String::new();
    let mut i: usize = 0;
    while i < chars.len()
        invariant
            i <= chars@.len(),
            chars@ == ascii_lower_seq(trimmed@),
            id@ == chars@.subrange(0, i as int).map_values(|c: char| if c == ' ' { '-' } else { c }),
        decreases chars@.len() - i,
    {
        let c = chars[i];
        string_push(&mut id, if c == ' ' { '-' } else { c });
        i = i + 1;
        assert(id@ =~= chars@.subrange(0, i as int).map_values(|c: char| if c == ' ' { '-' } else { c }));
    }
    assert(chars@.subrange(0, chars@.len() as int) =~= chars@);
    let mut meter_id = String::from_str("mock-source-");
    push_str(&mut meter_id, id.as_str());
    let ghost before = s.channels@;
    s.channels.push(MixerChannel {
        id,
        meter_id,
        name: String::from_str(trimmed),
        colour: String::from_str("#54c6c0"),
        personal_volume: 72,
        audience_volume: 68,
        mute_state: MuteState::Unmuted,
        applications: Vec::new(),
        source_kind: MixerSourceKind::Virtual,
        volumes_linked: true,
        attached_devices: Vec::new(),
    });
    assert(s.channels@.subrange(0, before.len() as int) =~= before);
    proof {
        lemma_append_ids(*old(s), *s);
    }
    Ok(())
}

/// Channels other than the one with the id.
pub open spec fn other_channel(id: Seq<char>) -> spec_fn(MixerChannel) -> bool {
    |c: MixerChannel| c.id@ != id
}

/// Routes that do not start at the source.
pub open spec fn route_not_from(id: Seq<char>) -> spec_fn(MixerRoute) -> bool {
    |r: MixerRoute| r.source_id@ != id
}

/// An application no longer routed to the removed source.
pub open spec fn unrouted_from(id: Seq<char>) -> spec_fn(MixerApplication) -> MixerApplication {
    |a: MixerApplication| if (a.channel_id matches Some(c) && c@ == id) {
        MixerApplication { channel_id: None, ..a }
    } else {
        a
    }
}

/// Removes a source with every route from it; applications routed to it
/// become unassigned.
pub fn mock_remove_source(s: &mut MixerSnapshot, source_id: &str) -> (r: Result<(), BridgeError>)
    ensures
        no_channel(*old(s), source_id@) ==> (r matches Err(BridgeError::InvalidValue(m))
            && m@ == "unknown source channel: "@ + source_id@) && *final(s) == *old(s),
        !no_channel(*old(s), source_id@) ==> r is Ok
            && final(s).channels@ == old(s).channels@.filter(other_channel(source_id@))
            && final(s).routes@ == old(s).routes@.filter(route_not_from(source_id@))
            && final(s).applications@ == old(s).applications@.map_values(unrouted_from(source_id@))
            && no_channel(*final(s), source_id@)
            && (forall|k: int| 0 <= k < final(s).routes@.len() ==> (#[trigger] final(s).routes@[k]).source_id@ != source_id@)
            && final(s).targets == old(s).targets
            && final(s).default_input == old(s).default_input
            && final(s).default_output == old(s).default_output
            && final(s).default_inputs == old(s).default_inputs
            && final(s).default_outputs == old(s).default_outputs
            && final(s).physical_inputs == old(s).physical_inputs
            && final(s).physical_outputs == old(s).physical_outputs
            && final(s).link_outputs == old(s).link_outputs,
        r is Ok ==> source_ids(*final(s)) == source_command_effect(
            source_ids(*old(s)),
            |n: Seq<char>| mock_source_id(trim_seq(n)),
            CommandSpec::RemoveSource(source_id@),
        ),
{
    if find_channel(s, source_id).is_none() {
        return Err(unknown("unknown source channel: ", source_id));
    }
    let ghost keep_c = other_channel(source_id@);
    let mut rest = Vec::new();
    std::mem::swap(&mut rest, &mut s.channels);
    let ghost all = rest@;
    let _total = rest.len();
    let mut kept: Vec<MixerChannel> = Vec::new();
    let mut i: usize = 0;
    assert(kept@ =~= all.subrange(0, 0).filter(keep_c)) by {
        reveal(Seq::filter);
    }
    while rest.len() > 0
        invariant
            i + rest@.len() == all.len(),
            all.len() <= usize::MAX,
            rest@ == all.subrange(i as int, all.len() as int),
            keep_c == other_channel(source_id@),
            kept@ == all.subrange(0, i as int).filter(keep_c),
            forall|k: int| 0 <= k < kept@.len() ==> (#[trigger] kept@[k]).id@ != source_id@,
        decreases rest@.len(),
    {
        let ch = rest.remove(0);
        assert(ch == all[i as int]);
        assert(rest@ =~= all.subrange(i + 1, all.len() as int));
        assert(all.subrange(0, i + 1) =~= all.subrange(0, i as int).push(ch));
        proof {
            all.subrange(0, i as int).lemma_filter_push(ch, keep_c);
        }
        if !str_eq(ch.id.as_str(), source_id) {
            kept.push(ch);
        }
        i = i + 1;
    }
    assert(all.subrange(0, all.len() as int) =~= all);
    s.channels = kept;
    let ghost keep_r = route_not_from(source_id@);
    let mut rest = Vec::new();
    std::mem::swap(&mut rest, &mut s.routes);
    let ghost all_r = rest@;
    let _total_r = rest.len();
    let mut kept: Vec<MixerRoute> = Vec::new();
    let mut i: usize = 0;
    assert(kept@ =~= all_r.subrange(0, 0).filter(keep_r)) by {
        reveal(Seq::filter);
    }
    while rest.len() > 0
        invariant
            i + rest@.len() == all_r.len(),
            all_r.len() <= usize::MAX,
            rest@ == all_r.subrange(i as int, all_r.len() as int),
            keep_r == route_not_from(source_id@),
            kept@ == all_r.subrange(0, i as int).filter(keep_r),
            forall|k: int| 0 <= k < kept@.len() ==> (#[trigger] kept@[k]).source_id@ != source_id@,
        decreases rest@.len(),
    {
        let route = rest.remove(0);
        assert(route == all_r[i as int]);
        assert(rest@ =~= all_r.subrange(i + 1, all_r.len() as int));
        assert(all_r.subrange(0, i + 1) =~= all_r.subrange(0, i as int).push(route));
        proof {
            all_r.subrange(0, i as int).lemma_filter_push(route, keep_r);
        }
        if !str_eq(route.source_id.as_str(), source_id) {
            kept.push(route);
        }
        i = i + 1;
    }
    assert(all_r.subrange(0, all_r.len() as int) =~= all_r);
    s.routes = kept;
    let ghost f = unrouted_from(source_id@);
    let mut apps = Vec::new();
    std::mem::swap(&mut apps, &mut s.applications);
    let ghost apps0 = apps@;
    let mut i: usize = 0;
    while i < apps.len()
        invariant
            i <= apps@.len(),
            apps@.len() == apps0.len(),
            f == unrouted_from(source_id@),
            forall|k: int| 0 <= k < i ==> (#[trigger] apps@[k]) == f(apps0[k]),
            forall|k: int| i <= k < apps@.len() ==> (#[trigger] apps@[k]) == apps0[k],
        decreases apps@.len() - i,
    {
        let routed = match &apps[i].channel_id {
            Some(c) => str_eq(c.as_str(), source_id),
            None => false,
        };
        if routed {
            let ghost before = apps@;
            let mut app = apps.remove(i);
            app.channel_id = None;
            apps.insert(i, app);
            assert(apps@ =~= before.update(i as int, f(apps0[i as int])));
        }
        i = i + 1;
    }
    assert(apps@ =~= apps0.map_values(f));
    s.applications = apps;
    proof {
        lemma_removal_ids(*old(s), *s, source_id@);
    }
    Ok(())
}

/// The view of an optional id.
pub open spec fn opt_id(c: Option<&str>) -> Option<Seq<char>> {
    match c {
        Some(x) => Some(x@),
        None => None,
    }
}

/// `k` is the first application with the process and name.
pub open spec fn first_app(s: MixerSnapshot, process: Seq<char>, name: Seq<char>, k: int) -> bool {
    0 <= k < s.applications@.len() && s.applications@[k].process@ == process && s.applications@[k].name@
        == name && forall|j: int| 0 <= j < k ==> !((#[trigger] s.applications@[j]).process@ == process
        && s.applications@[j].name@ == name)
}

/// The application names shown on a channel once `name` is routed to the
/// source `channel`: gone from every other source, and on that one the
/// names sorted and distinct.
pub open spec fn channel_apps_ok(before: MixerChannel, after: MixerChannel, name: Seq<char>, channel: Option<Seq<char>>) -> bool {
    &&& after == MixerChannel { applications: after.applications, ..before }
    &&& if channel == Some(before.id@) {
        strictly_sorted(texts(after.applications@)) && texts(after.applications@).to_set()
            == texts(before.applications@).filter(other_text(name)).to_set().insert(name)
    } else {
        texts(after.applications@) == texts(before.applications@).filter(other_text(name))
    }
}

/// Routes an application to a source, or to none; each source lists the
/// applications routed to it.
pub fn mock_set_application_route(s: &mut MixerSnapshot, process: &str, application: &str, channel_id: Option<&str>) -> (r: Result<(), BridgeError>)
    ensures
        (channel_id matches Some(c) && no_channel(*old(s), c@)) ==> (r matches Err(BridgeError::InvalidValue(m))
            && m@ == "unknown channel: "@ + channel_id->0@) && *final(s) == *old(s),
        !(channel_id matches Some(c) && no_channel(*old(s), c@)) && !(exists|k: int| #[trigger] first_app(*old(s), process@, application@, k))
            ==> (r matches Err(BridgeError::InvalidValue(m)) && m@ == "unknown mixer application: "@ + process@ + "/"@
            + application@) && *final(s) == *old(s),
        !(channel_id matches Some(c) && no_channel(*old(s), c@)) && (exists|k: int| #[trigger] first_app(*old(s), process@, application@, k))
            ==> r is Ok,
        r is Ok ==> exists|k: int| #[trigger] first_app(*old(s), process@, application@, k)
            && final(s).applications@.len() == old(s).applications@.len()
            && (forall|j: int| 0 <= j < old(s).applications@.len() && j != k ==> #[trigger] final(s).applications@[j] == old(s).applications@[j])
            && final(s).applications@[k].process == old(s).applications@[k].process
            && final(s).applications@[k].name == old(s).applications@[k].name
            && final(s).applications@[k].title == old(s).applications@[k].title
            && opt_chars_of(final(s).applications@[k].channel_id) == opt_id(channel_id),
        r is Ok ==> final(s).channels@.len() == old(s).channels@.len() && forall|i: int| 0 <= i < old(s).channels@.len()
            ==> channel_apps_ok(#[trigger] old(s).channels@[i], final(s).channels@[i], application@, opt_id(channel_id)),
        r is Ok ==> final(s).routes == old(s).routes && final(s).targets == old(s).targets
            && final(s).default_input == old(s).default_input && final(s).default_output == old(s).default_output,
        r is Ok && app_keys_distinct(*old(s)) ==> app_keys_distinct(*final(s)) && app_routes(*final(s))
            == app_route_command_effect(
            app_routes(*old(s)),
            CommandSpec::SetApplicationRoute(process@, application@, opt_id(channel_id)),
        ),
{
    match channel_id {
        Some(c) => {
            if find_channel(s, c).is_none() {
                return Err(unknown("unknown channel: ", c));
            }
        },
        None => {},
    }
    let mut k: usize = 0;
    let mut found = false;
    while k < s.applications.len()
        invariant_except_break
            k <= s.applications@.len(),
            !found,
            forall|j: int| 0 <= j < k ==> !((#[trigger] s.applications@[j]).process@ == process@ && s.applications@[j].name@ == application@),
        ensures
            found ==> first_app(*s, process@, application@, k as int),
            !found ==> forall|j: int| 0 <= j < s.applications@.len() ==> !((#[trigger] s.applications@[j]).process@ == process@ && s.applications@[j].name@ == application@),
        decreases s.applications@.len() - k,
    {
        if str_eq(s.applications[k].process.as_str(), process) && str_eq(s.applications[k].name.as_str(), application) {
            found = true;
            break;
        }
        k = k + 1;
    }
    if !found {
        let mut text = String::from_str("unknown mixer application: ");
        push_str(&mut text, process);
        push_str(&mut text, "/");
        push_str(&mut text, application);
        return Err(BridgeError::InvalidValue(text));
    }
    let mut apps = Vec::new();
    std::mem::swap(&mut apps, &mut s.applications);
    let mut app = apps.remove(k);
    app.channel_id = match channel_id {
        Some(c) => Some(String::from_str(c)),
        None => None,
    };
    apps.insert(k, app);
    s.applications = apps;
    proof {
        let o = old(s).applications@;
        let f = s.applications@;
        assert(f =~= o.update(k as int, app));
        if app_keys_distinct(*old(s)) {
            assert forall|j: int| 0 <= j < o.len() && j != k implies !((#[trigger] o[j]).process@ == process@
                && o[j].name@ == application@) by {
                if j < k {
                } else {
                    assert(!((o[k as int]).process@ == o[j].process@ && o[k as int].name@ == o[j].name@));
                }
            }
            assert(app_routes(*s) =~= app_route_command_effect(
                app_routes(*old(s)),
                CommandSpec::SetApplicationRoute(process@, application@, opt_id(channel_id)),
            ));
            assert forall|i: int, j: int| 0 <= i < j < f.len() implies !((#[trigger] f[i]).process@ == (
                #[trigger] f[j]).process@ && f[i].name@ == f[j].name@) by {
                assert(o[i].process@ == f[i].process@ && o[i].name@ == f[i].name@);
                assert(o[j].process@ == f[j].process@ && o[j].name@ == f[j].name@);
            }
        }
    }
    let ghost before = s.channels@;
    let ghost target = opt_id(channel_id);
    let mut channels = Vec::new();
    std::mem::swap(&mut channels, &mut s.channels);
    let mut i: usize = 0;
    while i < channels.len()
        invariant
            i <= channels@.len(),
            channels@.len() == before.len(),
            target == opt_id(channel_id),
            forall|j: int| 0 <= j < i ==> channel_apps_ok(#[trigger] before[j], channels@[j], application@, target),
            forall|j: int| i <= j < channels@.len() ==> #[trigger] channels@[j] == before[j],
        decreases channels@.len() - i,
    {
        let ghost prev = channels@;
        let mut ch = channels.remove(i);
        let kept = without_name(&ch.applications, application);
        let routed_here = match channel_id {
            Some(c) => str_eq(ch.id.as_str(), c),
            None => false,
        };
        if routed_here {
            ch.applications = sorted_names_with(&kept, application);
        } else {
            ch.applications = kept;
        }
        channels.insert(i, ch);
        assert(channels@ =~= prev.update(i as int, ch));
        i = i + 1;
    }
    s.channels = channels;
    Ok(())
}

/// Applies the present fields of a microphone request; gain runs from 0 to
/// 69 dB, and an out-of-range gain changes nothing.
pub fn mock_set_microphone(s: &mut StudioSnapshot, request: SetMicrophoneRequest) -> (r: Result<(), BridgeError>)
    ensures
        (request.gain_db matches Some(g) && g > 69) ==> (r matches Err(BridgeError::InvalidValue(m))
            && m@ == "microphone gain must be between 0 and 69 dB"@) && *final(s) == *old(s),
        !(request.gain_db matches Some(g) && g > 69) ==> r is Ok
            && final(s).microphone.gain_db == (match request.gain_db { Some(g) => g, None => old(s).microphone.gain_db })
            && final(s).microphone.phantom_power == (match request.phantom_power { Some(p) => p, None => old(s).microphone.phantom_power })
            && final(s).microphone.muted == (match request.muted { Some(m) => m, None => old(s).microphone.muted })
            && final(s).headphones == old(s).headphones && final(s).linked_applications == old(s).linked_applications,
{
    match request.gain_db {
        Some(gain_db) => {
            if gain_db > 69 {
                return Err(BridgeError::InvalidValue(String::from_str("microphone gain must be between 0 and 69 dB")));
            }
            s.microphone.gain_db = gain_db;
        },
        None => {},
    }
    match request.phantom_power {
        Some(p) => s.microphone.phantom_power = p,
        None => {},
    }
    match request.muted {
        Some(m) => s.microphone.muted = m,
        None => {},
    }
    Ok(())
}

/// Assigns a linked application to a Link channel.
pub fn mock_set_link_assignment(s: &mut StudioSnapshot, application: &str, channel: LinkChannel) -> (r: Result<(), BridgeError>)
    ensures
        (forall|k: int| 0 <= k < old(s).linked_applications@.len() ==> (#[trigger] old(s).linked_applications@[k]).name@ != application@)
            ==> (r matches Err(BridgeError::InvalidValue(m)) && m@ == "unknown application: "@ + application@) && *final(s) == *old(s),
        (exists|j: int| 0 <= j < old(s).linked_applications@.len() && (#[trigger] old(s).linked_applications@[j]).name@ == application@)
            ==> r is Ok,
        r is Ok ==> exists|k: int| 0 <= k < old(s).linked_applications@.len() && (#[trigger] old(s).linked_applications@[k]).name@ == application@
            && (forall|j: int| 0 <= j < k ==> (#[trigger] old(s).linked_applications@[j]).name@ != application@)
            && final(s).linked_applications@ == old(s).linked_applications@.update(k, crate::model::LinkedApplication { channel, ..old(s).linked_applications@[k] })
            && *final(s) == (StudioSnapshot { linked_applications: final(s).linked_applications, ..*old(s) }),
{
    let mut k: usize = 0;
    let mut found = false;
    while k < s.linked_applications.len()
        invariant_except_break
            k <= s.linked_applications@.len(),
            !found,
            forall|m: int| 0 <= m < k ==> (#[trigger] s.linked_applications@[m]).name@ != application@,
        ensures
            found ==> k < s.linked_applications@.len() && s.linked_applications@[k as int].name@ == application@
                && forall|m: int| 0 <= m < k ==> (#[trigger] s.linked_applications@[m]).name@ != application@,
            !found ==> forall|m: int| 0 <= m < s.linked_applications@.len() ==> (#[trigger] s.linked_applications@[m]).name@ != application@,
        decreases s.linked_applications@.len() - k,
    {
        if str_eq(s.linked_applications[k].name.as_str(), application) {
            found = true;
            break;
        }
        k = k + 1;
    }
    if found {
        let mut apps = Vec::new();
        std::mem::swap(&mut apps, &mut s.linked_applications);
        let ghost before = apps@;
        let mut app = apps.remove(k);
        app.channel = channel;
        apps.insert(k, app);
        assert(apps@ =~= before.update(k as int, crate::model::LinkedApplication { channel, ..before[k as int] }));
        s.linked_applications = apps;
        return Ok(());
    }
    let mut text = String::from_str("unknown application: ");
    push_str(&mut text, application);
    Err(BridgeError::InvalidValue(text))
}

/// The sources of the mock mixer, in order: id, name, colour and the
/// applications routed to it.
pub open spec fn mock_sources() -> Seq<(Seq<char>, Seq<char>, Seq<char>, Seq<Seq<char>>)> {
    seq![
        ("microphone"@, "Mic"@, "#e5e25a"@, seq!["BEACN Studio Mic"@]),
        ("chat"@, "Chat"@, "#54a7d9"@, seq!["Discord"@]),
        ("music"@, "Music"@, "#b780e0"@, seq!["Spotify"@]),
        ("browser"@, "Browser"@, "#64c493"@, seq!["Firefox"@]),
        ("game"@, "Game"@, "#e8ba58"@, seq!["Game"@, "Steam"@]),
        ("system"@, "System"@, "#e8ba58"@, seq!["Desktop Audio"@]),
        ("link-in"@, "Link In"@, "#cf38d8"@, seq!["Gaming PC"@]),
    ]
}

/// The targets of the mock mixer, in order: id, meter id, name, mix and
/// volume.
pub open spec fn mock_targets() -> Seq<(Seq<char>, Seq<char>, Seq<char>, MixBus, u8)> {
    seq![
        ("headphones"@, "mock-target-headphones"@, "Headphones"@, MixBus::Personal, 62u8),
        ("voice-chat-mic"@, "mock-target-voice-chat"@, "Voice Chat Mic"@, MixBus::Audience, 100u8),
        ("vod-track"@, "mock-target-vod"@, "VOD Track"@, MixBus::Audience, 100u8),
        ("audience-mix"@, "mock-target-audience"@, "Audience Mix"@, MixBus::Audience, 100u8),
    ]
}

/// The mock sources that stand for hardware inputs.
pub open spec fn mock_physical_source(id: Seq<char>) -> bool {
    id == "microphone"@ || id == "game"@ || id == "link-in"@
}

/// A source of the mock mixer as it starts: both levels set, unmuted, linked,
/// with no devices attached.
pub open spec fn mock_channel_is(c: MixerChannel, id: Seq<char>, name: Seq<char>, colour: Seq<char>, apps: Seq<Seq<char>>) -> bool {
    &&& c.id@ == id
    &&& c.meter_id@ == "mock-source-"@ + id
    &&& c.name@ == name
    &&& c.colour@ == colour
    &&& c.personal_volume == 72
    &&& c.audience_volume == 68
    &&& c.mute_state == MuteState::Unmuted
    &&& c.applications@.len() == apps.len()
    &&& forall|k: int| 0 <= k < apps.len() ==> (#[trigger] c.applications@[k])@ == apps[k]
    &&& c.source_kind == (if mock_physical_source(id) { MixerSourceKind::Physical } else { MixerSourceKind::Virtual })
    &&& c.volumes_linked
    &&& c.attached_devices@.len() == 0
}

/// A target of the mock mixer as it starts: unmuted, with no devices.
pub open spec fn mock_target_is(t: MixerTarget, spec: (Seq<char>, Seq<char>, Seq<char>, MixBus, u8)) -> bool {
    &&& t.id@ == spec.0
    &&& t.meter_id@ == spec.1
    &&& t.name@ == spec.2
    &&& t.mix == spec.3
    &&& t.volume == spec.4
    &&& !t.muted
    &&& t.attached_devices@.len() == 0
}

pub open spec fn choice_is(c: MixerDeviceChoice, id: Seq<char>, name: Seq<char>) -> bool {
    c.id@ == id && c.name@ == name
}

fn mock_channel(id: &str, name: &str, colour: &str, apps: &[&str]) -> (r: MixerChannel)
    ensures
        mock_channel_is(r, id@, name@, colour@, apps@.map_values(|a: &str| a@)),
{
    let physical = str_eq(id, "microphone") || str_eq(id, "game") || str_eq(id, "link-in");
    let mut meter_id = String::from_str("mock-source-");
    push_str(&mut meter_id, id);
    let mut applications: Vec<String> = Vec::new();
    let mut k: usize = 0;
    while k < apps.len()
        invariant
            k <= apps@.len(),
            applications@.len() == k,
            forall|j: int| 0 <= j < k ==> (#[trigger] applications@[j])@ == apps@[j]@,
        decreases apps@.len() - k,
    {
        applications.push(String::from_str(apps[k]));
        k = k + 1;
    }
    MixerChannel {
        id: String::from_str(id),
        meter_id,
        name: String::from_str(name),
        colour: String::from_str(colour),
        personal_volume: 72,
        audience_volume: 68,
        mute_state: MuteState::Unmuted,
        applications,
        source_kind: if physical { MixerSourceKind::Physical } else { MixerSourceKind::Virtual },
        volumes_linked: true,
        attached_devices: Vec::new(),
    }
}

fn mock_target(id: &str, meter: &str, name: &str, mix: MixBus, volume: u8) -> (r: MixerTarget)
    ensures
        mock_target_is(r, (id@, meter@, name@, mix, volume)),
{
    MixerTarget {
        id: String::from_str(id),
        meter_id: String::from_str(meter),
        name: String::from_str(name),
        mix,
        volume,
        muted: false,
        attached_devices: Vec::new(),
    }
}

fn choice(id: &str, name: &str) -> (r: MixerDeviceChoice)
    ensures
        choice_is(r, id@, name@),
{
    MixerDeviceChoice { id: String::from_str(id), name: String::from_str(name) }
}

fn route(source: &str, target: &str) -> (r: MixerRoute)
    ensures
        r.source_id@ == source@ && r.target_id@ == target@,
{
    MixerRoute { source_id: String::from_str(source), target_id: String::from_str(target) }
}

/// The mixer the mock backend starts with: seven sources, four targets, the
/// game routed to the headphones and the audience mix, Discord and Spotify
/// routed to chat and music, and the voice chat mic and the headphones as
/// defaults.
pub fn mock_mixer_snapshot() -> (r: MixerSnapshot)
    ensures
        r.status == BackendStatus::Mock,
        r.error is None,
        r.engine@ == "PipeWeaver (mock)"@,
        r.channels@.len() == mock_sources().len(),
        forall|i: int|
            0 <= i < mock_sources().len() ==> mock_channel_is(
                #[trigger] r.channels@[i],
                mock_sources()[i].0,
                mock_sources()[i].1,
                mock_sources()[i].2,
                mock_sources()[i].3,
            ),
        r.targets@.len() == mock_targets().len(),
        forall|i: int| 0 <= i < mock_targets().len() ==> mock_target_is(#[trigger] r.targets@[i], mock_targets()[i]),
        r.routes@.len() == 2,
        r.routes@[0].source_id@ == "game"@ && r.routes@[0].target_id@ == "headphones"@,
        r.routes@[1].source_id@ == "game"@ && r.routes@[1].target_id@ == "audience-mix"@,
        r.applications@.len() == 2,
        r.applications@[0].process@ == "discord"@ && r.applications@[0].name@ == "Discord"@
            && (r.applications@[0].title matches Some(t) && t@ == "Voice chat"@) && (r.applications@[0].channel_id matches Some(c)
            && c@ == "chat"@),
        r.applications@[1].process@ == "spotify"@ && r.applications@[1].name@ == "Spotify"@
            && r.applications@[1].title is None && (r.applications@[1].channel_id matches Some(
            c,
        ) && c@ == "music"@),
        r.default_input matches Some(d) && d@ == "voice-chat-mic"@,
        r.default_output matches Some(d) && d@ == "headphones"@,
        r.default_inputs@.len() == 3,
        choice_is(r.default_inputs@[0], "voice-chat-mic"@, "Voice Chat Mic"@),
        choice_is(r.default_inputs@[1], "vod-track"@, "VOD Track"@),
        choice_is(r.default_inputs@[2], "audience-mix"@, "Audience Mix"@),
        r.default_outputs@.len() == 2,
        choice_is(r.default_outputs@[0], "headphones"@, "Headphones"@),
        choice_is(r.default_outputs@[1], "system"@, "System"@),
        r.physical_outputs@.len() == 0,
        r.physical_inputs@.len() == 0,
        r.link_outputs@.len() == 0,
        r.copy_outputs@.len() == 0,
{
    let mut channels: Vec<MixerChannel> = Vec::new();
    channels.push(mock_channel("microphone", "Mic", "#e5e25a", &["BEACN Studio Mic"]));
    channels.push(mock_channel("chat", "Chat", "#54a7d9", &["Discord"]));
    channels.push(mock_channel("music", "Music", "#b780e0", &["Spotify"]));
    channels.push(mock_channel("browser", "Browser", "#64c493", &["Firefox"]));
    channels.push(mock_channel("game", "Game", "#e8ba58", &["Game", "Steam"]));
    channels.push(mock_channel("system", "System", "#e8ba58", &["Desktop Audio"]));
    channels.push(mock_channel("link-in", "Link In", "#cf38d8", &["Gaming PC"]));
    let mut targets: Vec<MixerTarget> = Vec::new();
    targets.push(mock_target("headphones", "mock-target-headphones", "Headphones", MixBus::Personal, 62));
    targets.push(mock_target("voice-chat-mic", "mock-target-voice-chat", "Voice Chat Mic", MixBus::Audience, 100));
    targets.push(mock_target("vod-track", "mock-target-vod", "VOD Track", MixBus::Audience, 100));
    targets.push(mock_target("audience-mix", "mock-target-audience", "Audience Mix", MixBus::Audience, 100));
    let mut routes: Vec<MixerRoute> = Vec::new();
    routes.push(route("game", "headphones"));
    routes.push(route("game", "audience-mix"));
    let mut applications: Vec<MixerApplication> = Vec::new();
    applications.push(MixerApplication {
        process: String::from_str("discord"),
        name: String::from_str("Discord"),
        title: Some(String::from_str("Voice chat")),
        channel_id: Some(String::from_str("chat")),
    });
    applications.push(MixerApplication {
        process: String::from_str("spotify"),
        name: String::from_str("Spotify"),
        title: None,
        channel_id: Some(String::from_str("music")),
    });
    let mut default_inputs: Vec<MixerDeviceChoice> = Vec::new();
    default_inputs.push(choice("voice-chat-mic", "Voice Chat Mic"));
    default_inputs.push(choice("vod-track", "VOD Track"));
    default_inputs.push(choice("audience-mix", "Audience Mix"));
    let mut default_outputs: Vec<MixerDeviceChoice> = Vec::new();
    default_outputs.push(choice("headphones", "Headphones"));
    default_outputs.push(choice("system", "System"));
    MixerSnapshot {
        status: BackendStatus::Mock,
        error: None,
        engine: String::from_str("PipeWeaver (mock)"),
        channels,
        targets,
        routes,
        applications,
        default_input: Some(String::from_str("voice-chat-mic")),
        default_output: Some(String::from_str("headphones")),
        default_inputs,
        default_outputs,
        physical_outputs: Vec::new(),
        physical_inputs: Vec::new(),
        link_outputs: Vec::new(),
        copy_outputs: Vec::new(),
    }
}

fn linked(name: &str, channel: LinkChannel) -> (r: LinkedApplication)
    ensures
        r.name@ == name@ && r.channel == channel,
{
    LinkedApplication { name: String::from_str(name), channel }
}

/// The studio the mock backend starts with: a BEACN Studio on USB1 with a
/// mock serial and firmware, the microphone at 48 dB, line-level
/// headphones, and Game and Steam on Link 1 and Browser on Link 2.
pub fn mock_studio_snapshot() -> (r: StudioSnapshot)
    ensures
        r.identity.status == BackendStatus::Mock,
        r.identity.error is None,
        r.identity.product@ == "BEACN Studio"@,
        r.identity.serial matches Some(s) && s@ == "MOCK-STUDIO-001"@,
        r.identity.firmware matches Some(f) && f@ == "mock-1.0.0"@,
        r.identity.usb_port@ == "USB1"@,
        !r.identity.driverless_mode,
        r.microphone == (MicrophoneState { gain_db: 48, phantom_power: false, muted: false }),
        r.headphones == (HeadphoneState {
            volume: 62,
            mic_monitor: 35,
            muted: false,
            channels_linked: true,
            output_mode: HeadphoneOutputMode::LineLevel,
            mic_output_gain_tenths_db: 60,
        }),
        r.linked_applications@.len() == 3,
        r.linked_applications@[0].name@ == "Game"@ && r.linked_applications@[0].channel == LinkChannel::Link1,
        r.linked_applications@[1].name@ == "Steam"@ && r.linked_applications@[1].channel == LinkChannel::Link1,
        r.linked_applications@[2].name@ == "Browser"@ && r.linked_applications@[2].channel == LinkChannel::Link2,
{
    let mut linked_applications: Vec<LinkedApplication> = Vec::new();
    linked_applications.push(linked("Game", LinkChannel::Link1));
    linked_applications.push(linked("Steam", LinkChannel::Link1));
    linked_applications.push(linked("Browser", LinkChannel::Link2));
    StudioSnapshot {
        identity: StudioIdentity {
            status: BackendStatus::Mock,
            error: None,
            product: String::from_str("BEACN Studio"),
            serial: Some(String::from_str("MOCK-STUDIO-001")),
            firmware: Some(String::from_str("mock-1.0.0")),
            usb_port: String::from_str("USB1"),
            driverless_mode: false,
        },
        microphone: MicrophoneState { gain_db: 48, phantom_power: false, muted: false },
        headphones: HeadphoneState {
            volume: 62,
            mic_monitor: 35,
            muted: false,
            channels_linked: true,
            output_mode: HeadphoneOutputMode::LineLevel,
            mic_output_gain_tenths_db: 60,
        },
        linked_applications,
    }
}

} // verus!
