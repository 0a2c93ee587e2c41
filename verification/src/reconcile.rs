//! Applying a saved mixer profile: the mixer commands that reconcile the
//! current mixer with the profile, planned in three passes. Each pass reads
//! a fresh snapshot of the mixer; the caller runs the commands in order and
//! stops at the first failure. What the commands do to a mixer's routes,
//! application routes, default devices, target volumes, source levels and
//! source order is modelled here, and the passes are shown to restore them.
use vstd::prelude::*;
use crate::model::{BridgeError, MixerTarget, MixerPhysicalDeviceDescriptor, MixBus, MixerChannel, MixerSnapshot, MixerSourceKind, MuteState, link_slot_spec, beacn_link_output_slot};
use crate::profile::{
    channels_match, device_matches, no_match, no_match_desired, is_first_match, attachment_slot,
    target_present, opt_chars_of, first_match_index, mixer_channels_match, physical_device_matches,
    lemma_first_match_unique,
};
use crate::text::{str_eq, push_str};

verus! {

/// One mixer operation of a profile application.
#[derive(Debug, Clone, PartialEq, Eq)]
pub enum MixerCommand {
    RemoveSource { source_id: String },
    SetSourceName { source_id: String, name: String },
    CreateSource { name: String },
    SetSourceOrder { source_id: String, position: usize },
    SetSourceColour { source_id: String, colour: String },
    SetVolume { channel_id: String, mix: MixBus, volume: u8 },
    SetVolumeLinked { channel_id: String, linked: bool },
    SetMute { channel_id: String, state: MuteState },
    SetSourceDevice { channel_id: String, device_node_id: Option<u32> },
    SetTargetVolume { target_id: String, volume: u8 },
    SetTargetMute { target_id: String, muted: bool },
    SetTargetDevice { target_id: String, device_node_id: Option<u32> },
    SetLinkOutputAssignment { output_node_id: u32, target_id: Option<String> },
    SetRoute { source_id: String, target_id: String, enabled: bool },
    SetApplicationRoute { process: String, name: String, channel_id: Option<String> },
    SetDefaultInput { device_id: String },
    SetDefaultOutput { device_id: String },
}

/// A mixer command with its text as character sequences.
pub enum CommandSpec {
    RemoveSource(Seq<char>),
    SetSourceName(Seq<char>, Seq<char>),
    CreateSource(Seq<char>),
    SetSourceOrder(Seq<char>, usize),
    SetSourceColour(Seq<char>, Seq<char>),
    SetVolume(Seq<char>, MixBus, u8),
    SetVolumeLinked(Seq<char>, bool),
    SetMute(Seq<char>, MuteState),
    SetSourceDevice(Seq<char>, Option<u32>),
    SetTargetVolume(Seq<char>, u8),
    SetTargetMute(Seq<char>, bool),
    SetTargetDevice(Seq<char>, Option<u32>),
    SetLinkOutputAssignment(u32, Option<Seq<char>>),
    SetRoute(Seq<char>, Seq<char>, bool),
    SetApplicationRoute(Seq<char>, Seq<char>, Option<Seq<char>>),
    SetDefaultInput(Seq<char>),
    SetDefaultOutput(Seq<char>),
}

pub open spec fn command_view(c: MixerCommand) -> CommandSpec {
    match c {
        MixerCommand::RemoveSource { source_id } => CommandSpec::RemoveSource(source_id@),
        MixerCommand::SetSourceName { source_id, name } => CommandSpec::SetSourceName(source_id@, name@),
        MixerCommand::CreateSource { name } => CommandSpec::CreateSource(name@),
        MixerCommand::SetSourceOrder { source_id, position } => CommandSpec::SetSourceOrder(source_id@, position),
        MixerCommand::SetSourceColour { source_id, colour } => CommandSpec::SetSourceColour(source_id@, colour@),
        MixerCommand::SetVolume { channel_id, mix, volume } => CommandSpec::SetVolume(channel_id@, mix, volume),
        MixerCommand::SetVolumeLinked { channel_id, linked } => CommandSpec::SetVolumeLinked(channel_id@, linked),
        MixerCommand::SetMute { channel_id, state } => CommandSpec::SetMute(channel_id@, state),
        MixerCommand::SetSourceDevice { channel_id, device_node_id } => CommandSpec::SetSourceDevice(channel_id@, device_node_id),
        MixerCommand::SetTargetVolume { target_id, volume } => CommandSpec::SetTargetVolume(target_id@, volume),
        MixerCommand::SetTargetMute { target_id, muted } => CommandSpec::SetTargetMute(target_id@, muted),
        MixerCommand::SetTargetDevice { target_id, device_node_id } => CommandSpec::SetTargetDevice(target_id@, device_node_id),
        MixerCommand::SetLinkOutputAssignment { output_node_id, target_id } => CommandSpec::SetLinkOutputAssignment(output_node_id, opt_chars_of(target_id)),
        MixerCommand::SetRoute { source_id, target_id, enabled } => CommandSpec::SetRoute(source_id@, target_id@, enabled),
        MixerCommand::SetApplicationRoute { process, name, channel_id } => CommandSpec::SetApplicationRoute(process@, name@, opt_chars_of(channel_id)),
        MixerCommand::SetDefaultInput { device_id } => CommandSpec::SetDefaultInput(device_id@),
        MixerCommand::SetDefaultOutput { device_id } => CommandSpec::SetDefaultOutput(device_id@),
    }
}

pub open spec fn commands_view(s: Seq<MixerCommand>) -> Seq<CommandSpec> {
    s.map_values(|c: MixerCommand| command_view(c))
}

/// The first index among `0..n` that satisfies `p`.
pub open spec fn first_where(n: nat, p: spec_fn(int) -> bool) -> Option<int>
    decreases n,
{
    if n == 0 {
        None
    } else {
        match first_where((n - 1) as nat, p) {
            Some(i) => Some(i),
            None => if p(n - 1) {
                Some(n - 1)
            } else {
                None
            },
        }
    }
}

pub proof fn lemma_first_where_stable(n: nat, m: nat, p: spec_fn(int) -> bool)
    requires
        n <= m,
        first_where(n, p) is Some,
    ensures
        first_where(m, p) == first_where(n, p),
    decreases m,
{
    if m > n {
        lemma_first_where_stable(n, (m - 1) as nat, p);
    }
}

pub proof fn lemma_first_where_none(n: nat, p: spec_fn(int) -> bool)
    requires
        first_where(n, p) is None,
    ensures
        forall|i: int| 0 <= i < n ==> !#[trigger] p(i),
    decreases n,
{
    if n > 0 {
        lemma_first_where_none((n - 1) as nat, p);
    }
}

pub proof fn lemma_first_where_some(n: nat, p: spec_fn(int) -> bool)
    requires
        first_where(n, p) is Some,
    ensures
        0 <= first_where(n, p)->0 < n,
        p(first_where(n, p)->0),
        forall|i: int| 0 <= i < first_where(n, p)->0 ==> !#[trigger] p(i),
    decreases n,
{
    if n > 0 {
        if first_where((n - 1) as nat, p) is Some {
            lemma_first_where_some((n - 1) as nat, p);
        } else {
            lemma_first_where_none((n - 1) as nat, p);
        }
    }
}

/// The position of the first current source matching a saved one.
pub open spec fn current_match(ch: MixerChannel, c: MixerSnapshot) -> Option<int> {
    first_where(c.channels@.len(), match_pred(ch, c))
}

pub open spec fn match_pred(ch: MixerChannel, c: MixerSnapshot) -> spec_fn(int) -> bool {
    |k: int| channels_match(ch, c.channels@[k])
}

pub proof fn lemma_current_match(ch: MixerChannel, c: MixerSnapshot)
    ensures
        current_match(ch, c) matches Some(k) ==> is_first_match(ch, c.channels@, k),
        current_match(ch, c) is None ==> no_match(ch, c.channels@),
{
    let p = match_pred(ch, c);
    if current_match(ch, c) is Some {
        lemma_first_where_some(c.channels@.len(), p);
        let k = current_match(ch, c)->0;
        assert(p(k));
        assert forall|j: int| 0 <= j < k implies !channels_match(ch, #[trigger] c.channels@[j]) by {
            assert(!p(j));
        }
    } else {
        lemma_first_where_none(c.channels@.len(), p);
        assert forall|j: int| 0 <= j < c.channels@.len() implies !channels_match(ch, #[trigger] c.channels@[j]) by {
            assert(!p(j));
        }
    }
}

fn current_match_exec(ch: &MixerChannel, c: &MixerSnapshot) -> (r: Option<usize>)
    ensures
        r matches Some(k) ==> k < c.channels@.len() && is_first_match(*ch, c.channels@, k as int),
        r is None ==> no_match(*ch, c.channels@),
        match r {
            Some(k) => current_match(*ch, *c) == Some(k as int),
            None => current_match(*ch, *c) is None,
        },
{
    let r = first_match_index(ch, c.channels.as_slice());
    proof {
        lemma_current_match(*ch, *c);
        match r {
            Some(k) => {
                let k2 = current_match(*ch, *c);
                if k2 is Some {
                    lemma_first_match_unique(*ch, c.channels@, k as int, k2->0);
                } else {
                    assert(channels_match(*ch, c.channels@[k as int]));
                }
            },
            None => {
                if current_match(*ch, *c) is Some {
                    assert(!channels_match(*ch, c.channels@[current_match(*ch, *c)->0]));
                }
            },
        }
    }
    r
}

fn copy_string(s: &String) -> (r: String)
    ensures
        r@ == s@,
{
    String::from_str(s.as_str())
}

fn copy_opt_string(s: &Option<String>) -> (r: Option<String>)
    ensures
        opt_chars_of(r) == opt_chars_of(*s),
{
    match s {
        Some(t) => Some(copy_string(t)),
        None => None,
    }
}

/// Removals: current virtual sources that the profile does not keep.
pub open spec fn removal_commands(d: MixerSnapshot, c: MixerSnapshot, n: nat) -> Seq<CommandSpec>
    decreases n,
{
    if n == 0 {
        Seq::empty()
    } else {
        let ch = c.channels@[n - 1];
        removal_commands(d, c, (n - 1) as nat) + if ch.source_kind == MixerSourceKind::Virtual
            && no_match_desired(d.channels@, ch) {
            seq![CommandSpec::RemoveSource(ch.id@)]
        } else {
            Seq::empty()
        }
    }
}

/// Renames: kept sources whose current name differs from the saved one.
pub open spec fn rename_commands(d: MixerSnapshot, c: MixerSnapshot, n: nat) -> Seq<CommandSpec>
    decreases n,
{
    if n == 0 {
        Seq::empty()
    } else {
        let ch = d.channels@[n - 1];
        rename_commands(d, c, (n - 1) as nat) + match current_match(ch, c) {
            Some(k) => if c.channels@[k].name@ != ch.name@ {
                seq![CommandSpec::SetSourceName(c.channels@[k].id@, ch.name@)]
            } else {
                Seq::empty()
            },
            None => Seq::empty(),
        }
    }
}

/// Creations: saved virtual sources that the mixer lacks.
pub open spec fn create_commands(d: MixerSnapshot, c: MixerSnapshot, n: nat) -> Seq<CommandSpec>
    decreases n,
{
    if n == 0 {
        Seq::empty()
    } else {
        let ch = d.channels@[n - 1];
        create_commands(d, c, (n - 1) as nat) + if ch.source_kind == MixerSourceKind::Virtual
            && current_match(ch, c) is None {
            seq![CommandSpec::CreateSource(ch.name@)]
        } else {
            Seq::empty()
        }
    }
}

/// The first pass: removals before renames before creations, so stale names
/// block neither.
pub open spec fn source_pass(d: MixerSnapshot, c: MixerSnapshot) -> Seq<CommandSpec> {
    removal_commands(d, c, c.channels@.len()) + rename_commands(d, c, d.channels@.len())
        + create_commands(d, c, d.channels@.len())
}

/// A current source the profile does not keep: virtual and matched by no
/// saved source.
pub open spec fn removable(d: MixerSnapshot) -> spec_fn(MixerChannel) -> bool {
    |ch: MixerChannel| ch.source_kind == MixerSourceKind::Virtual && no_match_desired(d.channels@, ch)
}

/// A saved virtual source that the mixer lacks.
pub open spec fn missing_virtual(c: MixerSnapshot) -> spec_fn(MixerChannel) -> bool {
    |ch: MixerChannel| ch.source_kind == MixerSourceKind::Virtual && current_match(ch, c) is None
}

/// A saved source whose current match carries another name.
pub open spec fn renamed(c: MixerSnapshot) -> spec_fn(MixerChannel) -> bool {
    |ch: MixerChannel| current_match(ch, c) matches Some(k) && c.channels@[k].name@ != ch.name@
}

/// The rename of a saved source: its current match takes the saved name.
pub open spec fn rename_of(c: MixerSnapshot) -> spec_fn(MixerChannel) -> CommandSpec {
    |ch: MixerChannel| CommandSpec::SetSourceName(c.channels@[current_match(ch, c)->0].id@, ch.name@)
}

/// The source pass as its outcome: remove every current source the profile
/// does not keep, in mixer order; rename every kept source whose name
/// differs, in profile order; create every saved virtual source the mixer
/// lacks, in profile order.
pub open spec fn source_pass_outcome(d: MixerSnapshot, c: MixerSnapshot) -> Seq<CommandSpec> {
    c.channels@.filter(removable(d)).map_values(|ch: MixerChannel| CommandSpec::RemoveSource(ch.id@))
        + d.channels@.filter(renamed(c)).map_values(rename_of(c))
        + d.channels@.filter(missing_virtual(c)).map_values(|ch: MixerChannel| CommandSpec::CreateSource(ch.name@))
}

proof fn lemma_removals_outcome(d: MixerSnapshot, c: MixerSnapshot, n: nat)
    requires
        n <= c.channels@.len(),
    ensures
        removal_commands(d, c, n) == c.channels@.take(n as int).filter(removable(d)).map_values(
            |ch: MixerChannel| CommandSpec::RemoveSource(ch.id@),
        ),
    decreases n,
{
    let f = |ch: MixerChannel| CommandSpec::RemoveSource(ch.id@);
    if n == 0 {
        assert(c.channels@.take(0).filter(removable(d)) =~= Seq::<MixerChannel>::empty()) by {
            reveal(Seq::filter);
        }
        assert(c.channels@.take(0).filter(removable(d)).map_values(f) =~= Seq::<CommandSpec>::empty());
    } else {
        lemma_removals_outcome(d, c, (n - 1) as nat);
        let prev = c.channels@.take(n - 1);
        let ch = c.channels@[n - 1];
        assert(c.channels@.take(n as int) =~= prev.push(ch));
        prev.lemma_filter_push(ch, removable(d));
        if removable(d)(ch) {
            assert(prev.filter(removable(d)).push(ch).map_values(f) =~= prev.filter(removable(d)).map_values(f).push(f(ch)));
            assert(removal_commands(d, c, n) =~= removal_commands(d, c, (n - 1) as nat).push(f(ch)));
        } else {
            assert(removal_commands(d, c, n) =~= removal_commands(d, c, (n - 1) as nat));
        }
    }
}

proof fn lemma_renames_outcome(d: MixerSnapshot, c: MixerSnapshot, n: nat)
    requires
        n <= d.channels@.len(),
    ensures
        rename_commands(d, c, n) == d.channels@.take(n as int).filter(renamed(c)).map_values(rename_of(c)),
    decreases n,
{
    let f = rename_of(c);
    if n == 0 {
        assert(d.channels@.take(0).filter(renamed(c)) =~= Seq::<MixerChannel>::empty()) by {
            reveal(Seq::filter);
        }
        assert(d.channels@.take(0).filter(renamed(c)).map_values(f) =~= Seq::<CommandSpec>::empty());
    } else {
        lemma_renames_outcome(d, c, (n - 1) as nat);
        let prev = d.channels@.take(n - 1);
        let ch = d.channels@[n - 1];
        assert(d.channels@.take(n as int) =~= prev.push(ch));
        prev.lemma_filter_push(ch, renamed(c));
        if renamed(c)(ch) {
            assert(prev.filter(renamed(c)).push(ch).map_values(f) =~= prev.filter(renamed(c)).map_values(f).push(f(ch)));
            assert(rename_commands(d, c, n) =~= rename_commands(d, c, (n - 1) as nat).push(f(ch)));
        } else {
            assert(rename_commands(d, c, n) =~= rename_commands(d, c, (n - 1) as nat));
        }
    }
}

proof fn lemma_creations_outcome(d: MixerSnapshot, c: MixerSnapshot, n: nat)
    requires
        n <= d.channels@.len(),
    ensures
        create_commands(d, c, n) == d.channels@.take(n as int).filter(missing_virtual(c)).map_values(
            |ch: MixerChannel| CommandSpec::CreateSource(ch.name@),
        ),
    decreases n,
{
    let f = |ch: MixerChannel| CommandSpec::CreateSource(ch.name@);
    if n == 0 {
        assert(d.channels@.take(0).filter(missing_virtual(c)) =~= Seq::<MixerChannel>::empty()) by {
            reveal(Seq::filter);
        }
        assert(d.channels@.take(0).filter(missing_virtual(c)).map_values(f) =~= Seq::<CommandSpec>::empty());
    } else {
        lemma_creations_outcome(d, c, (n - 1) as nat);
        let prev = d.channels@.take(n - 1);
        let ch = d.channels@[n - 1];
        assert(d.channels@.take(n as int) =~= prev.push(ch));
        prev.lemma_filter_push(ch, missing_virtual(c));
        if missing_virtual(c)(ch) {
            assert(prev.filter(missing_virtual(c)).push(ch).map_values(f) =~= prev.filter(missing_virtual(c)).map_values(f).push(f(ch)));
            assert(create_commands(d, c, n) =~= create_commands(d, c, (n - 1) as nat).push(f(ch)));
        } else {
            assert(create_commands(d, c, n) =~= create_commands(d, c, (n - 1) as nat));
        }
    }
}

/// The step-by-step source pass is its outcome.
pub proof fn lemma_source_pass_outcome(d: MixerSnapshot, c: MixerSnapshot)
    ensures
        source_pass(d, c) == source_pass_outcome(d, c),
{
    lemma_removals_outcome(d, c, c.channels@.len());
    lemma_renames_outcome(d, c, d.channels@.len());
    lemma_creations_outcome(d, c, d.channels@.len());
    assert(c.channels@.take(c.channels@.len() as int) =~= c.channels@);
    assert(d.channels@.take(d.channels@.len() as int) =~= d.channels@);
}

fn push_command(out: &mut Vec<MixerCommand>, cmd: MixerCommand)
    ensures
        commands_view(final(out)@) == commands_view(old(out)@).push(command_view(cmd)),
{
    out.push(cmd);
    assert(commands_view(out@) =~= commands_view(old(out)@).push(command_view(cmd)));
}

/// The source pass of a profile application.
pub fn plan_source_pass(desired: &MixerSnapshot, current: &MixerSnapshot) -> (r: Vec<MixerCommand>)
    ensures
        commands_view(r@) == source_pass(*desired, *current),
        commands_view(r@) == source_pass_outcome(*desired, *current),
{
    proof {
        lemma_source_pass_outcome(*desired, *current);
    }
    let mut out: Vec<MixerCommand> = Vec::new();
    let mut i: usize = 0;
    assert(commands_view(out@) =~= Seq::<CommandSpec>::empty());
    while i < current.channels.len()
        invariant
            i <= current.channels@.len(),
            commands_view(out@) == removal_commands(*desired, *current, i as nat),
        decreases current.channels@.len() - i,
    {
        let ch = &current.channels[i];
        let keep = {
            let mut q: usize = 0;
            let mut found = false;
            while q < desired.channels.len()
                invariant
                    q <= desired.channels@.len(),
                    found == exists|m: int| 0 <= m < q && channels_match(#[trigger] desired.channels@[m], *ch),
                decreases desired.channels@.len() - q,
            {
                if mixer_channels_match(&desired.channels[q], ch) {
                    found = true;
                }
                q = q + 1;
            }
            found
        };
        if ch.source_kind == MixerSourceKind::Virtual && !keep {
            push_command(&mut out, MixerCommand::RemoveSource { source_id: copy_string(&ch.id) });
        } else {
            assert(commands_view(out@) =~= removal_commands(*desired, *current, i as nat) + Seq::<CommandSpec>::empty());
        }
        i = i + 1;
    }
    let ghost removals = commands_view(out@);
    let mut i: usize = 0;
    assert(commands_view(out@) =~= removals + rename_commands(*desired, *current, 0));
    while i < desired.channels.len()
        invariant
            i <= desired.channels@.len(),
            commands_view(out@) == removals + rename_commands(*desired, *current, i as nat),
        decreases desired.channels@.len() - i,
    {
        let ch = &desired.channels[i];
        match current_match_exec(ch, current) {
            Some(k) => {
                if !str_eq(current.channels[k].name.as_str(), ch.name.as_str()) {
                    push_command(&mut out, MixerCommand::SetSourceName {
                        source_id: copy_string(&current.channels[k].id),
                        name: copy_string(&ch.name),
                    });
                    assert(commands_view(out@) =~= removals + rename_commands(*desired, *current, (i + 1) as nat));
                } else {
                    assert(commands_view(out@) =~= removals + rename_commands(*desired, *current, (i + 1) as nat));
                }
            },
            None => {
                assert(commands_view(out@) =~= removals + rename_commands(*desired, *current, (i + 1) as nat));
            },
        }
        i = i + 1;
    }
    let ghost renames = commands_view(out@);
    let mut i: usize = 0;
    assert(commands_view(out@) =~= renames + create_commands(*desired, *current, 0));
    while i < desired.channels.len()
        invariant
            i <= desired.channels@.len(),
            commands_view(out@) == renames + create_commands(*desired, *current, i as nat),
        decreases desired.channels@.len() - i,
    {
        let ch = &desired.channels[i];
        if ch.source_kind == MixerSourceKind::Virtual && current_match_exec(ch, current).is_none() {
            push_command(&mut out, MixerCommand::CreateSource { name: copy_string(&ch.name) });
            assert(commands_view(out@) =~= renames + create_commands(*desired, *current, (i + 1) as nat));
        } else {
            assert(commands_view(out@) =~= renames + create_commands(*desired, *current, (i + 1) as nat));
        }
        i = i + 1;
    }
    out
}

/// Current physical inputs that are the device.
pub open spec fn input_pred(dev: MixerPhysicalDeviceDescriptor, c: MixerSnapshot) -> spec_fn(int) -> bool {
    |k: int| device_matches(dev, c.physical_inputs@[k].descriptor)
}

/// The settings of one saved source, applied to its current match `cur`.
pub open spec fn channel_commands(ch: MixerChannel, pos: usize, cur: MixerChannel, c: MixerSnapshot) -> Seq<CommandSpec> {
    let id = cur.id@;
    seq![
        CommandSpec::SetSourceOrder(id, pos),
        CommandSpec::SetSourceColour(id, ch.colour@),
        CommandSpec::SetVolume(id, MixBus::Personal, ch.personal_volume),
        CommandSpec::SetVolume(id, MixBus::Audience, ch.audience_volume),
        CommandSpec::SetVolumeLinked(id, ch.volumes_linked),
        CommandSpec::SetMute(id, ch.mute_state),
    ] + if ch.source_kind == MixerSourceKind::Physical {
        if ch.attached_devices@.len() == 0 {
            seq![CommandSpec::SetSourceDevice(id, None)]
        } else {
            match first_where(c.physical_inputs@.len(), input_pred(ch.attached_devices@[0], c)) {
                Some(k) => seq![CommandSpec::SetSourceDevice(id, Some(c.physical_inputs@[k].node_id))],
                None => Seq::empty(),
            }
        }
    } else {
        Seq::empty()
    }
}

pub open spec fn unmatched_pred(d: MixerSnapshot, c: MixerSnapshot) -> spec_fn(int) -> bool {
    |q: int| current_match(d.channels@[q], c) is None
}

/// The first saved source with no current match.
pub open spec fn first_unmatched(d: MixerSnapshot, c: MixerSnapshot) -> Option<int> {
    first_where(d.channels@.len(), unmatched_pred(d, c))
}

pub open spec fn channel_phase(d: MixerSnapshot, c: MixerSnapshot, n: nat) -> Seq<CommandSpec>
    decreases n,
{
    if n == 0 {
        Seq::empty()
    } else {
        let ch = d.channels@[n - 1];
        channel_phase(d, c, (n - 1) as nat) + match current_match(ch, c) {
            Some(k) => channel_commands(ch, (n - 1) as usize, c.channels@[k], c),
            None => Seq::empty(),
        }
    }
}

/// Current physical outputs, not Link outputs, that one of the target's
/// non-Link attachments names.
pub open spec fn output_pred(t: MixerTarget, c: MixerSnapshot) -> spec_fn(int) -> bool {
    |k: int|
        link_slot_spec(c.physical_outputs@[k].name@, c.physical_outputs@[k].descriptor) is None
            && exists|j: int|
            0 <= j < t.attached_devices@.len() && attachment_slot(#[trigger] t.attached_devices@[j])
                is None && device_matches(t.attached_devices@[j], c.physical_outputs@[k].descriptor)
}

/// Every attachment is a Link output.
pub open spec fn all_link(att: Seq<MixerPhysicalDeviceDescriptor>) -> bool {
    forall|j: int| 0 <= j < att.len() ==> attachment_slot(#[trigger] att[j]) is Some
}

pub open spec fn target_commands(t: MixerTarget, c: MixerSnapshot) -> Seq<CommandSpec> {
    let id = t.id@;
    if !target_present(c, id) {
        Seq::empty()
    } else {
        seq![CommandSpec::SetTargetVolume(id, t.volume), CommandSpec::SetTargetMute(id, t.muted)]
            + if t.attached_devices@.len() == 0 {
            seq![CommandSpec::SetTargetDevice(id, None)]
        } else {
            match first_where(c.physical_outputs@.len(), output_pred(t, c)) {
                Some(k) => seq![CommandSpec::SetTargetDevice(id, Some(c.physical_outputs@[k].node_id))],
                None => if all_link(t.attached_devices@) {
                    seq![CommandSpec::SetTargetDevice(id, None)]
                } else {
                    Seq::empty()
                },
            }
        }
    }
}

pub open spec fn target_phase(d: MixerSnapshot, c: MixerSnapshot, n: nat) -> Seq<CommandSpec>
    decreases n,
{
    if n == 0 {
        Seq::empty()
    } else {
        target_phase(d, c, (n - 1) as nat) + target_commands(d.targets@[n - 1], c)
    }
}

pub open spec fn saved_slot_pred(d: MixerSnapshot, slot: u8) -> spec_fn(int) -> bool {
    |s: int| d.link_outputs@[s].slot == slot
}

pub open spec fn attached_slot_pred(d: MixerSnapshot, slot: u8) -> spec_fn(int) -> bool {
    |t: int|
        exists|j: int|
            0 <= j < d.targets@[t].attached_devices@.len() && attachment_slot(
                #[trigger] d.targets@[t].attached_devices@[j],
            ) == Some(slot)
}

/// The target a Link slot is restored to: the saved assignment, which may
/// be explicitly none, or for older profiles the first target with an
/// attachment on the slot.
pub open spec fn link_target(d: MixerSnapshot, slot: u8) -> Option<Seq<char>> {
    match first_where(d.link_outputs@.len(), saved_slot_pred(d, slot)) {
        Some(s) => opt_chars_of(d.link_outputs@[s].target_id),
        None => match first_where(d.targets@.len(), attached_slot_pred(d, slot)) {
            Some(t) => Some(d.targets@[t].id@),
            None => None,
        },
    }
}

pub open spec fn link_phase(d: MixerSnapshot, c: MixerSnapshot, n: nat) -> Seq<CommandSpec>
    decreases n,
{
    if n == 0 {
        Seq::empty()
    } else {
        let link = c.link_outputs@[n - 1];
        link_phase(d, c, (n - 1) as nat) + seq![
            CommandSpec::SetLinkOutputAssignment(link.node_id, link_target(d, link.slot)),
        ]
    }
}

/// Every saved physical source with an input that is reached has a current
/// input for it; applying the profile assumes so.
pub open spec fn inputs_resolvable(d: MixerSnapshot, c: MixerSnapshot) -> bool {
    forall|q: int|
        0 <= q < d.channels@.len() && (first_unmatched(d, c) is None || q < first_unmatched(
            d,
            c,
        )->0) && (#[trigger] d.channels@[q]).source_kind == MixerSourceKind::Physical
            && d.channels@[q].attached_devices@.len() > 0 ==> first_where(
            c.physical_inputs@.len(),
            input_pred(d.channels@[q].attached_devices@[0], c),
        ) is Some
}

/// The settings pass: per-source settings in profile order, then targets
/// and Link outputs; or the commands up to the first saved source that has
/// no current match, and the error for it.
pub open spec fn settings_pass(d: MixerSnapshot, c: MixerSnapshot) -> (Seq<CommandSpec>, Option<Seq<char>>) {
    match first_unmatched(d, c) {
        Some(q) => (
            channel_phase(d, c, q as nat),
            Some("profile source was not available after reconciliation: "@ + d.channels@[q].name@),
        ),
        None => (
            channel_phase(d, c, d.channels@.len()) + target_phase(d, c, d.targets@.len())
                + link_phase(d, c, c.link_outputs@.len()),
            None,
        ),
    }
}

fn first_input(dev: &MixerPhysicalDeviceDescriptor, c: &MixerSnapshot) -> (r: Option<usize>)
    ensures
        match r {
            Some(k) => first_where(c.physical_inputs@.len(), input_pred(*dev, *c)) == Some(k as int)
                && k < c.physical_inputs@.len(),
            None => first_where(c.physical_inputs@.len(), input_pred(*dev, *c)) is None,
        },
{
    let ghost p = input_pred(*dev, *c);
    let mut k: usize = 0;
    while k < c.physical_inputs.len()
        invariant
            k <= c.physical_inputs@.len(),
            p == input_pred(*dev, *c),
            first_where(k as nat, p) is None,
        decreases c.physical_inputs@.len() - k,
    {
        if physical_device_matches(dev, &c.physical_inputs[k].descriptor) {
            proof {
                lemma_first_where_stable((k + 1) as nat, c.physical_inputs@.len(), p);
            }
            return Some(k);
        }
        k = k + 1;
    }
    None
}

fn push_channel_commands(
    out: &mut Vec<MixerCommand>,
    ch: &MixerChannel,
    pos: usize,
    cur: &MixerChannel,
    c: &MixerSnapshot,
)
    requires
        ch.source_kind == MixerSourceKind::Physical && ch.attached_devices@.len() > 0 ==> first_where(
            c.physical_inputs@.len(),
            input_pred(ch.attached_devices@[0], *c),
        ) is Some,
    ensures
        commands_view(final(out)@) == commands_view(old(out)@) + channel_commands(*ch, pos, *cur, *c),
{
    let ghost start = commands_view(out@);
    push_command(out, MixerCommand::SetSourceOrder { source_id: copy_string(&cur.id), position: pos });
    push_command(out, MixerCommand::SetSourceColour { source_id: copy_string(&cur.id), colour: copy_string(&ch.colour) });
    push_command(out, MixerCommand::SetVolume { channel_id: copy_string(&cur.id), mix: MixBus::Personal, volume: ch.personal_volume });
    push_command(out, MixerCommand::SetVolume { channel_id: copy_string(&cur.id), mix: MixBus::Audience, volume: ch.audience_volume });
    push_command(out, MixerCommand::SetVolumeLinked { channel_id: copy_string(&cur.id), linked: ch.volumes_linked });
    push_command(out, MixerCommand::SetMute { channel_id: copy_string(&cur.id), state: ch.mute_state });
    if ch.source_kind == MixerSourceKind::Physical {
        if ch.attached_devices.len() == 0 {
            push_command(out, MixerCommand::SetSourceDevice { channel_id: copy_string(&cur.id), device_node_id: None });
        } else {
            let k = first_input(&ch.attached_devices[0], c).unwrap();
            push_command(out, MixerCommand::SetSourceDevice {
                channel_id: copy_string(&cur.id),
                device_node_id: Some(c.physical_inputs[k].node_id),
            });
        }
    }
    assert(commands_view(out@) =~= start + channel_commands(*ch, pos, *cur, *c));
}

fn first_output_for(t: &MixerTarget, c: &MixerSnapshot) -> (r: Option<usize>)
    ensures
        match r {
            Some(k) => first_where(c.physical_outputs@.len(), output_pred(*t, *c)) == Some(k as int)
                && k < c.physical_outputs@.len(),
            None => first_where(c.physical_outputs@.len(), output_pred(*t, *c)) is None,
        },
{
    let ghost p = output_pred(*t, *c);
    let mut k: usize = 0;
    while k < c.physical_outputs.len()
        invariant
            k <= c.physical_outputs@.len(),
            p == output_pred(*t, *c),
            first_where(k as nat, p) is None,
        decreases c.physical_outputs@.len() - k,
    {
        let output = &c.physical_outputs[k];
        let mut found = false;
        if beacn_link_output_slot(output.name.as_str(), &output.descriptor).is_none() {
            let mut j: usize = 0;
            while j < t.attached_devices.len()
                invariant
                    j <= t.attached_devices@.len(),
                    k < c.physical_outputs@.len(),
                    output == c.physical_outputs@[k as int],
                    found == exists|m: int|
                        0 <= m < j && attachment_slot(#[trigger] t.attached_devices@[m]) is None
                            && device_matches(t.attached_devices@[m], output.descriptor),
                decreases t.attached_devices@.len() - j,
            {
                let a = &t.attached_devices[j];
                proof {
                    reveal_strlit("");
                    assert(""@ =~= Seq::<char>::empty());
                }
                if beacn_link_output_slot("", a).is_none() && physical_device_matches(a, &output.descriptor) {
                    found = true;
                }
                j = j + 1;
            }
        }
        if found {
            proof {
                assert(p(k as int));
                lemma_first_where_stable((k + 1) as nat, c.physical_outputs@.len(), p);
            }
            return Some(k);
        }
        assert(!p(k as int));
        k = k + 1;
    }
    None
}

fn all_link_exec(att: &Vec<MixerPhysicalDeviceDescriptor>) -> (r: bool)
    ensures
        r == all_link(att@),
{
    let mut j: usize = 0;
    while j < att.len()
        invariant
            j <= att@.len(),
            forall|m: int| 0 <= m < j ==> attachment_slot(#[trigger] att@[m]) is Some,
        decreases att@.len() - j,
    {
        proof {
            reveal_strlit("");
            assert(""@ =~= Seq::<char>::empty());
        }
        if beacn_link_output_slot("", &att[j]).is_none() {
            return false;
        }
        j = j + 1;
    }
    true
}

fn target_present_exec2(c: &MixerSnapshot, id: &str) -> (r: bool)
    ensures
        r == target_present(*c, id@),
{
    let mut k: usize = 0;
    while k < c.targets.len()
        invariant
            k <= c.targets@.len(),
            forall|m: int| 0 <= m < k ==> (#[trigger] c.targets@[m]).id@ != id@,
        decreases c.targets@.len() - k,
    {
        if str_eq(c.targets[k].id.as_str(), id) {
            return true;
        }
        k = k + 1;
    }
    false
}

fn push_target_commands(out: &mut Vec<MixerCommand>, t: &MixerTarget, c: &MixerSnapshot)
    ensures
        commands_view(final(out)@) == commands_view(old(out)@) + target_commands(*t, *c),
{
    let ghost start = commands_view(out@);
    if !target_present_exec2(c, t.id.as_str()) {
        assert(commands_view(out@) =~= start + target_commands(*t, *c));
        return;
    }
    push_command(out, MixerCommand::SetTargetVolume { target_id: copy_string(&t.id), volume: t.volume });
    push_command(out, MixerCommand::SetTargetMute { target_id: copy_string(&t.id), muted: t.muted });
    if t.attached_devices.len() == 0 {
        push_command(out, MixerCommand::SetTargetDevice { target_id: copy_string(&t.id), device_node_id: None });
    } else {
        match first_output_for(t, c) {
            Some(k) => {
                push_command(out, MixerCommand::SetTargetDevice {
                    target_id: copy_string(&t.id),
                    device_node_id: Some(c.physical_outputs[k].node_id),
                });
            },
            None => {
                if all_link_exec(&t.attached_devices) {
                    push_command(out, MixerCommand::SetTargetDevice { target_id: copy_string(&t.id), device_node_id: None });
                }
            },
        }
    }
    assert(commands_view(out@) =~= start + target_commands(*t, *c));
}

fn link_target_exec(d: &MixerSnapshot, slot: u8) -> (r: Option<String>)
    ensures
        opt_chars_of(r) == link_target(*d, slot),
{
    let ghost ps = saved_slot_pred(*d, slot);
    let mut s: usize = 0;
    while s < d.link_outputs.len()
        invariant
            s <= d.link_outputs@.len(),
            ps == saved_slot_pred(*d, slot),
            first_where(s as nat, ps) is None,
        decreases d.link_outputs@.len() - s,
    {
        if d.link_outputs[s].slot == slot {
            proof {
                lemma_first_where_stable((s + 1) as nat, d.link_outputs@.len(), ps);
            }
            return copy_opt_string(&d.link_outputs[s].target_id);
        }
        s = s + 1;
    }
    let ghost pt = attached_slot_pred(*d, slot);
    let mut t: usize = 0;
    while t < d.targets.len()
        invariant
            t <= d.targets@.len(),
            pt == attached_slot_pred(*d, slot),
            first_where(d.link_outputs@.len(), ps) is None,
            ps == saved_slot_pred(*d, slot),
            first_where(t as nat, pt) is None,
        decreases d.targets@.len() - t,
    {
        let att = &d.targets[t].attached_devices;
        let mut j: usize = 0;
        let mut found = false;
        while j < att.len()
            invariant
                j <= att@.len(),
                t < d.targets@.len(),
                att == d.targets@[t as int].attached_devices,
                found == exists|m: int| 0 <= m < j && attachment_slot(#[trigger] att@[m]) == Some(slot),
            decreases att@.len() - j,
        {
            proof {
                reveal_strlit("");
                assert(""@ =~= Seq::<char>::empty());
            }
            if beacn_link_output_slot("", &att[j]) == Some(slot) {
                found = true;
            }
            j = j + 1;
        }
        if found {
            proof {
                assert(pt(t as int));
                lemma_first_where_stable((t + 1) as nat, d.targets@.len(), pt);
            }
            return Some(copy_string(&d.targets[t].id));
        }
        assert(!pt(t as int));
        t = t + 1;
    }
    None
}

/// The settings pass of a profile application, planned from a fresh
/// snapshot taken after the source pass.
pub fn plan_settings_pass(desired: &MixerSnapshot, current: &MixerSnapshot) -> (r: (Vec<MixerCommand>, Option<BridgeError>))
    requires
        inputs_resolvable(*desired, *current),
    ensures
        commands_view(r.0@) == settings_pass(*desired, *current).0,
        match settings_pass(*desired, *current).1 {
            Some(m) => r.1 matches Some(BridgeError::Backend(e)) && e@ == m,
            None => r.1 is None,
        },
{
    let mut out: Vec<MixerCommand> = Vec::new();
    let ghost pu = unmatched_pred(*desired, *current);
    assert(commands_view(out@) =~= Seq::<CommandSpec>::empty());
    let mut q: usize = 0;
    while q < desired.channels.len()
        invariant
            q <= desired.channels@.len(),
            pu == unmatched_pred(*desired, *current),
            first_where(q as nat, pu) is None,
            inputs_resolvable(*desired, *current),
            commands_view(out@) == channel_phase(*desired, *current, q as nat),
        decreases desired.channels@.len() - q,
    {
        let ch = &desired.channels[q];
        match current_match_exec(ch, current) {
            None => {
                proof {
                    assert(pu(q as int));
                    lemma_first_where_stable((q + 1) as nat, desired.channels@.len(), pu);
                }
                let mut text = String::from_str("profile source was not available after reconciliation: ");
                push_str(&mut text, ch.name.as_str());
                return (out, Some(BridgeError::Backend(text)));
            },
            Some(k) => {
                proof {
                    assert(!pu(q as int));
                    if first_unmatched(*desired, *current) is Some {
                        lemma_first_where_some(desired.channels@.len(), pu);
                        lemma_first_where_none(q as nat + 1, pu);
                    }
                }
                push_channel_commands(&mut out, ch, q, &current.channels[k], current);
            },
        }
        q = q + 1;
    }
    let ghost channels = commands_view(out@);
    let mut i: usize = 0;
    assert(commands_view(out@) =~= channels + target_phase(*desired, *current, 0));
    while i < desired.targets.len()
        invariant
            i <= desired.targets@.len(),
            commands_view(out@) == channels + target_phase(*desired, *current, i as nat),
        decreases desired.targets@.len() - i,
    {
        push_target_commands(&mut out, &desired.targets[i], current);
        assert(commands_view(out@) =~= channels + target_phase(*desired, *current, (i + 1) as nat));
        i = i + 1;
    }
    let ghost targets = commands_view(out@);
    let mut i: usize = 0;
    assert(commands_view(out@) =~= targets + link_phase(*desired, *current, 0));
    while i < current.link_outputs.len()
        invariant
            i <= current.link_outputs@.len(),
            commands_view(out@) == targets + link_phase(*desired, *current, i as nat),
        decreases current.link_outputs@.len() - i,
    {
        let link = &current.link_outputs[i];
        let target = link_target_exec(desired, link.slot);
        push_command(&mut out, MixerCommand::SetLinkOutputAssignment { output_node_id: link.node_id, target_id: target });
        assert(commands_view(out@) =~= targets + link_phase(*desired, *current, (i + 1) as nat));
        i = i + 1;
    }
    (out, None)
}

pub open spec fn id_pred(d: MixerSnapshot, id: Seq<char>) -> spec_fn(int) -> bool {
    |q: int| d.channels@[q].id@ == id
}

/// The current id of the saved source with id `src`: the first saved source
/// with that id, through its first current match.
pub open spec fn resolved_source(d: MixerSnapshot, c: MixerSnapshot, src: Seq<char>) -> Option<Seq<char>> {
    match first_where(d.channels@.len(), id_pred(d, src)) {
        Some(q) => match current_match(d.channels@[q], c) {
            Some(k) => Some(c.channels@[k].id@),
            None => None,
        },
        None => None,
    }
}

/// The profile routes the current source `sid` to target `tid`.
pub open spec fn route_wanted(d: MixerSnapshot, c: MixerSnapshot, sid: Seq<char>, tid: Seq<char>) -> bool {
    exists|r: int|
        0 <= r < d.routes@.len() && (#[trigger] d.routes@[r]).target_id@ == tid && resolved_source(
            d,
            c,
            d.routes@[r].source_id@,
        ) == Some(sid)
}

/// The mixer routes source `sid` to target `tid`.
pub open spec fn route_exists(c: MixerSnapshot, sid: Seq<char>, tid: Seq<char>) -> bool {
    exists|r: int|
        0 <= r < c.routes@.len() && (#[trigger] c.routes@[r]).source_id@ == sid
            && c.routes@[r].target_id@ == tid
}

pub open spec fn route_cell(d: MixerSnapshot, c: MixerSnapshot, s: int, t: int) -> Seq<CommandSpec> {
    let sid = c.channels@[s].id@;
    let tid = c.targets@[t].id@;
    if route_exists(c, sid, tid) != route_wanted(d, c, sid, tid) {
        seq![CommandSpec::SetRoute(sid, tid, route_wanted(d, c, sid, tid))]
    } else {
        Seq::empty()
    }
}

pub open spec fn route_row(d: MixerSnapshot, c: MixerSnapshot, s: int, n: nat) -> Seq<CommandSpec>
    decreases n,
{
    if n == 0 {
        Seq::empty()
    } else {
        route_row(d, c, s, (n - 1) as nat) + route_cell(d, c, s, n - 1)
    }
}

/// Route changes, source by source and target by target: only the routes
/// whose state differs from the profile are set.
pub open spec fn route_grid(d: MixerSnapshot, c: MixerSnapshot, n: nat) -> Seq<CommandSpec>
    decreases n,
{
    if n == 0 {
        Seq::empty()
    } else {
        route_grid(d, c, (n - 1) as nat) + route_row(d, c, n - 1, c.targets@.len())
    }
}

pub open spec fn app_pred(d: MixerSnapshot, process: Seq<char>, name: Seq<char>) -> spec_fn(int) -> bool {
    |a: int| d.applications@[a].process@ == process && d.applications@[a].name@ == name
}

/// The source a current application is routed to by the profile, if any.
pub open spec fn app_channel(d: MixerSnapshot, c: MixerSnapshot, process: Seq<char>, name: Seq<char>) -> Option<Seq<char>> {
    match first_where(d.applications@.len(), app_pred(d, process, name)) {
        Some(a) => match d.applications@[a].channel_id {
            Some(cid) => resolved_source(d, c, cid@),
            None => None,
        },
        None => None,
    }
}

pub open spec fn app_commands(d: MixerSnapshot, c: MixerSnapshot, n: nat) -> Seq<CommandSpec>
    decreases n,
{
    if n == 0 {
        Seq::empty()
    } else {
        let app = c.applications@[n - 1];
        app_commands(d, c, (n - 1) as nat) + seq![
            CommandSpec::SetApplicationRoute(
                app.process@,
                app.name@,
                app_channel(d, c, app.process@, app.name@),
            ),
        ]
    }
}

/// Defaults are set only where the profile names one that differs.
pub open spec fn default_commands(d: MixerSnapshot, c: MixerSnapshot) -> Seq<CommandSpec> {
    (if d.default_input is Some && opt_chars_of(c.default_input) != opt_chars_of(d.default_input) {
        seq![CommandSpec::SetDefaultInput(d.default_input->0@)]
    } else {
        Seq::empty()
    }) + (if d.default_output is Some && opt_chars_of(c.default_output) != opt_chars_of(
        d.default_output,
    ) {
        seq![CommandSpec::SetDefaultOutput(d.default_output->0@)]
    } else {
        Seq::empty()
    })
}

/// The routing pass, planned from a fresh snapshot after the settings pass.
pub open spec fn routing_pass(d: MixerSnapshot, c: MixerSnapshot) -> Seq<CommandSpec> {
    route_grid(d, c, c.channels@.len()) + app_commands(d, c, c.applications@.len())
        + default_commands(d, c)
}

fn resolved_source_exec(d: &MixerSnapshot, c: &MixerSnapshot, src: &str) -> (r: Option<String>)
    ensures
        opt_chars_of(r) == resolved_source(*d, *c, src@),
{
    let ghost p = id_pred(*d, src@);
    let mut q: usize = 0;
    while q < d.channels.len()
        invariant
            q <= d.channels@.len(),
            p == id_pred(*d, src@),
            first_where(q as nat, p) is None,
        decreases d.channels@.len() - q,
    {
        if str_eq(d.channels[q].id.as_str(), src) {
            proof {
                lemma_first_where_stable((q + 1) as nat, d.channels@.len(), p);
            }
            return match current_match_exec(&d.channels[q], c) {
                Some(k) => Some(copy_string(&c.channels[k].id)),
                None => None,
            };
        }
        q = q + 1;
    }
    None
}

fn route_exists_exec(c: &MixerSnapshot, sid: &str, tid: &str) -> (r: bool)
    ensures
        r == route_exists(*c, sid@, tid@),
{
    let mut k: usize = 0;
    while k < c.routes.len()
        invariant
            k <= c.routes@.len(),
            forall|m: int|
                0 <= m < k ==> !((#[trigger] c.routes@[m]).source_id@ == sid@ && c.routes@[m].target_id@
                    == tid@),
        decreases c.routes@.len() - k,
    {
        if str_eq(c.routes[k].source_id.as_str(), sid) && str_eq(c.routes[k].target_id.as_str(), tid) {
            return true;
        }
        k = k + 1;
    }
    false
}

fn route_wanted_exec(
    d: &MixerSnapshot,
    c: &MixerSnapshot,
    resolved: &Vec<Option<String>>,
    sid: &str,
    tid: &str,
) -> (r: bool)
    requires
        resolved@.len() == d.routes@.len(),
        forall|m: int|
            0 <= m < resolved@.len() ==> opt_chars_of(#[trigger] resolved@[m]) == resolved_source(
                *d,
                *c,
                d.routes@[m].source_id@,
            ),
    ensures
        r == route_wanted(*d, *c, sid@, tid@),
{
    let mut k: usize = 0;
    while k < d.routes.len()
        invariant
            k <= d.routes@.len(),
            resolved@.len() == d.routes@.len(),
            forall|m: int|
                0 <= m < resolved@.len() ==> opt_chars_of(#[trigger] resolved@[m]) == resolved_source(
                    *d,
                    *c,
                    d.routes@[m].source_id@,
                ),
            forall|m: int|
                0 <= m < k ==> !((#[trigger] d.routes@[m]).target_id@ == tid@ && resolved_source(
                    *d,
                    *c,
                    d.routes@[m].source_id@,
                ) == Some(sid@)),
        decreases d.routes@.len() - k,
    {
        let hit = match &resolved[k] {
            Some(x) => str_eq(x.as_str(), sid),
            None => false,
        };
        assert(opt_chars_of(resolved@[k as int]) == resolved_source(*d, *c, d.routes@[k as int].source_id@));
        if str_eq(d.routes[k].target_id.as_str(), tid) && hit {
            return true;
        }
        k = k + 1;
    }
    false
}

fn app_channel_exec(d: &MixerSnapshot, c: &MixerSnapshot, process: &str, name: &str) -> (r: Option<String>)
    ensures
        opt_chars_of(r) == app_channel(*d, *c, process@, name@),
{
    let ghost p = app_pred(*d, process@, name@);
    let mut a: usize = 0;
    while a < d.applications.len()
        invariant
            a <= d.applications@.len(),
            p == app_pred(*d, process@, name@),
            first_where(a as nat, p) is None,
        decreases d.applications@.len() - a,
    {
        if str_eq(d.applications[a].process.as_str(), process) && str_eq(
            d.applications[a].name.as_str(),
            name,
        ) {
            proof {
                lemma_first_where_stable((a + 1) as nat, d.applications@.len(), p);
            }
            return match &d.applications[a].channel_id {
                Some(cid) => resolved_source_exec(d, c, cid.as_str()),
                None => None,
            };
        }
        a = a + 1;
    }
    None
}

fn opt_differs(a: &Option<String>, b: &Option<String>) -> (r: bool)
    ensures
        r == (opt_chars_of(*a) != opt_chars_of(*b)),
{
    match (a, b) {
        (Some(x), Some(y)) => !str_eq(x.as_str(), y.as_str()),
        (None, None) => false,
        _ => true,
    }
}

/// The routing pass of a profile application.
pub fn plan_routing_pass(desired: &MixerSnapshot, current: &MixerSnapshot) -> (r: Vec<MixerCommand>)
    ensures
        commands_view(r@) == routing_pass(*desired, *current),
{
    let mut resolved: Vec<Option<String>> = Vec::new();
    let mut k: usize = 0;
    while k < desired.routes.len()
        invariant
            k <= desired.routes@.len(),
            resolved@.len() == k,
            forall|m: int|
                0 <= m < k ==> opt_chars_of(#[trigger] resolved@[m]) == resolved_source(
                    *desired,
                    *current,
                    desired.routes@[m].source_id@,
                ),
        decreases desired.routes@.len() - k,
    {
        let x = resolved_source_exec(desired, current, desired.routes[k].source_id.as_str());
        resolved.push(x);
        k = k + 1;
    }
    let mut out: Vec<MixerCommand> = Vec::new();
    assert(commands_view(out@) =~= route_grid(*desired, *current, 0));
    let mut s: usize = 0;
    while s < current.channels.len()
        invariant
            s <= current.channels@.len(),
            resolved@.len() == desired.routes@.len(),
            forall|m: int|
                0 <= m < resolved@.len() ==> opt_chars_of(#[trigger] resolved@[m]) == resolved_source(
                    *desired,
                    *current,
                    desired.routes@[m].source_id@,
                ),
            commands_view(out@) == route_grid(*desired, *current, s as nat),
        decreases current.channels@.len() - s,
    {
        let ghost row_start = commands_view(out@);
        let sid = current.channels[s].id.as_str();
        let mut t: usize = 0;
        assert(commands_view(out@) =~= row_start + route_row(*desired, *current, s as int, 0));
        while t < current.targets.len()
            invariant
                t <= current.targets@.len(),
                s < current.channels@.len(),
                sid@ == current.channels@[s as int].id@,
                resolved@.len() == desired.routes@.len(),
                forall|m: int|
                    0 <= m < resolved@.len() ==> opt_chars_of(#[trigger] resolved@[m]) == resolved_source(
                        *desired,
                        *current,
                        desired.routes@[m].source_id@,
                    ),
                commands_view(out@) == row_start + route_row(*desired, *current, s as int, t as nat),
            decreases current.targets@.len() - t,
        {
            let tid = current.targets[t].id.as_str();
            let was = route_exists_exec(current, sid, tid);
            let should = route_wanted_exec(desired, current, &resolved, sid, tid);
            if was != should {
                push_command(&mut out, MixerCommand::SetRoute {
                    source_id: String::from_str(sid),
                    target_id: String::from_str(tid),
                    enabled: should,
                });
            }
            assert(commands_view(out@) =~= row_start + route_row(*desired, *current, s as int, (t + 1) as nat));
            t = t + 1;
        }
        assert(commands_view(out@) =~= route_grid(*desired, *current, (s + 1) as nat));
        s = s + 1;
    }
    let ghost grid = commands_view(out@);
    let mut a: usize = 0;
    assert(commands_view(out@) =~= grid + app_commands(*desired, *current, 0));
    while a < current.applications.len()
        invariant
            a <= current.applications@.len(),
            commands_view(out@) == grid + app_commands(*desired, *current, a as nat),
        decreases current.applications@.len() - a,
    {
        let app = &current.applications[a];
        let channel = app_channel_exec(desired, current, app.process.as_str(), app.name.as_str());
        push_command(&mut out, MixerCommand::SetApplicationRoute {
            process: copy_string(&app.process),
            name: copy_string(&app.name),
            channel_id: channel,
        });
        assert(commands_view(out@) =~= grid + app_commands(*desired, *current, (a + 1) as nat));
        a = a + 1;
    }
    let ghost apps = commands_view(out@);
    match &desired.default_input {
        Some(input) => {
            if opt_differs(&current.default_input, &desired.default_input) {
                push_command(&mut out, MixerCommand::SetDefaultInput { device_id: copy_string(input) });
            }
        },
        None => {},
    }
    match &desired.default_output {
        Some(output) => {
            if opt_differs(&current.default_output, &desired.default_output) {
                push_command(&mut out, MixerCommand::SetDefaultOutput { device_id: copy_string(output) });
            }
        },
        None => {},
    }
    assert(commands_view(out@) =~= apps + default_commands(*desired, *current));
    out
}

/// Whether every saved physical source that the settings pass reaches has a
/// current input for its attachment.
pub fn settings_inputs_resolvable(desired: &MixerSnapshot, current: &MixerSnapshot) -> (r: bool)
    ensures
        r == inputs_resolvable(*desired, *current),
{
    let ghost pu = unmatched_pred(*desired, *current);
    let mut limit: usize = 0;
    let mut found = false;
    while !found && limit < desired.channels.len()
        invariant
            limit <= desired.channels@.len(),
            pu == unmatched_pred(*desired, *current),
            !found ==> first_where(limit as nat, pu) is None,
            found ==> limit < desired.channels@.len() && first_unmatched(*desired, *current) == Some(limit as int),
        decreases desired.channels@.len() - limit + if found { 0int } else { 1int },
    {
        if current_match_exec(&desired.channels[limit], current).is_none() {
            proof {
                assert(pu(limit as int));
                lemma_first_where_stable((limit + 1) as nat, desired.channels@.len(), pu);
            }
            found = true;
        } else {
            limit = limit + 1;
        }
    }
    proof {
        if !found {
            assert(first_unmatched(*desired, *current) is None);
        }
    }
    let mut q: usize = 0;
    while q < limit
        invariant
            q <= limit <= desired.channels@.len(),
            !found ==> first_unmatched(*desired, *current) is None,
            found ==> first_unmatched(*desired, *current) == Some(limit as int),
            forall|m: int|
                0 <= m < q && (#[trigger] desired.channels@[m]).source_kind == MixerSourceKind::Physical
                    && desired.channels@[m].attached_devices@.len() > 0 ==> first_where(
                    current.physical_inputs@.len(),
                    input_pred(desired.channels@[m].attached_devices@[0], *current),
                ) is Some,
        decreases limit - q,
    {
        let ch = &desired.channels[q];
        if ch.source_kind == MixerSourceKind::Physical && ch.attached_devices.len() > 0 {
            if first_input(&ch.attached_devices[0], current).is_none() {
                return false;
            }
        }
        q = q + 1;
    }
    true
}

/// The routes of a mixer as (source id, target id) pairs.
pub open spec fn route_set(c: MixerSnapshot) -> Set<(Seq<char>, Seq<char>)> {
    Set::new(|p: (Seq<char>, Seq<char>)| route_exists(c, p.0, p.1))
}

/// No route is listed twice.
pub open spec fn routes_distinct(c: MixerSnapshot) -> bool {
    forall|i: int, j: int|
        0 <= i < j < c.routes@.len() ==> !((#[trigger] c.routes@[i]).source_id@ == (
        #[trigger] c.routes@[j]).source_id@ && c.routes@[i].target_id@ == c.routes@[j].target_id@)
}

/// What one command does to a mixer's routes: a route command turns its
/// route on or off, and every other command leaves the routes alone.
pub open spec fn route_command_effect(routes: Set<(Seq<char>, Seq<char>)>, cmd: CommandSpec) -> Set<
    (Seq<char>, Seq<char>),
> {
    match cmd {
        CommandSpec::SetRoute(source, target, on) => if on {
            routes.insert((source, target))
        } else {
            routes.remove((source, target))
        },
        _ => routes,
    }
}

/// What a run of commands, in order, does to a mixer's routes.
pub open spec fn route_commands_effect(routes: Set<(Seq<char>, Seq<char>)>, cmds: Seq<CommandSpec>) -> Set<
    (Seq<char>, Seq<char>),
>
    decreases cmds.len(),
{
    if cmds.len() == 0 {
        routes
    } else {
        route_command_effect(route_commands_effect(routes, cmds.drop_last()), cmds.last())
    }
}

/// The pair joins a current source and a current target.
pub open spec fn grid_pair(c: MixerSnapshot, p: (Seq<char>, Seq<char>)) -> bool {
    exists|s: int, t: int|
        0 <= s < c.channels@.len() && 0 <= t < c.targets@.len() && p == (
        #[trigger] c.channels@[s].id@,
        #[trigger] c.targets@[t].id@,
    )
}

/// The pair is a grid cell before row `n`, column `m`.
spec fn cell_done(c: MixerSnapshot, p: (Seq<char>, Seq<char>), n: int, m: int) -> bool {
    exists|s: int, t: int|
        0 <= s < c.channels@.len() && 0 <= t < c.targets@.len() && p == (
        #[trigger] c.channels@[s].id@,
        #[trigger] c.targets@[t].id@,
    ) && (s < n || (s == n && t < m))
}

/// The routes after the cells before row `n`, column `m`: those cells hold
/// what the profile wants, every other pair what the mixer had.
spec fn routes_after(d: MixerSnapshot, c: MixerSnapshot, routes: Set<(Seq<char>, Seq<char>)>, n: int, m: int) -> bool {
    forall|p: (Seq<char>, Seq<char>)|
        #[trigger] routes.contains(p) == if cell_done(c, p, n, m) {
            route_wanted(d, c, p.0, p.1)
        } else {
            route_exists(c, p.0, p.1)
        }
}

proof fn lemma_effect_append(routes: Set<(Seq<char>, Seq<char>)>, a: Seq<CommandSpec>, b: Seq<CommandSpec>)
    ensures
        route_commands_effect(routes, a + b) == route_commands_effect(route_commands_effect(routes, a), b),
    decreases b.len(),
{
    if b.len() == 0 {
        assert(a + b =~= a);
    } else {
        lemma_effect_append(routes, a, b.drop_last());
        assert((a + b).drop_last() =~= a + b.drop_last());
        assert((a + b).last() == b.last());
    }
}

proof fn lemma_route_cell_step(d: MixerSnapshot, c: MixerSnapshot, routes: Set<(Seq<char>, Seq<char>)>, n: int, m: int)
    requires
        0 <= n < c.channels@.len(),
        0 <= m < c.targets@.len(),
        routes_after(d, c, routes, n, m),
    ensures
        routes_after(d, c, route_commands_effect(routes, route_cell(d, c, n, m)), n, m + 1),
{
    let q = (c.channels@[n].id@, c.targets@[m].id@);
    let after = route_commands_effect(routes, route_cell(d, c, n, m));
    let cells = route_cell(d, c, n, m);
    let w = route_wanted(d, c, q.0, q.1);
    if route_exists(c, q.0, q.1) != w {
        assert(cells.drop_last() =~= Seq::<CommandSpec>::empty());
        assert(route_commands_effect(routes, cells.drop_last()) == routes);
        assert(after == route_command_effect(routes, CommandSpec::SetRoute(q.0, q.1, w)));
    } else {
        assert(cells.len() == 0);
        assert(after == routes);
    }
    assert(cell_done(c, q, n, m + 1)) by {
        assert(q == (c.channels@[n].id@, c.targets@[m].id@));
    }
    assert forall|p: (Seq<char>, Seq<char>)| #[trigger] after.contains(p) == if cell_done(c, p, n, m + 1) {
        route_wanted(d, c, p.0, p.1)
    } else {
        route_exists(c, p.0, p.1)
    } by {
        assert(routes.contains(p) == if cell_done(c, p, n, m) {
            route_wanted(d, c, p.0, p.1)
        } else {
            route_exists(c, p.0, p.1)
        });
        if p != q {
            assert(after.contains(p) == routes.contains(p));
            if cell_done(c, p, n, m + 1) {
                let (s, t) = choose|s: int, t: int|
                    0 <= s < c.channels@.len() && 0 <= t < c.targets@.len() && p == (
                    #[trigger] c.channels@[s].id@,
                    #[trigger] c.targets@[t].id@,
                ) && (s < n || (s == n && t < m + 1));
                assert(cell_done(c, p, n, m));
            }
            if cell_done(c, p, n, m) {
                let (s, t) = choose|s: int, t: int|
                    0 <= s < c.channels@.len() && 0 <= t < c.targets@.len() && p == (
                    #[trigger] c.channels@[s].id@,
                    #[trigger] c.targets@[t].id@,
                ) && (s < n || (s == n && t < m));
                assert(cell_done(c, p, n, m + 1));
            }
        }
    }
}

proof fn lemma_route_row(d: MixerSnapshot, c: MixerSnapshot, routes: Set<(Seq<char>, Seq<char>)>, n: int, m: nat)
    requires
        0 <= n < c.channels@.len(),
        m <= c.targets@.len(),
        routes_after(d, c, routes, n, 0),
    ensures
        routes_after(d, c, route_commands_effect(routes, route_row(d, c, n, m)), n, m as int),
    decreases m,
{
    if m > 0 {
        let k = (m - 1) as nat;
        lemma_route_row(d, c, routes, n, k);
        let mid = route_commands_effect(routes, route_row(d, c, n, k));
        lemma_route_cell_step(d, c, mid, n, k as int);
        lemma_effect_append(routes, route_row(d, c, n, k), route_cell(d, c, n, k as int));
    } else {
        assert(route_row(d, c, n, 0) =~= Seq::<CommandSpec>::empty());
    }
}

proof fn lemma_route_grid(d: MixerSnapshot, c: MixerSnapshot, n: nat)
    requires
        n <= c.channels@.len(),
    ensures
        routes_after(d, c, route_commands_effect(route_set(c), route_grid(d, c, n)), n as int, 0),
    decreases n,
{
    if n > 0 {
        let k = (n - 1) as nat;
        lemma_route_grid(d, c, k);
        let mid = route_commands_effect(route_set(c), route_grid(d, c, k));
        lemma_route_row(d, c, mid, k as int, c.targets@.len());
        lemma_effect_append(route_set(c), route_grid(d, c, k), route_row(d, c, k as int, c.targets@.len()));
        let after = route_commands_effect(route_set(c), route_grid(d, c, n));
        assert forall|p: (Seq<char>, Seq<char>)| cell_done(c, p, k as int, c.targets@.len() as int) == cell_done(
            c,
            p,
            n as int,
            0,
        ) by {
            if cell_done(c, p, n as int, 0) {
                let (s, t) = choose|s: int, t: int|
                    0 <= s < c.channels@.len() && 0 <= t < c.targets@.len() && p == (
                    #[trigger] c.channels@[s].id@,
                    #[trigger] c.targets@[t].id@,
                ) && (s < n || (s == n && t < 0));
                assert(cell_done(c, p, k as int, c.targets@.len() as int));
            }
            if cell_done(c, p, k as int, c.targets@.len() as int) {
                let (s, t) = choose|s: int, t: int|
                    0 <= s < c.channels@.len() && 0 <= t < c.targets@.len() && p == (
                    #[trigger] c.channels@[s].id@,
                    #[trigger] c.targets@[t].id@,
                ) && (s < k || (s == k && t < c.targets@.len()));
                assert(cell_done(c, p, n as int, 0));
            }
        }
        assert forall|p: (Seq<char>, Seq<char>)| #[trigger] after.contains(p) == if cell_done(c, p, n as int, 0) {
            route_wanted(d, c, p.0, p.1)
        } else {
            route_exists(c, p.0, p.1)
        } by {
            assert(cell_done(c, p, k as int, c.targets@.len() as int) == cell_done(c, p, n as int, 0));
        }
    } else {
        assert forall|p: (Seq<char>, Seq<char>)| #[trigger] route_set(c).contains(p) == if cell_done(c, p, 0, 0) {
            route_wanted(d, c, p.0, p.1)
        } else {
            route_exists(c, p.0, p.1)
        } by {
            if cell_done(c, p, 0, 0) {
                let (s, t) = choose|s: int, t: int|
                    0 <= s < c.channels@.len() && 0 <= t < c.targets@.len() && p == (
                    #[trigger] c.channels@[s].id@,
                    #[trigger] c.targets@[t].id@,
                ) && (s < 0 || (s == 0 && t < 0));
            }
        }
    }
}

proof fn lemma_no_route_commands(routes: Set<(Seq<char>, Seq<char>)>, cmds: Seq<CommandSpec>)
    requires
        forall|i: int| 0 <= i < cmds.len() ==> !(#[trigger] cmds[i] is SetRoute),
    ensures
        route_commands_effect(routes, cmds) == routes,
    decreases cmds.len(),
{
    if cmds.len() > 0 {
        assert(!(cmds[cmds.len() - 1] is SetRoute));
        lemma_no_route_commands(routes, cmds.drop_last());
    }
}

/// The routing pass, applied to the routes of the mixer it was planned from,
/// turns on exactly the routes that the profile wants between a current
/// source and a current target and leaves every other route as it was; its
/// application and default-device commands do not touch routes.
pub proof fn lemma_routing_pass_restores_routes(d: MixerSnapshot, c: MixerSnapshot)
    ensures
        forall|p: (Seq<char>, Seq<char>)|
            grid_pair(c, p) ==> (#[trigger] route_commands_effect(route_set(c), routing_pass(d, c)).contains(p)
                == route_wanted(d, c, p.0, p.1)),
        forall|p: (Seq<char>, Seq<char>)|
            !grid_pair(c, p) ==> (#[trigger] route_commands_effect(route_set(c), routing_pass(d, c)).contains(p)
                == route_exists(c, p.0, p.1)),
{
    let n = c.channels@.len();
    lemma_route_grid(d, c, n);
    let grid = route_grid(d, c, n);
    let rest = app_commands(d, c, c.applications@.len()) + default_commands(d, c);
    let after = route_commands_effect(route_set(c), grid);
    lemma_app_commands_only_apps(d, c, c.applications@.len());
    assert forall|i: int| 0 <= i < rest.len() implies !(#[trigger] rest[i] is SetRoute) by {
        let a = app_commands(d, c, c.applications@.len());
        if i < a.len() {
            assert(rest[i] == a[i]);
        } else {
            assert(rest[i] == default_commands(d, c)[i - a.len()]);
        }
    }
    lemma_no_route_commands(after, rest);
    assert(routing_pass(d, c) =~= grid + rest);
    lemma_effect_append(route_set(c), grid, rest);
    assert forall|p: (Seq<char>, Seq<char>)| cell_done(c, p, n as int, 0) == grid_pair(c, p) by {
        if grid_pair(c, p) {
            let (s, t) = choose|s: int, t: int|
                0 <= s < c.channels@.len() && 0 <= t < c.targets@.len() && p == (
                #[trigger] c.channels@[s].id@,
                #[trigger] c.targets@[t].id@,
            );
            assert(cell_done(c, p, n as int, 0));
        }
    }
}

/// The default input after a run of commands, in order: the last one set,
/// or `current` when none sets it.
pub open spec fn default_input_effect(current: Option<Seq<char>>, cmds: Seq<CommandSpec>) -> Option<Seq<char>>
    decreases cmds.len(),
{
    if cmds.len() == 0 {
        current
    } else {
        match cmds.last() {
            CommandSpec::SetDefaultInput(id) => Some(id),
            _ => default_input_effect(current, cmds.drop_last()),
        }
    }
}

/// The default output after a run of commands, in order.
pub open spec fn default_output_effect(current: Option<Seq<char>>, cmds: Seq<CommandSpec>) -> Option<Seq<char>>
    decreases cmds.len(),
{
    if cmds.len() == 0 {
        current
    } else {
        match cmds.last() {
            CommandSpec::SetDefaultOutput(id) => Some(id),
            _ => default_output_effect(current, cmds.drop_last()),
        }
    }
}

proof fn lemma_default_effect_append(cur_in: Option<Seq<char>>, cur_out: Option<Seq<char>>, a: Seq<CommandSpec>, b: Seq<CommandSpec>)
    ensures
        default_input_effect(cur_in, a + b) == default_input_effect(default_input_effect(cur_in, a), b),
        default_output_effect(cur_out, a + b) == default_output_effect(default_output_effect(cur_out, a), b),
    decreases b.len(),
{
    if b.len() == 0 {
        assert(a + b =~= a);
    } else {
        lemma_default_effect_append(cur_in, cur_out, a, b.drop_last());
        assert((a + b).drop_last() =~= a + b.drop_last());
        assert((a + b).last() == b.last());
    }
}

proof fn lemma_no_default_commands(cur_in: Option<Seq<char>>, cur_out: Option<Seq<char>>, cmds: Seq<CommandSpec>)
    requires
        forall|i: int| 0 <= i < cmds.len() ==> (#[trigger] cmds[i] is SetRoute || cmds[i] is SetApplicationRoute),
    ensures
        default_input_effect(cur_in, cmds) == cur_in,
        default_output_effect(cur_out, cmds) == cur_out,
    decreases cmds.len(),
{
    if cmds.len() > 0 {
        assert(cmds[cmds.len() - 1] is SetRoute || cmds[cmds.len() - 1] is SetApplicationRoute);
        lemma_no_default_commands(cur_in, cur_out, cmds.drop_last());
    }
}

proof fn lemma_route_row_only_routes(d: MixerSnapshot, c: MixerSnapshot, s: int, n: nat)
    ensures
        forall|i: int| 0 <= i < route_row(d, c, s, n).len() ==> #[trigger] route_row(d, c, s, n)[i] is SetRoute,
    decreases n,
{
    if n > 0 {
        lemma_route_row_only_routes(d, c, s, (n - 1) as nat);
        let a = route_row(d, c, s, (n - 1) as nat);
        let b = route_cell(d, c, s, n - 1);
        assert forall|i: int| 0 <= i < route_row(d, c, s, n).len() implies #[trigger] route_row(d, c, s, n)[i] is SetRoute by {
            if i < a.len() {
                assert(route_row(d, c, s, n)[i] == a[i]);
            } else {
                assert(route_row(d, c, s, n)[i] == b[i - a.len()]);
            }
        }
    }
}

proof fn lemma_route_grid_only_routes(d: MixerSnapshot, c: MixerSnapshot, n: nat)
    ensures
        forall|i: int| 0 <= i < route_grid(d, c, n).len() ==> #[trigger] route_grid(d, c, n)[i] is SetRoute,
    decreases n,
{
    if n > 0 {
        lemma_route_grid_only_routes(d, c, (n - 1) as nat);
        lemma_route_row_only_routes(d, c, n - 1, c.targets@.len());
        let a = route_grid(d, c, (n - 1) as nat);
        let b = route_row(d, c, n - 1, c.targets@.len());
        assert forall|i: int| 0 <= i < route_grid(d, c, n).len() implies #[trigger] route_grid(d, c, n)[i] is SetRoute by {
            if i < a.len() {
                assert(route_grid(d, c, n)[i] == a[i]);
            } else {
                assert(route_grid(d, c, n)[i] == b[i - a.len()]);
            }
        }
    }
}

proof fn lemma_app_commands_only_apps(d: MixerSnapshot, c: MixerSnapshot, n: nat)
    requires
        n <= c.applications@.len(),
    ensures
        forall|i: int| 0 <= i < app_commands(d, c, n).len() ==> #[trigger] app_commands(d, c, n)[i] is SetApplicationRoute,
    decreases n,
{
    if n > 0 {
        lemma_app_commands_only_apps(d, c, (n - 1) as nat);
        let a = app_commands(d, c, (n - 1) as nat);
        assert forall|i: int| 0 <= i < app_commands(d, c, n).len() implies #[trigger] app_commands(d, c, n)[i] is SetApplicationRoute by {
            if i < a.len() {
                assert(app_commands(d, c, n)[i] == a[i]);
            }
        }
    }
}

/// The routing pass leaves the default input and output the profile names,
/// and keeps the current ones where the profile names none.
pub proof fn lemma_routing_pass_restores_defaults(d: MixerSnapshot, c: MixerSnapshot)
    ensures
        default_input_effect(opt_chars_of(c.default_input), routing_pass(d, c)) == if d.default_input is Some {
            opt_chars_of(d.default_input)
        } else {
            opt_chars_of(c.default_input)
        },
        default_output_effect(opt_chars_of(c.default_output), routing_pass(d, c)) == if d.default_output is Some {
            opt_chars_of(d.default_output)
        } else {
            opt_chars_of(c.default_output)
        },
{
    let cin = opt_chars_of(c.default_input);
    let cout = opt_chars_of(c.default_output);
    let grid = route_grid(d, c, c.channels@.len());
    let apps = app_commands(d, c, c.applications@.len());
    let both = grid + apps;
    lemma_route_grid_only_routes(d, c, c.channels@.len());
    lemma_app_commands_only_apps(d, c, c.applications@.len());
    assert forall|i: int| 0 <= i < both.len() implies (#[trigger] both[i] is SetRoute || both[i] is SetApplicationRoute) by {
        if i < grid.len() {
            assert(both[i] == grid[i]);
        } else {
            assert(both[i] == apps[i - grid.len()]);
        }
    }
    lemma_no_default_commands(cin, cout, both);
    assert(routing_pass(d, c) =~= both + default_commands(d, c));
    lemma_default_effect_append(cin, cout, both, default_commands(d, c));
    let di = if d.default_input is Some && opt_chars_of(c.default_input) != opt_chars_of(d.default_input) {
        seq![CommandSpec::SetDefaultInput(d.default_input->0@)]
    } else {
        Seq::<CommandSpec>::empty()
    };
    let dout = if d.default_output is Some && opt_chars_of(c.default_output) != opt_chars_of(d.default_output) {
        seq![CommandSpec::SetDefaultOutput(d.default_output->0@)]
    } else {
        Seq::<CommandSpec>::empty()
    };
    assert(default_commands(d, c) == di + dout);
    lemma_default_effect_append(cin, cout, di, dout);
    if di.len() > 0 {
        assert(di.drop_last() =~= Seq::<CommandSpec>::empty());
    }
    if dout.len() > 0 {
        assert(dout.drop_last() =~= Seq::<CommandSpec>::empty());
        assert(default_input_effect(default_input_effect(cin, di), dout) == default_input_effect(
            default_input_effect(cin, di),
            dout.drop_last(),
        ));
    }
    if di.len() > 0 {
        assert(default_output_effect(cout, di) == default_output_effect(cout, di.drop_last()));
    }
}

/// Each application of a mixer with the source it is routed to.
pub open spec fn app_routes(c: MixerSnapshot) -> Seq<(Seq<char>, Seq<char>, Option<Seq<char>>)> {
    c.applications@.map_values(
        |a: crate::model::MixerApplication| (a.process@, a.name@, opt_chars_of(a.channel_id)),
    )
}

/// No two applications share a process and a name.
pub open spec fn app_keys_distinct(c: MixerSnapshot) -> bool {
    forall|i: int, j: int|
        0 <= i < j < c.applications@.len() ==> !((#[trigger] c.applications@[i]).process@ == (
        #[trigger] c.applications@[j]).process@ && c.applications@[i].name@ == c.applications@[j].name@)
}

/// What one command does to the applications' routes: an application route
/// command routes the application with that process and name, and every
/// other command leaves them alone.
pub open spec fn app_route_command_effect(
    apps: Seq<(Seq<char>, Seq<char>, Option<Seq<char>>)>,
    cmd: CommandSpec,
) -> Seq<(Seq<char>, Seq<char>, Option<Seq<char>>)> {
    match cmd {
        CommandSpec::SetApplicationRoute(process, name, channel) => Seq::new(
            apps.len(),
            |k: int|
                if apps[k].0 == process && apps[k].1 == name {
                    (process, name, channel)
                } else {
                    apps[k]
                },
        ),
        _ => apps,
    }
}

/// What a run of commands, in order, does to the applications' routes.
pub open spec fn app_route_commands_effect(
    apps: Seq<(Seq<char>, Seq<char>, Option<Seq<char>>)>,
    cmds: Seq<CommandSpec>,
) -> Seq<(Seq<char>, Seq<char>, Option<Seq<char>>)>
    decreases cmds.len(),
{
    if cmds.len() == 0 {
        apps
    } else {
        app_route_command_effect(app_route_commands_effect(apps, cmds.drop_last()), cmds.last())
    }
}

proof fn lemma_app_effect_append(
    apps: Seq<(Seq<char>, Seq<char>, Option<Seq<char>>)>,
    a: Seq<CommandSpec>,
    b: Seq<CommandSpec>,
)
    ensures
        app_route_commands_effect(apps, a + b) == app_route_commands_effect(app_route_commands_effect(apps, a), b),
    decreases b.len(),
{
    if b.len() == 0 {
        assert(a + b =~= a);
    } else {
        lemma_app_effect_append(apps, a, b.drop_last());
        assert((a + b).drop_last() =~= a + b.drop_last());
        assert((a + b).last() == b.last());
    }
}

proof fn lemma_no_app_commands(apps: Seq<(Seq<char>, Seq<char>, Option<Seq<char>>)>, cmds: Seq<CommandSpec>)
    requires
        forall|i: int| 0 <= i < cmds.len() ==> !(#[trigger] cmds[i] is SetApplicationRoute),
    ensures
        app_route_commands_effect(apps, cmds) == apps,
    decreases cmds.len(),
{
    if cmds.len() > 0 {
        assert(!(cmds[cmds.len() - 1] is SetApplicationRoute));
        lemma_no_app_commands(apps, cmds.drop_last());
    }
}

proof fn lemma_app_commands_route(d: MixerSnapshot, c: MixerSnapshot, n: nat)
    requires
        app_keys_distinct(c),
        n <= c.applications@.len(),
    ensures
        ({
            let r = app_route_commands_effect(app_routes(c), app_commands(d, c, n));
            &&& r.len() == c.applications@.len()
            &&& forall|k: int| 0 <= k < n ==> #[trigger] r[k] == (
                c.applications@[k].process@,
                c.applications@[k].name@,
                app_channel(d, c, c.applications@[k].process@, c.applications@[k].name@),
            )
            &&& forall|k: int| n <= k < c.applications@.len() ==> #[trigger] r[k] == app_routes(c)[k]
        }),
    decreases n,
{
    if n > 0 {
        let m = (n - 1) as nat;
        lemma_app_commands_route(d, c, m);
        let prev = app_route_commands_effect(app_routes(c), app_commands(d, c, m));
        let app = c.applications@[m as int];
        let cmd = CommandSpec::SetApplicationRoute(
            app.process@,
            app.name@,
            app_channel(d, c, app.process@, app.name@),
        );
        assert(app_commands(d, c, n) == app_commands(d, c, m) + seq![cmd]);
        lemma_app_effect_append(app_routes(c), app_commands(d, c, m), seq![cmd]);
        assert(seq![cmd].drop_last() =~= Seq::<CommandSpec>::empty());
        assert(app_route_commands_effect(prev, seq![cmd].drop_last()) == prev);
        assert(seq![cmd].last() == cmd);
        assert(app_route_commands_effect(prev, seq![cmd]) == app_route_command_effect(prev, cmd));
        let r = app_route_commands_effect(app_routes(c), app_commands(d, c, n));
        assert(r == app_route_command_effect(prev, cmd));
        assert forall|k: int| 0 <= k < c.applications@.len() && k != m implies !(#[trigger] prev[k].0 == app.process@
            && prev[k].1 == app.name@) by {
            if k < m {
                assert(prev[k].0 == c.applications@[k].process@);
            } else {
                assert(prev[k] == app_routes(c)[k]);
            }
        }
    }
}

/// The routing pass, applied to the applications of the mixer it was planned
/// from (no two sharing a process and a name), routes each application to
/// the current source that the profile routes it to, or to none.
pub proof fn lemma_routing_pass_restores_application_routes(d: MixerSnapshot, c: MixerSnapshot)
    requires
        app_keys_distinct(c),
    ensures
        app_route_commands_effect(app_routes(c), routing_pass(d, c)).len() == c.applications@.len(),
        forall|k: int|
            0 <= k < c.applications@.len() ==> #[trigger] app_route_commands_effect(app_routes(c), routing_pass(d, c))[k]
                == (
                c.applications@[k].process@,
                c.applications@[k].name@,
                app_channel(d, c, c.applications@[k].process@, c.applications@[k].name@),
            ),
{
    let grid = route_grid(d, c, c.channels@.len());
    let apps = app_commands(d, c, c.applications@.len());
    let defaults = default_commands(d, c);
    lemma_route_grid_only_routes(d, c, c.channels@.len());
    lemma_no_app_commands(app_routes(c), grid);
    lemma_app_commands_route(d, c, c.applications@.len());
    let after = app_route_commands_effect(app_routes(c), apps);
    assert forall|i: int| 0 <= i < defaults.len() implies !(#[trigger] defaults[i] is SetApplicationRoute) by {
        let di = if d.default_input is Some && opt_chars_of(c.default_input) != opt_chars_of(d.default_input) {
            seq![CommandSpec::SetDefaultInput(d.default_input->0@)]
        } else {
            Seq::<CommandSpec>::empty()
        };
        if i < di.len() {
            assert(defaults[i] == di[i]);
        }
    }
    lemma_no_app_commands(after, defaults);
    assert(routing_pass(d, c) =~= grid + apps + defaults);
    lemma_app_effect_append(app_routes(c), grid, apps);
    lemma_app_effect_append(app_routes(c), grid + apps, defaults);
}

/// Each target of a mixer with its volume.
pub open spec fn target_volumes(c: MixerSnapshot) -> Seq<(Seq<char>, u8)> {
    c.targets@.map_values(|t: MixerTarget| (t.id@, t.volume))
}

/// No two targets share an id.
pub open spec fn target_ids_distinct(ts: Seq<MixerTarget>) -> bool {
    forall|i: int, j: int| 0 <= i < j < ts.len() ==> (#[trigger] ts[i]).id@ != (#[trigger] ts[j]).id@
}

/// What one command does to the targets' volumes: a target volume command
/// sets the volume of the target with that id.
pub open spec fn target_volume_command_effect(ts: Seq<(Seq<char>, u8)>, cmd: CommandSpec) -> Seq<(Seq<char>, u8)> {
    match cmd {
        CommandSpec::SetTargetVolume(id, volume) => Seq::new(
            ts.len(),
            |k: int|
                if ts[k].0 == id {
                    (id, volume)
                } else {
                    ts[k]
                },
        ),
        _ => ts,
    }
}

/// What a run of commands, in order, does to the targets' volumes.
pub open spec fn target_volume_commands_effect(ts: Seq<(Seq<char>, u8)>, cmds: Seq<CommandSpec>) -> Seq<(Seq<char>, u8)>
    decreases cmds.len(),
{
    if cmds.len() == 0 {
        ts
    } else {
        target_volume_command_effect(target_volume_commands_effect(ts, cmds.drop_last()), cmds.last())
    }
}

proof fn lemma_volume_effect_append(ts: Seq<(Seq<char>, u8)>, a: Seq<CommandSpec>, b: Seq<CommandSpec>)
    ensures
        target_volume_commands_effect(ts, a + b) == target_volume_commands_effect(target_volume_commands_effect(ts, a), b),
    decreases b.len(),
{
    if b.len() == 0 {
        assert(a + b =~= a);
    } else {
        lemma_volume_effect_append(ts, a, b.drop_last());
        assert((a + b).drop_last() =~= a + b.drop_last());
        assert((a + b).last() == b.last());
    }
}

proof fn lemma_no_volume_commands(ts: Seq<(Seq<char>, u8)>, cmds: Seq<CommandSpec>)
    requires
        forall|i: int| 0 <= i < cmds.len() ==> !(#[trigger] cmds[i] is SetTargetVolume),
    ensures
        target_volume_commands_effect(ts, cmds) == ts,
    decreases cmds.len(),
{
    if cmds.len() > 0 {
        assert(!(cmds[cmds.len() - 1] is SetTargetVolume));
        lemma_no_volume_commands(ts, cmds.drop_last());
    }
}

proof fn lemma_channel_phase_no_volume(d: MixerSnapshot, c: MixerSnapshot, n: nat)
    requires
        n <= d.channels@.len(),
    ensures
        forall|i: int| 0 <= i < channel_phase(d, c, n).len() ==> !(#[trigger] channel_phase(d, c, n)[i] is SetTargetVolume),
    decreases n,
{
    if n > 0 {
        lemma_channel_phase_no_volume(d, c, (n - 1) as nat);
        let a = channel_phase(d, c, (n - 1) as nat);
        let ch = d.channels@[n - 1];
        let b = match current_match(ch, c) {
            Some(k) => channel_commands(ch, (n - 1) as usize, c.channels@[k], c),
            None => Seq::empty(),
        };
        assert(channel_phase(d, c, n) == a + b);
        assert forall|i: int| 0 <= i < channel_phase(d, c, n).len() implies !(#[trigger] channel_phase(d, c, n)[i] is SetTargetVolume) by {
            if i < a.len() {
                assert(channel_phase(d, c, n)[i] == a[i]);
            } else {
                assert(channel_phase(d, c, n)[i] == b[i - a.len()]);
                if let Some(k) = current_match(ch, c) {
                    let head = seq![
                        CommandSpec::SetSourceOrder(c.channels@[k].id@, (n - 1) as usize),
                        CommandSpec::SetSourceColour(c.channels@[k].id@, ch.colour@),
                        CommandSpec::SetVolume(c.channels@[k].id@, MixBus::Personal, ch.personal_volume),
                        CommandSpec::SetVolume(c.channels@[k].id@, MixBus::Audience, ch.audience_volume),
                        CommandSpec::SetVolumeLinked(c.channels@[k].id@, ch.volumes_linked),
                        CommandSpec::SetMute(c.channels@[k].id@, ch.mute_state),
                    ];
                    let j = i - a.len();
                    if j < 6 {
                        assert(b[j] == head[j]);
                    } else {
                        assert(b[j] is SetSourceDevice);
                    }
                }
            }
        }
    }
}

proof fn lemma_link_phase_no_volume(d: MixerSnapshot, c: MixerSnapshot, n: nat)
    requires
        n <= c.link_outputs@.len(),
    ensures
        forall|i: int| 0 <= i < link_phase(d, c, n).len() ==> !(#[trigger] link_phase(d, c, n)[i] is SetTargetVolume),
    decreases n,
{
    if n > 0 {
        lemma_link_phase_no_volume(d, c, (n - 1) as nat);
        let a = link_phase(d, c, (n - 1) as nat);
        assert forall|i: int| 0 <= i < link_phase(d, c, n).len() implies !(#[trigger] link_phase(d, c, n)[i] is SetTargetVolume) by {
            if i < a.len() {
                assert(link_phase(d, c, n)[i] == a[i]);
            }
        }
    }
}

/// The volume that the first `n` profile targets leave on a current target:
/// the volume of the profile target with its id, or the current one.
spec fn volume_after(d: MixerSnapshot, c: MixerSnapshot, n: nat, k: int) -> u8 {
    if exists|i: int| 0 <= i < n && (#[trigger] d.targets@[i]).id@ == c.targets@[k].id@ {
        d.targets@[choose|i: int| 0 <= i < n && (#[trigger] d.targets@[i]).id@ == c.targets@[k].id@].volume
    } else {
        c.targets@[k].volume
    }
}

proof fn lemma_target_phase_volumes(d: MixerSnapshot, c: MixerSnapshot, n: nat)
    requires
        target_ids_distinct(d.targets@),
        n <= d.targets@.len(),
    ensures
        ({
            let r = target_volume_commands_effect(target_volumes(c), target_phase(d, c, n));
            &&& r.len() == c.targets@.len()
            &&& forall|k: int| 0 <= k < c.targets@.len() ==> #[trigger] r[k] == (c.targets@[k].id@, volume_after(d, c, n, k))
        }),
    decreases n,
{
    if n > 0 {
        let m = (n - 1) as nat;
        lemma_target_phase_volumes(d, c, m);
        let prev = target_volume_commands_effect(target_volumes(c), target_phase(d, c, m));
        let t = d.targets@[m as int];
        let cmds = target_commands(t, c);
        lemma_volume_effect_append(target_volumes(c), target_phase(d, c, m), cmds);
        let r = target_volume_commands_effect(target_volumes(c), target_phase(d, c, n));
        assert(r == target_volume_commands_effect(prev, cmds));
        if target_present(c, t.id@) {
            let first = seq![CommandSpec::SetTargetVolume(t.id@, t.volume)];
            let rest = cmds.subrange(1, cmds.len() as int);
            assert(cmds =~= first + rest);
            assert forall|i: int| 0 <= i < rest.len() implies !(#[trigger] rest[i] is SetTargetVolume) by {
                assert(rest[i] == cmds[i + 1]);
                if i == 0 {
                    assert(cmds[1] is SetTargetMute);
                } else {
                    assert(cmds[i + 1] is SetTargetDevice);
                }
            }
            lemma_volume_effect_append(prev, first, rest);
            assert(first.drop_last() =~= Seq::<CommandSpec>::empty());
            assert(target_volume_commands_effect(prev, first.drop_last()) == prev);
            let mid = target_volume_commands_effect(prev, first);
            assert(mid == target_volume_command_effect(prev, CommandSpec::SetTargetVolume(t.id@, t.volume)));
            lemma_no_volume_commands(mid, rest);
            assert forall|k: int| 0 <= k < c.targets@.len() implies #[trigger] r[k] == (c.targets@[k].id@, volume_after(d, c, n, k)) by {
                assert(prev[k] == (c.targets@[k].id@, volume_after(d, c, m, k)));
                if c.targets@[k].id@ == t.id@ {
                    assert(d.targets@[m as int].id@ == c.targets@[k].id@);
                    let i = choose|i: int| 0 <= i < n && (#[trigger] d.targets@[i]).id@ == c.targets@[k].id@;
                    if i != m {
                        assert(d.targets@[i].id@ == d.targets@[m as int].id@);
                    }
                } else {
                    if exists|i: int| 0 <= i < n && (#[trigger] d.targets@[i]).id@ == c.targets@[k].id@ {
                        let i = choose|i: int| 0 <= i < n && (#[trigger] d.targets@[i]).id@ == c.targets@[k].id@;
                        assert(i != m);
                        assert(exists|i: int| 0 <= i < m && (#[trigger] d.targets@[i]).id@ == c.targets@[k].id@);
                        let i2 = choose|i: int| 0 <= i < m && (#[trigger] d.targets@[i]).id@ == c.targets@[k].id@;
                        if i != i2 {
                            assert(d.targets@[i].id@ == d.targets@[i2].id@);
                        }
                    } else {
                        assert(!exists|i: int| 0 <= i < m && (#[trigger] d.targets@[i]).id@ == c.targets@[k].id@);
                    }
                }
            }
        } else {
            assert(cmds.len() == 0);
            assert(target_volume_commands_effect(prev, cmds) == prev);
            assert forall|k: int| 0 <= k < c.targets@.len() implies #[trigger] r[k] == (c.targets@[k].id@, volume_after(d, c, n, k)) by {
                assert(prev[k] == (c.targets@[k].id@, volume_after(d, c, m, k)));
                assert(c.targets@[k].id@ != t.id@);
                if exists|i: int| 0 <= i < n && (#[trigger] d.targets@[i]).id@ == c.targets@[k].id@ {
                    let i = choose|i: int| 0 <= i < n && (#[trigger] d.targets@[i]).id@ == c.targets@[k].id@;
                    assert(i != m);
                    assert(exists|i: int| 0 <= i < m && (#[trigger] d.targets@[i]).id@ == c.targets@[k].id@);
                    let i2 = choose|i: int| 0 <= i < m && (#[trigger] d.targets@[i]).id@ == c.targets@[k].id@;
                    if i != i2 {
                        assert(d.targets@[i].id@ == d.targets@[i2].id@);
                    }
                } else {
                    assert(!exists|i: int| 0 <= i < m && (#[trigger] d.targets@[i]).id@ == c.targets@[k].id@);
                }
            }
        }
    } else {
        assert(target_phase(d, c, 0).len() == 0);
        assert forall|k: int| 0 <= k < c.targets@.len() implies #[trigger] target_volumes(c)[k] == (c.targets@[k].id@, volume_after(d, c, 0, k)) by {
            assert(!exists|i: int| 0 <= i < 0 && (#[trigger] d.targets@[i]).id@ == c.targets@[k].id@);
        }
    }
}

/// The settings pass of a profile whose every source has a current match,
/// applied to the targets' volumes of the mixer it was planned from, gives
/// each current target the volume of the profile target with its id (the
/// profile's target ids being distinct), and leaves the others as they were.
pub proof fn lemma_settings_pass_restores_target_volumes(d: MixerSnapshot, c: MixerSnapshot)
    requires
        first_unmatched(d, c) is None,
        target_ids_distinct(d.targets@),
    ensures
        ({
            let r = target_volume_commands_effect(target_volumes(c), settings_pass(d, c).0);
            &&& r.len() == c.targets@.len()
            &&& forall|k: int, i: int|
                0 <= k < c.targets@.len() && 0 <= i < d.targets@.len() && (#[trigger] d.targets@[i]).id@
                    == (#[trigger] c.targets@[k]).id@ ==> r[k] == (c.targets@[k].id@, d.targets@[i].volume)
            &&& forall|k: int|
                0 <= k < c.targets@.len() && (forall|i: int| 0 <= i < d.targets@.len() ==> (#[trigger] d.targets@[i]).id@
                    != c.targets@[k].id@) ==> #[trigger] r[k] == target_volumes(c)[k]
        }),
{
    let chans = channel_phase(d, c, d.channels@.len());
    let tgts = target_phase(d, c, d.targets@.len());
    let links = link_phase(d, c, c.link_outputs@.len());
    lemma_channel_phase_no_volume(d, c, d.channels@.len());
    lemma_link_phase_no_volume(d, c, c.link_outputs@.len());
    lemma_no_volume_commands(target_volumes(c), chans);
    lemma_target_phase_volumes(d, c, d.targets@.len());
    let after = target_volume_commands_effect(target_volumes(c), tgts);
    lemma_no_volume_commands(after, links);
    assert(settings_pass(d, c).0 == chans + tgts + links);
    lemma_volume_effect_append(target_volumes(c), chans, tgts);
    lemma_volume_effect_append(target_volumes(c), chans + tgts, links);
    let r = target_volume_commands_effect(target_volumes(c), settings_pass(d, c).0);
    assert(r == after);
    assert forall|k: int, i: int|
        0 <= k < c.targets@.len() && 0 <= i < d.targets@.len() && (#[trigger] d.targets@[i]).id@
            == (#[trigger] c.targets@[k]).id@ implies r[k] == (c.targets@[k].id@, d.targets@[i].volume) by {
        assert(r[k] == (c.targets@[k].id@, volume_after(d, c, d.targets@.len(), k)));
        let j = choose|j: int| 0 <= j < d.targets@.len() && (#[trigger] d.targets@[j]).id@ == c.targets@[k].id@;
        if j != i {
            assert(d.targets@[i].id@ == d.targets@[j].id@);
        }
    }
    assert forall|k: int|
        0 <= k < c.targets@.len() && (forall|i: int| 0 <= i < d.targets@.len() ==> (#[trigger] d.targets@[i]).id@
            != c.targets@[k].id@) implies #[trigger] r[k] == target_volumes(c)[k] by {
        assert(r[k] == (c.targets@[k].id@, volume_after(d, c, d.targets@.len(), k)));
    }
}

/// A source's personal and audience volumes, whether they are linked, and
/// its mute state.
pub open spec fn levels_of(ch: MixerChannel) -> (u8, u8, bool, MuteState) {
    (ch.personal_volume, ch.audience_volume, ch.volumes_linked, ch.mute_state)
}

/// The levels of the first source of a mixer with each id.
pub open spec fn channel_levels(c: MixerSnapshot) -> spec_fn(Seq<char>) -> Option<(u8, u8, bool, MuteState)> {
    |id: Seq<char>|
        match first_where(c.channels@.len(), id_pred(c, id)) {
            Some(k) => Some(levels_of(c.channels@[k])),
            None => None,
        }
}

/// What one command does to the sources' levels: a volume, link or mute
/// command changes that setting of the source with its id, if there is one.
pub open spec fn level_command_effect(
    f: spec_fn(Seq<char>) -> Option<(u8, u8, bool, MuteState)>,
    cmd: CommandSpec,
) -> spec_fn(Seq<char>) -> Option<(u8, u8, bool, MuteState)> {
    match cmd {
        CommandSpec::SetVolume(id, mix, v) => |x: Seq<char>|
            if x == id && f(x) is Some {
                let l = f(x)->0;
                Some(
                    if mix == MixBus::Personal {
                        (v, l.1, l.2, l.3)
                    } else {
                        (l.0, v, l.2, l.3)
                    },
                )
            } else {
                f(x)
            },
        CommandSpec::SetVolumeLinked(id, linked) => |x: Seq<char>|
            if x == id && f(x) is Some {
                let l = f(x)->0;
                Some((l.0, l.1, linked, l.3))
            } else {
                f(x)
            },
        CommandSpec::SetMute(id, mute) => |x: Seq<char>|
            if x == id && f(x) is Some {
                let l = f(x)->0;
                Some((l.0, l.1, l.2, mute))
            } else {
                f(x)
            },
        _ => f,
    }
}

/// What a run of commands, in order, does to the sources' levels.
pub open spec fn level_commands_effect(
    f: spec_fn(Seq<char>) -> Option<(u8, u8, bool, MuteState)>,
    cmds: Seq<CommandSpec>,
) -> spec_fn(Seq<char>) -> Option<(u8, u8, bool, MuteState)>
    decreases cmds.len(),
{
    if cmds.len() == 0 {
        f
    } else {
        level_command_effect(level_commands_effect(f, cmds.drop_last()), cmds.last())
    }
}

/// Whether a command changes a source's levels.
pub open spec fn is_level_command(cmd: CommandSpec) -> bool {
    cmd is SetVolume || cmd is SetVolumeLinked || cmd is SetMute
}

proof fn lemma_level_effect_append(
    f: spec_fn(Seq<char>) -> Option<(u8, u8, bool, MuteState)>,
    a: Seq<CommandSpec>,
    b: Seq<CommandSpec>,
)
    ensures
        level_commands_effect(f, a + b) == level_commands_effect(level_commands_effect(f, a), b),
    decreases b.len(),
{
    if b.len() == 0 {
        assert(a + b =~= a);
    } else {
        lemma_level_effect_append(f, a, b.drop_last());
        assert((a + b).drop_last() =~= a + b.drop_last());
        assert((a + b).last() == b.last());
    }
}

proof fn lemma_no_level_commands(f: spec_fn(Seq<char>) -> Option<(u8, u8, bool, MuteState)>, cmds: Seq<CommandSpec>)
    requires
        forall|i: int| 0 <= i < cmds.len() ==> !is_level_command(#[trigger] cmds[i]),
    ensures
        level_commands_effect(f, cmds) == f,
    decreases cmds.len(),
{
    if cmds.len() > 0 {
        assert(!is_level_command(cmds[cmds.len() - 1]));
        lemma_no_level_commands(f, cmds.drop_last());
    }
}

proof fn lemma_level_effect_one(f: spec_fn(Seq<char>) -> Option<(u8, u8, bool, MuteState)>, cmd: CommandSpec)
    ensures
        level_commands_effect(f, seq![cmd]) == level_command_effect(f, cmd),
{
    assert(seq![cmd].drop_last() =~= Seq::<CommandSpec>::empty());
    assert(level_commands_effect(f, seq![cmd].drop_last()) == f);
}

/// The commands for one saved source set, on its current match, the saved
/// volumes, link and mute.
proof fn lemma_channel_commands_levels(
    f: spec_fn(Seq<char>) -> Option<(u8, u8, bool, MuteState)>,
    ch: MixerChannel,
    pos: usize,
    cur: MixerChannel,
    c: MixerSnapshot,
)
    requires
        f(cur.id@) is Some,
    ensures
        forall|x: Seq<char>| #[trigger] level_commands_effect(f, channel_commands(ch, pos, cur, c))(x) == if x == cur.id@ {
            Some(levels_of(ch))
        } else {
            f(x)
        },
{
    let id = cur.id@;
    let cmds = channel_commands(ch, pos, cur, c);
    let c0 = CommandSpec::SetSourceOrder(id, pos);
    let c1 = CommandSpec::SetSourceColour(id, ch.colour@);
    let c2 = CommandSpec::SetVolume(id, MixBus::Personal, ch.personal_volume);
    let c3 = CommandSpec::SetVolume(id, MixBus::Audience, ch.audience_volume);
    let c4 = CommandSpec::SetVolumeLinked(id, ch.volumes_linked);
    let c5 = CommandSpec::SetMute(id, ch.mute_state);
    let tail = cmds.subrange(6, cmds.len() as int);
    assert(cmds =~= seq![c0] + seq![c1] + seq![c2] + seq![c3] + seq![c4] + seq![c5] + tail);
    assert forall|i: int| 0 <= i < tail.len() implies !is_level_command(#[trigger] tail[i]) by {
        assert(tail[i] == cmds[i + 6]);
    }
    lemma_level_effect_append(f, seq![c0] + seq![c1] + seq![c2] + seq![c3] + seq![c4] + seq![c5], tail);
    lemma_level_effect_append(f, seq![c0] + seq![c1] + seq![c2] + seq![c3] + seq![c4], seq![c5]);
    lemma_level_effect_append(f, seq![c0] + seq![c1] + seq![c2] + seq![c3], seq![c4]);
    lemma_level_effect_append(f, seq![c0] + seq![c1] + seq![c2], seq![c3]);
    lemma_level_effect_append(f, seq![c0] + seq![c1], seq![c2]);
    lemma_level_effect_append(f, seq![c0], seq![c1]);
    let e0 = level_commands_effect(f, seq![c0]);
    lemma_level_effect_one(f, c0);
    assert(e0 == f);
    let e1 = level_commands_effect(e0, seq![c1]);
    lemma_level_effect_one(e0, c1);
    assert(e1 == f);
    let e2 = level_commands_effect(e1, seq![c2]);
    lemma_level_effect_one(e1, c2);
    let e3 = level_commands_effect(e2, seq![c3]);
    lemma_level_effect_one(e2, c3);
    let e4 = level_commands_effect(e3, seq![c4]);
    lemma_level_effect_one(e3, c4);
    let e5 = level_commands_effect(e4, seq![c5]);
    lemma_level_effect_one(e4, c5);
    lemma_no_level_commands(e5, tail);
    assert forall|x: Seq<char>| #[trigger] level_commands_effect(f, cmds)(x) == if x == cur.id@ {
        Some(levels_of(ch))
    } else {
        f(x)
    } by {
        assert(e2(x) == level_command_effect(e1, c2)(x));
        assert(e3(x) == level_command_effect(e2, c3)(x));
        assert(e4(x) == level_command_effect(e3, c4)(x));
        assert(e5(x) == level_command_effect(e4, c5)(x));
    }
}

/// No two sources of the mixer share an id.
pub open spec fn channel_ids_distinct(c: MixerSnapshot) -> bool {
    forall|i: int, j: int|
        0 <= i < j < c.channels@.len() ==> (#[trigger] c.channels@[i]).id@ != (#[trigger] c.channels@[j]).id@
}

/// No two saved sources have the same current match.
pub open spec fn matches_distinct(d: MixerSnapshot, c: MixerSnapshot) -> bool {
    forall|q1: int, q2: int|
        0 <= q1 < q2 < d.channels@.len() ==> current_match(#[trigger] d.channels@[q1], c) != current_match(
            #[trigger] d.channels@[q2],
            c,
        )
}

/// The id of the current source that saved source `q` is matched to.
pub open spec fn matched_id(d: MixerSnapshot, c: MixerSnapshot, q: int) -> Seq<char> {
    c.channels@[current_match(d.channels@[q], c)->0].id@
}

proof fn lemma_levels_at(c: MixerSnapshot, k: int)
    requires
        channel_ids_distinct(c),
        0 <= k < c.channels@.len(),
    ensures
        channel_levels(c)(c.channels@[k].id@) == Some(levels_of(c.channels@[k])),
{
    let p = id_pred(c, c.channels@[k].id@);
    if first_where(c.channels@.len(), p) is None {
        lemma_first_where_none(c.channels@.len(), p);
        assert(p(k));
    }
    lemma_first_where_some(c.channels@.len(), p);
    let j = first_where(c.channels@.len(), p)->0;
    if j != k {
        assert(p(j));
        if j < k {
            assert(c.channels@[j].id@ != c.channels@[k].id@);
        } else {
            assert(c.channels@[k].id@ != c.channels@[j].id@);
        }
    }
}

proof fn lemma_matched_ids_distinct(d: MixerSnapshot, c: MixerSnapshot, q1: int, q2: int)
    requires
        channel_ids_distinct(c),
        matches_distinct(d, c),
        0 <= q1 < d.channels@.len(),
        0 <= q2 < d.channels@.len(),
        q1 != q2,
        current_match(d.channels@[q1], c) is Some,
        current_match(d.channels@[q2], c) is Some,
    ensures
        matched_id(d, c, q1) != matched_id(d, c, q2),
{
    let k1 = current_match(d.channels@[q1], c)->0;
    let k2 = current_match(d.channels@[q2], c)->0;
    lemma_first_where_some(c.channels@.len(), match_pred(d.channels@[q1], c));
    lemma_first_where_some(c.channels@.len(), match_pred(d.channels@[q2], c));
    if q1 < q2 {
        assert(current_match(d.channels@[q1], c) != current_match(d.channels@[q2], c));
    } else {
        assert(current_match(d.channels@[q2], c) != current_match(d.channels@[q1], c));
    }
    assert(k1 != k2);
    if k1 < k2 {
        assert(c.channels@[k1].id@ != c.channels@[k2].id@);
    } else {
        assert(c.channels@[k2].id@ != c.channels@[k1].id@);
    }
}

/// The levels that the first `n` saved sources leave: on the current match
/// of a saved source, its levels; elsewhere the mixer's.
spec fn levels_after(d: MixerSnapshot, c: MixerSnapshot, n: nat, x: Seq<char>) -> Option<(u8, u8, bool, MuteState)> {
    if exists|q: int| 0 <= q < n && #[trigger] matched_id(d, c, q) == x {
        Some(levels_of(d.channels@[choose|q: int| 0 <= q < n && #[trigger] matched_id(d, c, q) == x]))
    } else {
        channel_levels(c)(x)
    }
}

proof fn lemma_channel_phase_levels(d: MixerSnapshot, c: MixerSnapshot, n: nat)
    requires
        n <= d.channels@.len(),
        channel_ids_distinct(c),
        matches_distinct(d, c),
        forall|q: int| 0 <= q < d.channels@.len() ==> current_match(#[trigger] d.channels@[q], c) is Some,
    ensures
        forall|x: Seq<char>| #[trigger] level_commands_effect(channel_levels(c), channel_phase(d, c, n))(x)
            == levels_after(d, c, n, x),
    decreases n,
{
    if n == 0 {
        assert forall|x: Seq<char>| #[trigger] level_commands_effect(channel_levels(c), channel_phase(d, c, 0))(x)
            == levels_after(d, c, 0, x) by {
            assert(!exists|q: int| 0 <= q < 0 && #[trigger] matched_id(d, c, q) == x);
        }
    } else {
        let m = (n - 1) as nat;
        lemma_channel_phase_levels(d, c, m);
        let prev = level_commands_effect(channel_levels(c), channel_phase(d, c, m));
        let q = m as int;
        let ch = d.channels@[q];
        assert(current_match(ch, c) is Some);
        let k = current_match(ch, c)->0;
        lemma_first_where_some(c.channels@.len(), match_pred(ch, c));
        let cur = c.channels@[k];
        let cmds = channel_commands(ch, m as usize, cur, c);
        assert(channel_phase(d, c, n) == channel_phase(d, c, m) + cmds);
        lemma_level_effect_append(channel_levels(c), channel_phase(d, c, m), cmds);
        assert(matched_id(d, c, q) == cur.id@);
        assert(prev(cur.id@) is Some) by {
            if !exists|q2: int| 0 <= q2 < m && #[trigger] matched_id(d, c, q2) == cur.id@ {
                lemma_levels_at(c, k);
            }
        }
        lemma_channel_commands_levels(prev, ch, m as usize, cur, c);
        let after = level_commands_effect(channel_levels(c), channel_phase(d, c, n));
        assert forall|x: Seq<char>| #[trigger] after(x) == levels_after(d, c, n, x) by {
            assert(after(x) == level_commands_effect(prev, cmds)(x));
            assert(prev(x) == levels_after(d, c, m, x));
            if x == cur.id@ {
                assert(exists|q2: int| 0 <= q2 < n && #[trigger] matched_id(d, c, q2) == x);
                let w = choose|q2: int| 0 <= q2 < n && #[trigger] matched_id(d, c, q2) == x;
                if w != q {
                    lemma_matched_ids_distinct(d, c, w, q);
                }
            } else {
                if exists|q2: int| 0 <= q2 < n && #[trigger] matched_id(d, c, q2) == x {
                    let w = choose|q2: int| 0 <= q2 < n && #[trigger] matched_id(d, c, q2) == x;
                    assert(w != q);
                    assert(exists|q2: int| 0 <= q2 < m && #[trigger] matched_id(d, c, q2) == x);
                    let w2 = choose|q2: int| 0 <= q2 < m && #[trigger] matched_id(d, c, q2) == x;
                    if w != w2 {
                        lemma_matched_ids_distinct(d, c, w, w2);
                    }
                } else {
                    assert(!exists|q2: int| 0 <= q2 < m && #[trigger] matched_id(d, c, q2) == x);
                }
            }
        }
    }
}

proof fn lemma_target_phase_no_levels(d: MixerSnapshot, c: MixerSnapshot, n: nat)
    requires
        n <= d.targets@.len(),
    ensures
        forall|i: int| 0 <= i < target_phase(d, c, n).len() ==> !is_level_command(#[trigger] target_phase(d, c, n)[i]),
    decreases n,
{
    if n > 0 {
        lemma_target_phase_no_levels(d, c, (n - 1) as nat);
        let a = target_phase(d, c, (n - 1) as nat);
        let b = target_commands(d.targets@[n - 1], c);
        assert(target_phase(d, c, n) == a + b);
        assert forall|i: int| 0 <= i < target_phase(d, c, n).len() implies !is_level_command(#[trigger] target_phase(d, c, n)[i]) by {
            if i < a.len() {
                assert(target_phase(d, c, n)[i] == a[i]);
            } else {
                let j = i - a.len();
                assert(target_phase(d, c, n)[i] == b[j]);
                if j == 0 {
                    assert(b[0] is SetTargetVolume);
                } else if j == 1 {
                    assert(b[1] is SetTargetMute);
                } else {
                    assert(b[j] is SetTargetDevice);
                }
            }
        }
    }
}

proof fn lemma_link_phase_no_levels(d: MixerSnapshot, c: MixerSnapshot, n: nat)
    requires
        n <= c.link_outputs@.len(),
    ensures
        forall|i: int| 0 <= i < link_phase(d, c, n).len() ==> !is_level_command(#[trigger] link_phase(d, c, n)[i]),
    decreases n,
{
    if n > 0 {
        lemma_link_phase_no_levels(d, c, (n - 1) as nat);
        let a = link_phase(d, c, (n - 1) as nat);
        assert forall|i: int| 0 <= i < link_phase(d, c, n).len() implies !is_level_command(#[trigger] link_phase(d, c, n)[i]) by {
            if i < a.len() {
                assert(link_phase(d, c, n)[i] == a[i]);
            }
        }
    }
}

/// The settings pass of a profile whose every source has a current match,
/// no two the same, applied to the levels of the mixer it was planned from
/// (whose sources have distinct ids), gives each matched current source the
/// saved source's volumes, link and mute, and leaves every other source's
/// levels as they were.
pub proof fn lemma_settings_pass_restores_channel_levels(d: MixerSnapshot, c: MixerSnapshot)
    requires
        first_unmatched(d, c) is None,
        channel_ids_distinct(c),
        matches_distinct(d, c),
    ensures
        forall|q: int|
            0 <= q < d.channels@.len() ==> level_commands_effect(channel_levels(c), settings_pass(d, c).0)(
                #[trigger] matched_id(d, c, q),
            ) == Some(levels_of(d.channels@[q])),
        forall|x: Seq<char>|
            (forall|q: int| 0 <= q < d.channels@.len() ==> #[trigger] matched_id(d, c, q) != x) ==> #[trigger] level_commands_effect(
                channel_levels(c),
                settings_pass(d, c).0,
            )(x) == channel_levels(c)(x),
{
    lemma_first_where_none(d.channels@.len(), unmatched_pred(d, c));
    assert forall|q: int| 0 <= q < d.channels@.len() implies current_match(#[trigger] d.channels@[q], c) is Some by {
        assert(!unmatched_pred(d, c)(q));
    }
    let chans = channel_phase(d, c, d.channels@.len());
    let tgts = target_phase(d, c, d.targets@.len());
    let links = link_phase(d, c, c.link_outputs@.len());
    lemma_channel_phase_levels(d, c, d.channels@.len());
    let after = level_commands_effect(channel_levels(c), chans);
    lemma_target_phase_no_levels(d, c, d.targets@.len());
    lemma_link_phase_no_levels(d, c, c.link_outputs@.len());
    let rest = tgts + links;
    assert forall|i: int| 0 <= i < rest.len() implies !is_level_command(#[trigger] rest[i]) by {
        if i < tgts.len() {
            assert(rest[i] == tgts[i]);
        } else {
            assert(rest[i] == links[i - tgts.len()]);
        }
    }
    lemma_no_level_commands(after, rest);
    assert(settings_pass(d, c).0 =~= chans + rest);
    lemma_level_effect_append(channel_levels(c), chans, rest);
    let r = level_commands_effect(channel_levels(c), settings_pass(d, c).0);
    assert(r == after);
    assert forall|q: int| 0 <= q < d.channels@.len() implies r(#[trigger] matched_id(d, c, q)) == Some(
        levels_of(d.channels@[q]),
    ) by {
        let x = matched_id(d, c, q);
        assert(r(x) == levels_after(d, c, d.channels@.len(), x));
        let w = choose|q2: int| 0 <= q2 < d.channels@.len() && #[trigger] matched_id(d, c, q2) == x;
        if w != q {
            lemma_matched_ids_distinct(d, c, w, q);
        }
    }
    assert forall|x: Seq<char>|
        (forall|q: int| 0 <= q < d.channels@.len() ==> #[trigger] matched_id(d, c, q) != x) implies #[trigger] r(x)
            == channel_levels(c)(x) by {
        assert(r(x) == levels_after(d, c, d.channels@.len(), x));
    }
}

proof fn lemma_levels_absent(c: MixerSnapshot, x: Seq<char>)
    requires
        forall|j: int| 0 <= j < c.channels@.len() ==> (#[trigger] c.channels@[j]).id@ != x,
    ensures
        channel_levels(c)(x) is None,
{
    let p = id_pred(c, x);
    if first_where(c.channels@.len(), p) is Some {
        lemma_first_where_some(c.channels@.len(), p);
        let j = first_where(c.channels@.len(), p)->0;
        assert(c.channels@[j].id@ == x);
    }
}

/// Moving one source of a mixer whose source ids are distinct to another
/// position keeps them distinct and leaves the levels under every id as
/// they were.
pub(crate) proof fn lemma_reorder_keeps_levels(o: MixerSnapshot, f: MixerSnapshot, k: int, p: int)
    requires
        channel_ids_distinct(o),
        0 <= k < o.channels@.len(),
        0 <= p < o.channels@.len(),
        f.channels@ == o.channels@.remove(k).insert(p, o.channels@[k]),
    ensures
        channel_ids_distinct(f),
        forall|x: Seq<char>| #[trigger] channel_levels(f)(x) == channel_levels(o)(x),
{
    let a = o.channels@;
    let b = f.channels@;
    let n = a.len();
    let r = a.remove(k);
    assert(b.len() == n);
    // Where each moved position came from, and where each original went.
    let back = |i: int|
        if i < p {
            if i < k { i } else { i + 1 }
        } else if i == p {
            k
        } else {
            if i - 1 < k { i - 1 } else { i }
        };
    let fwd = |j: int|
        if j == k {
            p
        } else {
            let t = if j < k { j } else { j - 1 };
            if t < p { t } else { t + 1 }
        };
    assert forall|i: int| 0 <= i < n implies 0 <= #[trigger] back(i) < n && b[i] == a[back(i)] by {
        if i < p {
            assert(b[i] == r[i]);
        } else if i > p {
            assert(b[i] == r[i - 1]);
        }
    }
    assert forall|j: int| 0 <= j < n implies 0 <= #[trigger] fwd(j) < n && b[fwd(j)] == a[j] by {
        if j != k {
            let t = if j < k { j } else { j - 1 };
            assert(r[t] == a[j]);
            if t < p {
                assert(b[t] == r[t]);
            } else {
                assert(b[t + 1] == r[t]);
            }
        }
    }
    assert forall|i: int, j: int| 0 <= i < j < b.len() implies (#[trigger] b[i]).id@ != (#[trigger] b[j]).id@ by {
        let bi = back(i);
        let bj = back(j);
        assert(b[i] == a[bi] && b[j] == a[bj]);
        assert(bi != bj);
        if bi < bj {
            assert(a[bi].id@ != a[bj].id@);
        } else {
            assert(a[bj].id@ != a[bi].id@);
        }
    }
    assert forall|x: Seq<char>| #[trigger] channel_levels(f)(x) == channel_levels(o)(x) by {
        if exists|i: int| 0 <= i < n && (#[trigger] b[i]).id@ == x {
            let i = choose|i: int| 0 <= i < n && (#[trigger] b[i]).id@ == x;
            lemma_levels_at(f, i);
            lemma_levels_at(o, back(i));
        } else {
            assert forall|j: int| 0 <= j < n implies (#[trigger] a[j]).id@ != x by {
                assert(b[fwd(j)] == a[j]);
            }
            lemma_levels_absent(f, x);
            lemma_levels_absent(o, x);
        }
    }
}

/// The ids of a mixer's sources, in order.
pub open spec fn channel_order(c: MixerSnapshot) -> Seq<Seq<char>> {
    c.channels@.map_values(|ch: MixerChannel| ch.id@)
}

/// The positions that hold `id`.
pub open spec fn id_at(ids: Seq<Seq<char>>, id: Seq<char>) -> spec_fn(int) -> bool {
    |k: int| ids[k] == id
}

/// What one command does to the order of the sources: a position command
/// moves the first source with its id to that position, or to the end.
pub open spec fn order_command_effect(ids: Seq<Seq<char>>, cmd: CommandSpec) -> Seq<Seq<char>> {
    match cmd {
        CommandSpec::SetSourceOrder(id, pos) => match first_where(ids.len(), id_at(ids, id)) {
            Some(k) => ids.remove(k).insert(if pos < ids.len() - 1 { pos as int } else { ids.len() - 1 }, id),
            None => ids,
        },
        _ => ids,
    }
}

/// What a run of commands, in order, does to the order of the sources.
pub open spec fn order_commands_effect(ids: Seq<Seq<char>>, cmds: Seq<CommandSpec>) -> Seq<Seq<char>>
    decreases cmds.len(),
{
    if cmds.len() == 0 {
        ids
    } else {
        order_command_effect(order_commands_effect(ids, cmds.drop_last()), cmds.last())
    }
}

proof fn lemma_order_effect_append(ids: Seq<Seq<char>>, a: Seq<CommandSpec>, b: Seq<CommandSpec>)
    ensures
        order_commands_effect(ids, a + b) == order_commands_effect(order_commands_effect(ids, a), b),
    decreases b.len(),
{
    if b.len() == 0 {
        assert(a + b =~= a);
    } else {
        lemma_order_effect_append(ids, a, b.drop_last());
        assert((a + b).drop_last() =~= a + b.drop_last());
        assert((a + b).last() == b.last());
    }
}

proof fn lemma_no_order_commands(ids: Seq<Seq<char>>, cmds: Seq<CommandSpec>)
    requires
        forall|i: int| 0 <= i < cmds.len() ==> !(#[trigger] cmds[i] is SetSourceOrder),
    ensures
        order_commands_effect(ids, cmds) == ids,
    decreases cmds.len(),
{
    if cmds.len() > 0 {
        assert(!(cmds[cmds.len() - 1] is SetSourceOrder));
        lemma_no_order_commands(ids, cmds.drop_last());
    }
}

/// The order after the first `n` saved sources have been placed: their
/// current matches first, in saved order, and the ids still those of the
/// mixer, each once.
spec fn order_placed(d: MixerSnapshot, c: MixerSnapshot, ids: Seq<Seq<char>>, n: nat) -> bool {
    &&& ids.len() == c.channels@.len()
    &&& forall|i: int, j: int| 0 <= i < j < ids.len() ==> #[trigger] ids[i] != #[trigger] ids[j]
    &&& ids.to_set() == channel_order(c).to_set()
    &&& forall|q: int| 0 <= q < n ==> #[trigger] ids[q] == matched_id(d, c, q)
}

proof fn lemma_first_where_index_of(ids: Seq<Seq<char>>, id: Seq<char>, k: int)
    requires
        0 <= k < ids.len(),
        ids[k] == id,
        forall|i: int, j: int| 0 <= i < j < ids.len() ==> #[trigger] ids[i] != #[trigger] ids[j],
    ensures
        first_where(ids.len(), id_at(ids, id)) == Some(k),
{
    let p = id_at(ids, id);
    if first_where(ids.len(), p) is None {
        lemma_first_where_none(ids.len(), p);
        assert(p(k));
    }
    lemma_first_where_some(ids.len(), p);
    let j = first_where(ids.len(), p)->0;
    if j < k {
        assert(ids[j] != ids[k]);
    } else if j > k {
        assert(!p(k));
    }
}

/// Where element `i` of a sequence whose element `k` moved to position `m`
/// (`m <= k`) came from.
spec fn moved_from(i: int, k: int, m: int) -> int {
    if i < m {
        i
    } else if i == m {
        k
    } else if i <= k {
        i - 1
    } else {
        i
    }
}

/// Where element `j` went.
spec fn moved_to(j: int, k: int, m: int) -> int {
    if j == k {
        m
    } else if m <= j && j < k {
        j + 1
    } else {
        j
    }
}

proof fn lemma_move_index(ids: Seq<Seq<char>>, k: int, m: int)
    requires
        0 <= m <= k < ids.len(),
    ensures
        ids.remove(k).insert(m, ids[k]).len() == ids.len(),
        forall|i: int| 0 <= i < ids.len() ==> 0 <= #[trigger] moved_from(i, k, m) < ids.len()
            && ids.remove(k).insert(m, ids[k])[i] == ids[moved_from(i, k, m)],
        forall|j: int| 0 <= j < ids.len() ==> 0 <= #[trigger] moved_to(j, k, m) < ids.len()
            && moved_from(moved_to(j, k, m), k, m) == j,
{
    let r = ids.remove(k);
    let moved = r.insert(m, ids[k]);
    assert forall|i: int| 0 <= i < ids.len() implies 0 <= #[trigger] moved_from(i, k, m) < ids.len()
        && moved[i] == ids[moved_from(i, k, m)] by {
        if i < m {
            assert(moved[i] == r[i]);
        } else if i > m {
            assert(moved[i] == r[i - 1]);
        }
    }
}

/// Moving the element at `k` to an earlier-or-equal position `m` of a
/// sequence without repeats keeps the elements before `m`, puts it at `m`,
/// keeps every element, and repeats none.
proof fn lemma_move_into_place(ids: Seq<Seq<char>>, k: int, m: int)
    requires
        0 <= m <= k < ids.len(),
        forall|i: int, j: int| 0 <= i < j < ids.len() ==> #[trigger] ids[i] != #[trigger] ids[j],
    ensures
        ({
            let moved = ids.remove(k).insert(m, ids[k]);
            &&& moved.len() == ids.len()
            &&& forall|i: int| 0 <= i < m ==> #[trigger] moved[i] == ids[i]
            &&& moved[m] == ids[k]
            &&& forall|i: int, j: int| 0 <= i < j < moved.len() ==> #[trigger] moved[i] != #[trigger] moved[j]
            &&& forall|i: int| 0 <= i < ids.len() ==> #[trigger] moved[i] == ids[moved_from(i, k, m)]
            &&& forall|j: int| 0 <= j < ids.len() ==> moved[moved_to(j, k, m)] == #[trigger] ids[j]
        }),
{
    let moved = ids.remove(k).insert(m, ids[k]);
    lemma_move_index(ids, k, m);
    assert forall|i: int| 0 <= i < m implies #[trigger] moved[i] == ids[i] by {
        assert(moved_from(i, k, m) == i);
    }
    assert forall|j: int| 0 <= j < ids.len() implies moved[moved_to(j, k, m)] == #[trigger] ids[j] by {
        assert(0 <= moved_to(j, k, m) < ids.len());
    }
    assert forall|i: int, j: int| 0 <= i < j < moved.len() implies #[trigger] moved[i] != #[trigger] moved[j] by {
        let bi = moved_from(i, k, m);
        let bj = moved_from(j, k, m);
        assert(moved[i] == ids[bi]);
        assert(moved[j] == ids[bj]);
        assert(bi != bj);
        if bi < bj {
            assert(ids[bi] != ids[bj]);
        } else {
            assert(ids[bj] != ids[bi]);
        }
    }
}

/// The order command for saved source `q` moves its match to position `q`.
#[verifier::rlimit(50)]
proof fn lemma_place_one(d: MixerSnapshot, c: MixerSnapshot, prev: Seq<Seq<char>>, q: int)
    requires
        0 <= q < d.channels@.len(),
        channel_ids_distinct(c),
        matches_distinct(d, c),
        forall|w: int| 0 <= w < d.channels@.len() ==> current_match(#[trigger] d.channels@[w], c) is Some,
        order_placed(d, c, prev, q as nat),
    ensures
        order_placed(
            d,
            c,
            order_command_effect(prev, CommandSpec::SetSourceOrder(matched_id(d, c, q), q as usize)),
            (q + 1) as nat,
        ),
{
    let ch = d.channels@[q];
    let kc = current_match(ch, c)->0;
    lemma_first_where_some(c.channels@.len(), match_pred(ch, c));
    let id = matched_id(d, c, q);
    assert(id == c.channels@[kc].id@);
    assert(channel_order(c)[kc] == id);
    assert(channel_order(c).to_set().contains(id));
    assert(prev.to_set().contains(id));
    assert(prev.contains(id));
    let k = choose|i: int| 0 <= i < prev.len() && prev[i] == id;
    assert(k >= q) by {
        if k < q {
            assert(prev[k] == matched_id(d, c, k));
            lemma_matched_ids_distinct(d, c, k, q);
        }
    }
    lemma_first_where_index_of(prev, id, k);
    assert(d.channels.len() == d.channels@.len());
    assert((q as usize) as int == q);
    let moved = order_command_effect(prev, CommandSpec::SetSourceOrder(id, q as usize));
    assert(moved == prev.remove(k).insert(q, id));
    lemma_move_into_place(prev, k, q);
    assert(moved.to_set() =~= prev.to_set()) by {
        assert forall|x: Seq<char>| moved.contains(x) implies prev.contains(x) by {
            let i = choose|i: int| 0 <= i < moved.len() && moved[i] == x;
            assert(prev[moved_from(i, k, q)] == x);
        }
        assert forall|x: Seq<char>| prev.contains(x) implies moved.contains(x) by {
            let w = choose|w: int| 0 <= w < prev.len() && prev[w] == x;
            assert(moved[moved_to(w, k, q)] == x);
        }
    }
    assert forall|i: int| 0 <= i < q + 1 implies #[trigger] moved[i] == matched_id(d, c, i) by {
        if i < q {
            assert(moved[i] == prev[i]);
        }
    }
}

#[verifier::rlimit(50)]
proof fn lemma_channel_phase_order(d: MixerSnapshot, c: MixerSnapshot, n: nat)
    requires
        n <= d.channels@.len(),
        channel_ids_distinct(c),
        matches_distinct(d, c),
        forall|q: int| 0 <= q < d.channels@.len() ==> current_match(#[trigger] d.channels@[q], c) is Some,
    ensures
        order_placed(d, c, order_commands_effect(channel_order(c), channel_phase(d, c, n)), n),
    decreases n,
{
    if n == 0 {
        let ids = channel_order(c);
        assert(order_commands_effect(ids, channel_phase(d, c, 0)) == ids);
        assert forall|i: int, j: int| 0 <= i < j < ids.len() implies #[trigger] ids[i] != #[trigger] ids[j] by {
            assert(ids[i] == c.channels@[i].id@ && ids[j] == c.channels@[j].id@);
        }
    } else {
        let m = (n - 1) as nat;
        let q = m as int;
        lemma_channel_phase_order(d, c, m);
        let prev = order_commands_effect(channel_order(c), channel_phase(d, c, m));
        let ch = d.channels@[q];
        let kc = current_match(ch, c)->0;
        let cur = c.channels@[kc];
        let id = cur.id@;
        let cmds = channel_commands(ch, m as usize, cur, c);
        assert(channel_phase(d, c, n) == channel_phase(d, c, m) + cmds);
        lemma_order_effect_append(channel_order(c), channel_phase(d, c, m), cmds);
        let first = seq![CommandSpec::SetSourceOrder(id, m as usize)];
        let tail = cmds.subrange(1, cmds.len() as int);
        assert(cmds =~= first + tail);
        assert forall|i: int| 0 <= i < tail.len() implies !(#[trigger] tail[i] is SetSourceOrder) by {
            assert(tail[i] == cmds[i + 1]);
        }
        lemma_order_effect_append(prev, first, tail);
        assert(first.drop_last() =~= Seq::<CommandSpec>::empty());
        assert(order_commands_effect(prev, first.drop_last()) == prev);
        let moved = order_command_effect(prev, CommandSpec::SetSourceOrder(id, m as usize));
        assert(order_commands_effect(prev, first) == moved);
        lemma_no_order_commands(moved, tail);
        lemma_place_one(d, c, prev, q);
    }
}

proof fn lemma_target_link_no_order(d: MixerSnapshot, c: MixerSnapshot, n: nat, l: nat)
    requires
        n <= d.targets@.len(),
        l <= c.link_outputs@.len(),
    ensures
        forall|i: int| 0 <= i < target_phase(d, c, n).len() ==> !(#[trigger] target_phase(d, c, n)[i] is SetSourceOrder),
        forall|i: int| 0 <= i < link_phase(d, c, l).len() ==> !(#[trigger] link_phase(d, c, l)[i] is SetSourceOrder),
    decreases n + l,
{
    if n > 0 {
        lemma_target_link_no_order(d, c, (n - 1) as nat, l);
        let a = target_phase(d, c, (n - 1) as nat);
        let b = target_commands(d.targets@[n - 1], c);
        assert(target_phase(d, c, n) == a + b);
        assert forall|i: int| 0 <= i < target_phase(d, c, n).len() implies !(#[trigger] target_phase(d, c, n)[i] is SetSourceOrder) by {
            if i < a.len() {
                assert(target_phase(d, c, n)[i] == a[i]);
            } else {
                let j = i - a.len();
                assert(target_phase(d, c, n)[i] == b[j]);
                if j == 0 {
                    assert(b[0] is SetTargetVolume);
                } else if j == 1 {
                    assert(b[1] is SetTargetMute);
                } else {
                    assert(b[j] is SetTargetDevice);
                }
            }
        }
    }
    if l > 0 {
        lemma_target_link_no_order(d, c, n, (l - 1) as nat);
        let a = link_phase(d, c, (l - 1) as nat);
        assert forall|i: int| 0 <= i < link_phase(d, c, l).len() implies !(#[trigger] link_phase(d, c, l)[i] is SetSourceOrder) by {
            if i < a.len() {
                assert(link_phase(d, c, l)[i] == a[i]);
            }
        }
    }
}

/// The settings pass of a profile whose every source has a current match,
/// no two the same, applied to the order of the mixer it was planned from
/// (whose source ids are distinct), puts the saved sources' matches first,
/// in saved order, and keeps every source exactly once.
pub proof fn lemma_settings_pass_restores_source_order(d: MixerSnapshot, c: MixerSnapshot)
    requires
        first_unmatched(d, c) is None,
        channel_ids_distinct(c),
        matches_distinct(d, c),
    ensures
        ({
            let r = order_commands_effect(channel_order(c), settings_pass(d, c).0);
            &&& r.len() == c.channels@.len()
            &&& forall|q: int| 0 <= q < d.channels@.len() ==> #[trigger] r[q] == matched_id(d, c, q)
            &&& r.to_set() == channel_order(c).to_set()
            &&& forall|i: int, j: int| 0 <= i < j < r.len() ==> #[trigger] r[i] != #[trigger] r[j]
        }),
{
    lemma_first_where_none(d.channels@.len(), unmatched_pred(d, c));
    assert forall|q: int| 0 <= q < d.channels@.len() implies current_match(#[trigger] d.channels@[q], c) is Some by {
        assert(!unmatched_pred(d, c)(q));
    }
    let chans = channel_phase(d, c, d.channels@.len());
    let tgts = target_phase(d, c, d.targets@.len());
    let links = link_phase(d, c, c.link_outputs@.len());
    lemma_channel_phase_order(d, c, d.channels@.len());
    let after = order_commands_effect(channel_order(c), chans);
    lemma_target_link_no_order(d, c, d.targets@.len(), c.link_outputs@.len());
    let rest = tgts + links;
    assert forall|i: int| 0 <= i < rest.len() implies !(#[trigger] rest[i] is SetSourceOrder) by {
        if i < tgts.len() {
            assert(rest[i] == tgts[i]);
        } else {
            assert(rest[i] == links[i - tgts.len()]);
        }
    }
    lemma_no_order_commands(after, rest);
    assert(settings_pass(d, c).0 =~= chans + rest);
    lemma_order_effect_append(channel_order(c), chans, rest);
}

/// The ids of a mixer's sources.
pub open spec fn source_ids(c: MixerSnapshot) -> Set<Seq<char>> {
    Set::new(|x: Seq<char>| exists|k: int| 0 <= k < c.channels@.len() && (#[trigger] c.channels@[k]).id@ == x)
}

/// What one command does to the set of source ids: a removal takes its id
/// out, a creation adds the id that `new_id` gives the name, and every other
/// command leaves the ids alone.
pub open spec fn source_command_effect(
    ids: Set<Seq<char>>,
    new_id: spec_fn(Seq<char>) -> Seq<char>,
    cmd: CommandSpec,
) -> Set<Seq<char>> {
    match cmd {
        CommandSpec::RemoveSource(id) => ids.remove(id),
        CommandSpec::CreateSource(name) => ids.insert(new_id(name)),
        _ => ids,
    }
}

/// What a run of commands, in order, does to the set of source ids.
pub open spec fn source_commands_effect(
    ids: Set<Seq<char>>,
    new_id: spec_fn(Seq<char>) -> Seq<char>,
    cmds: Seq<CommandSpec>,
) -> Set<Seq<char>>
    decreases cmds.len(),
{
    if cmds.len() == 0 {
        ids
    } else {
        source_command_effect(source_commands_effect(ids, new_id, cmds.drop_last()), new_id, cmds.last())
    }
}

proof fn lemma_source_effect_append(
    ids: Set<Seq<char>>,
    new_id: spec_fn(Seq<char>) -> Seq<char>,
    a: Seq<CommandSpec>,
    b: Seq<CommandSpec>,
)
    ensures
        source_commands_effect(ids, new_id, a + b) == source_commands_effect(
            source_commands_effect(ids, new_id, a),
            new_id,
            b,
        ),
    decreases b.len(),
{
    if b.len() == 0 {
        assert(a + b =~= a);
    } else {
        lemma_source_effect_append(ids, new_id, a, b.drop_last());
        assert((a + b).drop_last() =~= a + b.drop_last());
        assert((a + b).last() == b.last());
    }
}

/// The ids of the current sources that the source pass removes.
pub open spec fn removed_ids(d: MixerSnapshot, c: MixerSnapshot, n: nat) -> Set<Seq<char>> {
    Set::new(
        |x: Seq<char>|
            exists|k: int| 0 <= k < n && (#[trigger] c.channels@[k]).id@ == x && removable(d)(c.channels@[k]),
    )
}

/// The ids the source pass creates, under `new_id`.
pub open spec fn created_ids(d: MixerSnapshot, c: MixerSnapshot, new_id: spec_fn(Seq<char>) -> Seq<char>, n: nat) -> Set<Seq<char>> {
    Set::new(
        |x: Seq<char>|
            exists|q: int| 0 <= q < n && missing_virtual(c)(#[trigger] d.channels@[q]) && x == new_id(d.channels@[q].name@),
    )
}

proof fn lemma_removals_ids(d: MixerSnapshot, c: MixerSnapshot, new_id: spec_fn(Seq<char>) -> Seq<char>, n: nat)
    requires
        n <= c.channels@.len(),
    ensures
        source_commands_effect(source_ids(c), new_id, removal_commands(d, c, n)) == source_ids(c).difference(
            removed_ids(d, c, n),
        ),
    decreases n,
{
    if n == 0 {
        assert(source_ids(c).difference(removed_ids(d, c, 0)) =~= source_ids(c));
    } else {
        let m = (n - 1) as nat;
        lemma_removals_ids(d, c, new_id, m);
        let ch = c.channels@[m as int];
        let step = if ch.source_kind == MixerSourceKind::Virtual && no_match_desired(d.channels@, ch) {
            seq![CommandSpec::RemoveSource(ch.id@)]
        } else {
            Seq::<CommandSpec>::empty()
        };
        assert(removal_commands(d, c, n) == removal_commands(d, c, m) + step);
        lemma_source_effect_append(source_ids(c), new_id, removal_commands(d, c, m), step);
        let prev = source_ids(c).difference(removed_ids(d, c, m));
        if step.len() > 0 {
            assert(step.drop_last() =~= Seq::<CommandSpec>::empty());
            assert(source_commands_effect(prev, new_id, step.drop_last()) == prev);
            assert(removable(d)(ch));
            assert(source_ids(c).difference(removed_ids(d, c, n)) =~= prev.remove(ch.id@)) by {
                assert forall|x: Seq<char>| removed_ids(d, c, n).contains(x) == (removed_ids(d, c, m).contains(x) || x == ch.id@) by {
                    if x == ch.id@ {
                        assert(c.channels@[m as int].id@ == x);
                    }
                    if removed_ids(d, c, n).contains(x) && x != ch.id@ {
                        let k = choose|k: int| 0 <= k < n && (#[trigger] c.channels@[k]).id@ == x && removable(d)(c.channels@[k]);
                        assert(k < m);
                    }
                }
            }
        } else {
            assert(!removable(d)(ch));
            assert(source_ids(c).difference(removed_ids(d, c, n)) =~= prev) by {
                assert forall|x: Seq<char>| removed_ids(d, c, n).contains(x) == removed_ids(d, c, m).contains(x) by {
                    if removed_ids(d, c, n).contains(x) {
                        let k = choose|k: int| 0 <= k < n && (#[trigger] c.channels@[k]).id@ == x && removable(d)(c.channels@[k]);
                        assert(k != m);
                    }
                }
            }
        }
    }
}

proof fn lemma_renames_keep_ids(d: MixerSnapshot, c: MixerSnapshot, ids: Set<Seq<char>>, new_id: spec_fn(Seq<char>) -> Seq<char>, n: nat)
    requires
        n <= d.channels@.len(),
    ensures
        source_commands_effect(ids, new_id, rename_commands(d, c, n)) == ids,
    decreases n,
{
    if n > 0 {
        let m = (n - 1) as nat;
        lemma_renames_keep_ids(d, c, ids, new_id, m);
        let ch = d.channels@[m as int];
        let step = match current_match(ch, c) {
            Some(k) => if c.channels@[k].name@ != ch.name@ {
                seq![CommandSpec::SetSourceName(c.channels@[k].id@, ch.name@)]
            } else {
                Seq::empty()
            },
            None => Seq::empty(),
        };
        assert(rename_commands(d, c, n) == rename_commands(d, c, m) + step);
        lemma_source_effect_append(ids, new_id, rename_commands(d, c, m), step);
        if step.len() > 0 {
            assert(step.drop_last() =~= Seq::<CommandSpec>::empty());
            assert(source_commands_effect(ids, new_id, step.drop_last()) == ids);
        }
    }
}

proof fn lemma_creations_ids(d: MixerSnapshot, c: MixerSnapshot, ids: Set<Seq<char>>, new_id: spec_fn(Seq<char>) -> Seq<char>, n: nat)
    requires
        n <= d.channels@.len(),
    ensures
        source_commands_effect(ids, new_id, create_commands(d, c, n)) == ids.union(created_ids(d, c, new_id, n)),
    decreases n,
{
    if n == 0 {
        assert(ids.union(created_ids(d, c, new_id, 0)) =~= ids);
    } else {
        let m = (n - 1) as nat;
        lemma_creations_ids(d, c, ids, new_id, m);
        let ch = d.channels@[m as int];
        let step = if ch.source_kind == MixerSourceKind::Virtual && current_match(ch, c) is None {
            seq![CommandSpec::CreateSource(ch.name@)]
        } else {
            Seq::<CommandSpec>::empty()
        };
        assert(create_commands(d, c, n) == create_commands(d, c, m) + step);
        lemma_source_effect_append(ids, new_id, create_commands(d, c, m), step);
        let prev = ids.union(created_ids(d, c, new_id, m));
        if step.len() > 0 {
            assert(step.drop_last() =~= Seq::<CommandSpec>::empty());
            assert(source_commands_effect(prev, new_id, step.drop_last()) == prev);
            assert(missing_virtual(c)(ch));
            assert(ids.union(created_ids(d, c, new_id, n)) =~= prev.insert(new_id(ch.name@))) by {
                assert forall|x: Seq<char>| created_ids(d, c, new_id, n).contains(x) == (created_ids(d, c, new_id, m).contains(x)
                    || x == new_id(ch.name@)) by {
                    if x == new_id(ch.name@) {
                        assert(missing_virtual(c)(d.channels@[m as int]));
                    }
                    if created_ids(d, c, new_id, n).contains(x) && x != new_id(ch.name@) {
                        let q = choose|q: int| 0 <= q < n && missing_virtual(c)(#[trigger] d.channels@[q]) && x == new_id(d.channels@[q].name@);
                        assert(q < m);
                    }
                }
            }
        } else {
            assert(!missing_virtual(c)(ch));
            assert(ids.union(created_ids(d, c, new_id, n)) =~= prev) by {
                assert forall|x: Seq<char>| created_ids(d, c, new_id, n).contains(x) == created_ids(d, c, new_id, m).contains(x) by {
                    if created_ids(d, c, new_id, n).contains(x) {
                        let q = choose|q: int| 0 <= q < n && missing_virtual(c)(#[trigger] d.channels@[q]) && x == new_id(d.channels@[q].name@);
                        assert(q != m);
                    }
                }
            }
        }
    }
}

/// The source pass, applied to the sources of the mixer it was planned
/// from, leaves exactly its sources that the profile keeps (physical ones,
/// and virtual ones some saved source matches) together with one new source
/// per saved virtual source that the mixer lacks, under the id `new_id`
/// gives its name; renames change no id.
pub proof fn lemma_source_pass_sources(d: MixerSnapshot, c: MixerSnapshot, new_id: spec_fn(Seq<char>) -> Seq<char>)
    ensures
        source_commands_effect(source_ids(c), new_id, source_pass(d, c)) == source_ids(c).difference(
            removed_ids(d, c, c.channels@.len()),
        ).union(created_ids(d, c, new_id, d.channels@.len())),
{
    let rem = removal_commands(d, c, c.channels@.len());
    let ren = rename_commands(d, c, d.channels@.len());
    let cre = create_commands(d, c, d.channels@.len());
    lemma_removals_ids(d, c, new_id, c.channels@.len());
    let after = source_ids(c).difference(removed_ids(d, c, c.channels@.len()));
    lemma_renames_keep_ids(d, c, after, new_id, d.channels@.len());
    lemma_creations_ids(d, c, after, new_id, d.channels@.len());
    lemma_source_effect_append(source_ids(c), new_id, rem, ren);
    lemma_source_effect_append(source_ids(c), new_id, rem + ren, cre);
}

/// The colour of the first source of a mixer with each id.
pub open spec fn channel_colours(c: MixerSnapshot) -> spec_fn(Seq<char>) -> Option<Seq<char>> {
    |id: Seq<char>|
        match first_where(c.channels@.len(), id_pred(c, id)) {
            Some(k) => Some(c.channels@[k].colour@),
            None => None,
        }
}

/// What one command does to the sources' colours: a colour command sets the
/// colour of the source with its id, if there is one.
pub open spec fn colour_command_effect(f: spec_fn(Seq<char>) -> Option<Seq<char>>, cmd: CommandSpec) -> spec_fn(
    Seq<char>,
) -> Option<Seq<char>> {
    match cmd {
        CommandSpec::SetSourceColour(id, colour) => |x: Seq<char>|
            if x == id && f(x) is Some {
                Some(colour)
            } else {
                f(x)
            },
        _ => f,
    }
}

/// What a run of commands, in order, does to the sources' colours.
pub open spec fn colour_commands_effect(f: spec_fn(Seq<char>) -> Option<Seq<char>>, cmds: Seq<CommandSpec>) -> spec_fn(
    Seq<char>,
) -> Option<Seq<char>>
    decreases cmds.len(),
{
    if cmds.len() == 0 {
        f
    } else {
        colour_command_effect(colour_commands_effect(f, cmds.drop_last()), cmds.last())
    }
}

proof fn lemma_colour_effect_append(f: spec_fn(Seq<char>) -> Option<Seq<char>>, a: Seq<CommandSpec>, b: Seq<CommandSpec>)
    ensures
        colour_commands_effect(f, a + b) == colour_commands_effect(colour_commands_effect(f, a), b),
    decreases b.len(),
{
    if b.len() == 0 {
        assert(a + b =~= a);
    } else {
        lemma_colour_effect_append(f, a, b.drop_last());
        assert((a + b).drop_last() =~= a + b.drop_last());
        assert((a + b).last() == b.last());
    }
}

proof fn lemma_no_colour_commands(f: spec_fn(Seq<char>) -> Option<Seq<char>>, cmds: Seq<CommandSpec>)
    requires
        forall|i: int| 0 <= i < cmds.len() ==> !(#[trigger] cmds[i] is SetSourceColour),
    ensures
        colour_commands_effect(f, cmds) == f,
    decreases cmds.len(),
{
    if cmds.len() > 0 {
        assert(!(cmds[cmds.len() - 1] is SetSourceColour));
        lemma_no_colour_commands(f, cmds.drop_last());
    }
}

/// The commands for one saved source set, on its current match, the saved
/// colour, and touch no other source's colour.
proof fn lemma_channel_commands_colours(
    f: spec_fn(Seq<char>) -> Option<Seq<char>>,
    ch: MixerChannel,
    pos: usize,
    cur: MixerChannel,
    c: MixerSnapshot,
)
    requires
        f(cur.id@) is Some,
    ensures
        forall|x: Seq<char>| #[trigger] colour_commands_effect(f, channel_commands(ch, pos, cur, c))(x) == if x == cur.id@ {
            Some(ch.colour@)
        } else {
            f(x)
        },
{
    let cmds = channel_commands(ch, pos, cur, c);
    let head = cmds.subrange(0, 2);
    let rest = cmds.subrange(2, cmds.len() as int);
    assert(cmds =~= head + rest);
    assert forall|i: int| 0 <= i < rest.len() implies !(#[trigger] rest[i] is SetSourceColour) by {
        assert(rest[i] == cmds[i + 2]);
    }
    lemma_colour_effect_append(f, head, rest);
    let g = colour_commands_effect(f, head);
    lemma_no_colour_commands(g, rest);
    let s0 = seq![cmds[0]];
    assert(head.drop_last() =~= s0);
    assert(head.last() == cmds[1]);
    assert(s0.drop_last() =~= Seq::<CommandSpec>::empty());
    assert(s0.last() == cmds[0]);
    assert(colour_commands_effect(f, s0.drop_last()) == f);
    assert(cmds[0] is SetSourceOrder);
    assert(colour_commands_effect(f, s0) == f);
    assert(cmds[1] == CommandSpec::SetSourceColour(cur.id@, ch.colour@));
    assert(g == colour_command_effect(f, cmds[1]));
    assert forall|x: Seq<char>| #[trigger] colour_commands_effect(f, cmds)(x) == if x == cur.id@ {
        Some(ch.colour@)
    } else {
        f(x)
    } by {
        assert(colour_commands_effect(f, cmds)(x) == g(x));
    }
}

proof fn lemma_colours_at(c: MixerSnapshot, k: int)
    requires
        channel_ids_distinct(c),
        0 <= k < c.channels@.len(),
    ensures
        channel_colours(c)(c.channels@[k].id@) == Some(c.channels@[k].colour@),
{
    let p = id_pred(c, c.channels@[k].id@);
    if first_where(c.channels@.len(), p) is None {
        lemma_first_where_none(c.channels@.len(), p);
        assert(p(k));
    }
    lemma_first_where_some(c.channels@.len(), p);
    let j = first_where(c.channels@.len(), p)->0;
    if j != k {
        assert(p(j));
        if j < k {
            assert(c.channels@[j].id@ != c.channels@[k].id@);
        } else {
            assert(c.channels@[k].id@ != c.channels@[j].id@);
        }
    }
}

/// The colours that the first `n` saved sources leave: on the current match
/// of a saved source, its colour; elsewhere the mixer's.
spec fn colours_after(d: MixerSnapshot, c: MixerSnapshot, n: nat, x: Seq<char>) -> Option<Seq<char>> {
    if exists|q: int| 0 <= q < n && #[trigger] matched_id(d, c, q) == x {
        Some(d.channels@[choose|q: int| 0 <= q < n && #[trigger] matched_id(d, c, q) == x].colour@)
    } else {
        channel_colours(c)(x)
    }
}

proof fn lemma_channel_phase_colours(d: MixerSnapshot, c: MixerSnapshot, n: nat)
    requires
        n <= d.channels@.len(),
        channel_ids_distinct(c),
        matches_distinct(d, c),
        forall|q: int| 0 <= q < d.channels@.len() ==> current_match(#[trigger] d.channels@[q], c) is Some,
    ensures
        forall|x: Seq<char>| #[trigger] colour_commands_effect(channel_colours(c), channel_phase(d, c, n))(x)
            == colours_after(d, c, n, x),
    decreases n,
{
    if n == 0 {
        assert forall|x: Seq<char>| #[trigger] colour_commands_effect(channel_colours(c), channel_phase(d, c, 0))(x)
            == colours_after(d, c, 0, x) by {
            assert(!exists|q: int| 0 <= q < 0 && #[trigger] matched_id(d, c, q) == x);
        }
    } else {
        let m = (n - 1) as nat;
        lemma_channel_phase_colours(d, c, m);
        let prev = colour_commands_effect(channel_colours(c), channel_phase(d, c, m));
        let q = m as int;
        let ch = d.channels@[q];
        assert(current_match(ch, c) is Some);
        let k = current_match(ch, c)->0;
        lemma_first_where_some(c.channels@.len(), match_pred(ch, c));
        let cur = c.channels@[k];
        let cmds = channel_commands(ch, m as usize, cur, c);
        assert(channel_phase(d, c, n) == channel_phase(d, c, m) + cmds);
        lemma_colour_effect_append(channel_colours(c), channel_phase(d, c, m), cmds);
        assert(matched_id(d, c, q) == cur.id@);
        assert(prev(cur.id@) is Some) by {
            if !exists|q2: int| 0 <= q2 < m && #[trigger] matched_id(d, c, q2) == cur.id@ {
                lemma_colours_at(c, k);
            }
        }
        lemma_channel_commands_colours(prev, ch, m as usize, cur, c);
        let after = colour_commands_effect(channel_colours(c), channel_phase(d, c, n));
        assert forall|x: Seq<char>| #[trigger] after(x) == colours_after(d, c, n, x) by {
            assert(after(x) == colour_commands_effect(prev, cmds)(x));
            assert(prev(x) == colours_after(d, c, m, x));
            if x == cur.id@ {
                assert(exists|q2: int| 0 <= q2 < n && #[trigger] matched_id(d, c, q2) == x);
                let w = choose|q2: int| 0 <= q2 < n && #[trigger] matched_id(d, c, q2) == x;
                if w != q {
                    lemma_matched_ids_distinct(d, c, w, q);
                }
            } else {
                if exists|q2: int| 0 <= q2 < n && #[trigger] matched_id(d, c, q2) == x {
                    let w = choose|q2: int| 0 <= q2 < n && #[trigger] matched_id(d, c, q2) == x;
                    assert(w != q);
                    assert(exists|q2: int| 0 <= q2 < m && #[trigger] matched_id(d, c, q2) == x);
                    let w2 = choose|q2: int| 0 <= q2 < m && #[trigger] matched_id(d, c, q2) == x;
                    if w != w2 {
                        lemma_matched_ids_distinct(d, c, w, w2);
                    }
                } else {
                    assert(!exists|q2: int| 0 <= q2 < m && #[trigger] matched_id(d, c, q2) == x);
                }
            }
        }
    }
}

/// The settings pass of a profile whose every source has a current match,
/// no two the same, applied to the colours of the mixer it was planned from
/// (whose sources have distinct ids), gives each matched current source the
/// saved source's colour, and leaves every other source's colour as it was.
pub proof fn lemma_settings_pass_restores_source_colours(d: MixerSnapshot, c: MixerSnapshot)
    requires
        first_unmatched(d, c) is None,
        channel_ids_distinct(c),
        matches_distinct(d, c),
    ensures
        forall|q: int|
            0 <= q < d.channels@.len() ==> colour_commands_effect(channel_colours(c), settings_pass(d, c).0)(
                #[trigger] matched_id(d, c, q),
            ) == Some(d.channels@[q].colour@),
        forall|x: Seq<char>|
            (forall|q: int| 0 <= q < d.channels@.len() ==> #[trigger] matched_id(d, c, q) != x) ==> #[trigger] colour_commands_effect(
                channel_colours(c),
                settings_pass(d, c).0,
            )(x) == channel_colours(c)(x),
{
    lemma_first_where_none(d.channels@.len(), unmatched_pred(d, c));
    assert forall|q: int| 0 <= q < d.channels@.len() implies current_match(#[trigger] d.channels@[q], c) is Some by {
        assert(!unmatched_pred(d, c)(q));
    }
    let chans = channel_phase(d, c, d.channels@.len());
    let tgts = target_phase(d, c, d.targets@.len());
    let links = link_phase(d, c, c.link_outputs@.len());
    lemma_channel_phase_colours(d, c, d.channels@.len());
    let after = colour_commands_effect(channel_colours(c), chans);
    lemma_target_phase_no_colours(d, c, d.targets@.len());
    lemma_link_phase_no_colours(d, c, c.link_outputs@.len());
    let rest = tgts + links;
    assert forall|i: int| 0 <= i < rest.len() implies !(#[trigger] rest[i] is SetSourceColour) by {
        if i < tgts.len() {
            assert(rest[i] == tgts[i]);
        } else {
            assert(rest[i] == links[i - tgts.len()]);
        }
    }
    lemma_no_colour_commands(after, rest);
    assert(settings_pass(d, c).0 =~= chans + rest);
    lemma_colour_effect_append(channel_colours(c), chans, rest);
    let r = colour_commands_effect(channel_colours(c), settings_pass(d, c).0);
    assert(r == after);
    assert forall|q: int| 0 <= q < d.channels@.len() implies r(#[trigger] matched_id(d, c, q)) == Some(
        d.channels@[q].colour@,
    ) by {
        let x = matched_id(d, c, q);
        assert(r(x) == colours_after(d, c, d.channels@.len(), x));
        let w = choose|q2: int| 0 <= q2 < d.channels@.len() && #[trigger] matched_id(d, c, q2) == x;
        if w != q {
            lemma_matched_ids_distinct(d, c, w, q);
        }
    }
    assert forall|x: Seq<char>|
        (forall|q: int| 0 <= q < d.channels@.len() ==> #[trigger] matched_id(d, c, q) != x) implies #[trigger] r(x)
            == channel_colours(c)(x) by {
        assert(r(x) == colours_after(d, c, d.channels@.len(), x));
    }
}

proof fn lemma_target_phase_no_colours(d: MixerSnapshot, c: MixerSnapshot, n: nat)
    requires
        n <= d.targets@.len(),
    ensures
        forall|i: int| 0 <= i < target_phase(d, c, n).len() ==> !(#[trigger] target_phase(d, c, n)[i] is SetSourceColour),
    decreases n,
{
    if n > 0 {
        lemma_target_phase_no_colours(d, c, (n - 1) as nat);
        let a = target_phase(d, c, (n - 1) as nat);
        let b = target_commands(d.targets@[n - 1], c);
        assert(target_phase(d, c, n) == a + b);
        assert forall|i: int| 0 <= i < target_phase(d, c, n).len() implies !(#[trigger] target_phase(d, c, n)[i] is SetSourceColour) by {
            if i < a.len() {
                assert(target_phase(d, c, n)[i] == a[i]);
            } else {
                let j = i - a.len();
                assert(target_phase(d, c, n)[i] == b[j]);
                if j == 0 {
                    assert(b[0] is SetTargetVolume);
                } else if j == 1 {
                    assert(b[1] is SetTargetMute);
                } else {
                    assert(b[j] is SetTargetDevice);
                }
            }
        }
    }
}

proof fn lemma_link_phase_no_colours(d: MixerSnapshot, c: MixerSnapshot, n: nat)
    requires
        n <= c.link_outputs@.len(),
    ensures
        forall|i: int| 0 <= i < link_phase(d, c, n).len() ==> !(#[trigger] link_phase(d, c, n)[i] is SetSourceColour),
    decreases n,
{
    if n > 0 {
        lemma_link_phase_no_colours(d, c, (n - 1) as nat);
        let a = link_phase(d, c, (n - 1) as nat);
        assert forall|i: int| 0 <= i < link_phase(d, c, n).len() implies !(#[trigger] link_phase(d, c, n)[i] is SetSourceColour) by {
            if i < a.len() {
                assert(link_phase(d, c, n)[i] == a[i]);
            }
        }
    }
}

pub open spec fn target_id_pred(c: MixerSnapshot, id: Seq<char>) -> spec_fn(int) -> bool {
    |k: int| c.targets@[k].id@ == id
}

/// Whether the first target of a mixer with each id is muted.
pub open spec fn target_mutes(c: MixerSnapshot) -> spec_fn(Seq<char>) -> Option<bool> {
    |id: Seq<char>|
        match first_where(c.targets@.len(), target_id_pred(c, id)) {
            Some(k) => Some(c.targets@[k].muted),
            None => None,
        }
}

/// What one command does to the targets' mutes: a target mute command sets
/// whether the target with its id is muted, if there is one.
pub open spec fn target_mute_command_effect(f: spec_fn(Seq<char>) -> Option<bool>, cmd: CommandSpec) -> spec_fn(
    Seq<char>,
) -> Option<bool> {
    match cmd {
        CommandSpec::SetTargetMute(id, muted) => |x: Seq<char>|
            if x == id && f(x) is Some {
                Some(muted)
            } else {
                f(x)
            },
        _ => f,
    }
}

/// What a run of commands, in order, does to the targets' mutes.
pub open spec fn target_mute_commands_effect(f: spec_fn(Seq<char>) -> Option<bool>, cmds: Seq<CommandSpec>) -> spec_fn(
    Seq<char>,
) -> Option<bool>
    decreases cmds.len(),
{
    if cmds.len() == 0 {
        f
    } else {
        target_mute_command_effect(target_mute_commands_effect(f, cmds.drop_last()), cmds.last())
    }
}

proof fn lemma_mute_effect_append(f: spec_fn(Seq<char>) -> Option<bool>, a: Seq<CommandSpec>, b: Seq<CommandSpec>)
    ensures
        target_mute_commands_effect(f, a + b) == target_mute_commands_effect(target_mute_commands_effect(f, a), b),
    decreases b.len(),
{
    if b.len() == 0 {
        assert(a + b =~= a);
    } else {
        lemma_mute_effect_append(f, a, b.drop_last());
        assert((a + b).drop_last() =~= a + b.drop_last());
        assert((a + b).last() == b.last());
    }
}

proof fn lemma_no_mute_commands(f: spec_fn(Seq<char>) -> Option<bool>, cmds: Seq<CommandSpec>)
    requires
        forall|i: int| 0 <= i < cmds.len() ==> !(#[trigger] cmds[i] is SetTargetMute),
    ensures
        target_mute_commands_effect(f, cmds) == f,
    decreases cmds.len(),
{
    if cmds.len() > 0 {
        assert(!(cmds[cmds.len() - 1] is SetTargetMute));
        lemma_no_mute_commands(f, cmds.drop_last());
    }
}

proof fn lemma_target_mute_present(c: MixerSnapshot, id: Seq<char>)
    requires
        target_present(c, id),
    ensures
        target_mutes(c)(id) is Some,
{
    let p = target_id_pred(c, id);
    if first_where(c.targets@.len(), p) is None {
        lemma_first_where_none(c.targets@.len(), p);
        let k = choose|k: int| 0 <= k < c.targets@.len() && (#[trigger] c.targets@[k]).id@ == id;
        assert(p(k));
    }
}

/// The commands for one saved target that the mixer has set its mute, and
/// touch no other target's mute.
proof fn lemma_target_commands_mute(f: spec_fn(Seq<char>) -> Option<bool>, t: MixerTarget, c: MixerSnapshot)
    requires
        target_present(c, t.id@),
        f(t.id@) is Some,
    ensures
        forall|x: Seq<char>| #[trigger] target_mute_commands_effect(f, target_commands(t, c))(x) == if x == t.id@ {
            Some(t.muted)
        } else {
            f(x)
        },
{
    let cmds = target_commands(t, c);
    let head = cmds.subrange(0, 2);
    let rest = cmds.subrange(2, cmds.len() as int);
    assert(cmds =~= head + rest);
    assert forall|i: int| 0 <= i < rest.len() implies !(#[trigger] rest[i] is SetTargetMute) by {
        assert(rest[i] == cmds[i + 2]);
        assert(cmds[i + 2] is SetTargetDevice);
    }
    lemma_mute_effect_append(f, head, rest);
    let g = target_mute_commands_effect(f, head);
    lemma_no_mute_commands(g, rest);
    let s0 = seq![cmds[0]];
    assert(head.drop_last() =~= s0);
    assert(head.last() == cmds[1]);
    assert(s0.drop_last() =~= Seq::<CommandSpec>::empty());
    assert(s0.last() == cmds[0]);
    assert(target_mute_commands_effect(f, s0.drop_last()) == f);
    assert(cmds[0] is SetTargetVolume);
    assert(target_mute_commands_effect(f, s0) == f);
    assert(cmds[1] == CommandSpec::SetTargetMute(t.id@, t.muted));
    assert(g == target_mute_command_effect(f, cmds[1]));
    assert forall|x: Seq<char>| #[trigger] target_mute_commands_effect(f, cmds)(x) == if x == t.id@ {
        Some(t.muted)
    } else {
        f(x)
    } by {
        assert(target_mute_commands_effect(f, cmds)(x) == g(x));
    }
}

/// The mutes that the first `n` saved targets leave: on a target of the
/// mixer that a saved target names, the saved mute; elsewhere the mixer's.
spec fn mutes_after(d: MixerSnapshot, c: MixerSnapshot, n: nat, x: Seq<char>) -> Option<bool> {
    if target_present(c, x) && exists|i: int| 0 <= i < n && (#[trigger] d.targets@[i]).id@ == x {
        Some(d.targets@[choose|i: int| 0 <= i < n && (#[trigger] d.targets@[i]).id@ == x].muted)
    } else {
        target_mutes(c)(x)
    }
}

proof fn lemma_target_phase_mutes(d: MixerSnapshot, c: MixerSnapshot, n: nat)
    requires
        target_ids_distinct(d.targets@),
        n <= d.targets@.len(),
    ensures
        forall|x: Seq<char>| #[trigger] target_mute_commands_effect(target_mutes(c), target_phase(d, c, n))(x)
            == mutes_after(d, c, n, x),
    decreases n,
{
    if n == 0 {
        assert forall|x: Seq<char>| #[trigger] target_mute_commands_effect(target_mutes(c), target_phase(d, c, 0))(x)
            == mutes_after(d, c, 0, x) by {
            assert(!exists|i: int| 0 <= i < 0 && (#[trigger] d.targets@[i]).id@ == x);
        }
    } else {
        let m = (n - 1) as nat;
        lemma_target_phase_mutes(d, c, m);
        let prev = target_mute_commands_effect(target_mutes(c), target_phase(d, c, m));
        let t = d.targets@[m as int];
        let cmds = target_commands(t, c);
        assert(target_phase(d, c, n) == target_phase(d, c, m) + cmds);
        lemma_mute_effect_append(target_mutes(c), target_phase(d, c, m), cmds);
        let after = target_mute_commands_effect(target_mutes(c), target_phase(d, c, n));
        assert(after == target_mute_commands_effect(prev, cmds));
        if target_present(c, t.id@) {
            assert(prev(t.id@) is Some) by {
                if exists|i: int| 0 <= i < m && (#[trigger] d.targets@[i]).id@ == t.id@ {
                } else {
                    lemma_target_mute_present(c, t.id@);
                }
            }
            lemma_target_commands_mute(prev, t, c);
        } else {
            assert(cmds.len() == 0);
            assert(target_mute_commands_effect(prev, cmds) == prev);
        }
        assert forall|x: Seq<char>| #[trigger] after(x) == mutes_after(d, c, n, x) by {
            assert(prev(x) == mutes_after(d, c, m, x));
            if x == t.id@ && target_present(c, x) {
                assert(after(x) == Some(t.muted));
                assert(exists|i: int| 0 <= i < n && (#[trigger] d.targets@[i]).id@ == x) by {
                    assert(d.targets@[m as int].id@ == x);
                }
                let w = choose|i: int| 0 <= i < n && (#[trigger] d.targets@[i]).id@ == x;
                if w != m {
                    assert(d.targets@[w].id@ == d.targets@[m as int].id@);
                }
            } else {
                assert(after(x) == prev(x));
                if target_present(c, x) && exists|i: int| 0 <= i < n && (#[trigger] d.targets@[i]).id@ == x {
                    let w = choose|i: int| 0 <= i < n && (#[trigger] d.targets@[i]).id@ == x;
                    assert(w != m);
                    assert(exists|i: int| 0 <= i < m && (#[trigger] d.targets@[i]).id@ == x);
                    let w2 = choose|i: int| 0 <= i < m && (#[trigger] d.targets@[i]).id@ == x;
                    if w != w2 {
                        assert(d.targets@[w].id@ == d.targets@[w2].id@);
                    }
                } else if target_present(c, x) {
                    assert(!exists|i: int| 0 <= i < m && (#[trigger] d.targets@[i]).id@ == x);
                }
            }
        }
    }
}

proof fn lemma_channel_phase_no_mute(d: MixerSnapshot, c: MixerSnapshot, n: nat)
    requires
        n <= d.channels@.len(),
    ensures
        forall|i: int| 0 <= i < channel_phase(d, c, n).len() ==> !(#[trigger] channel_phase(d, c, n)[i] is SetTargetMute),
    decreases n,
{
    if n > 0 {
        lemma_channel_phase_no_mute(d, c, (n - 1) as nat);
        let a = channel_phase(d, c, (n - 1) as nat);
        let ch = d.channels@[n - 1];
        let b = match current_match(ch, c) {
            Some(k) => channel_commands(ch, (n - 1) as usize, c.channels@[k], c),
            None => Seq::empty(),
        };
        assert(channel_phase(d, c, n) == a + b);
        assert forall|i: int| 0 <= i < channel_phase(d, c, n).len() implies !(#[trigger] channel_phase(d, c, n)[i] is SetTargetMute) by {
            if i < a.len() {
                assert(channel_phase(d, c, n)[i] == a[i]);
            } else {
                assert(channel_phase(d, c, n)[i] == b[i - a.len()]);
                if let Some(k) = current_match(ch, c) {
                    let j = i - a.len();
                    if j < 6 {
                        assert(b[j] == channel_commands(ch, (n - 1) as usize, c.channels@[k], c)[j]);
                        assert(!(b[j] is SetTargetMute));
                    } else {
                        assert(b[j] is SetSourceDevice);
                    }
                }
            }
        }
    }
}

proof fn lemma_link_phase_no_mute(d: MixerSnapshot, c: MixerSnapshot, n: nat)
    requires
        n <= c.link_outputs@.len(),
    ensures
        forall|i: int| 0 <= i < link_phase(d, c, n).len() ==> !(#[trigger] link_phase(d, c, n)[i] is SetTargetMute),
    decreases n,
{
    if n > 0 {
        lemma_link_phase_no_mute(d, c, (n - 1) as nat);
        let a = link_phase(d, c, (n - 1) as nat);
        assert forall|i: int| 0 <= i < link_phase(d, c, n).len() implies !(#[trigger] link_phase(d, c, n)[i] is SetTargetMute) by {
            if i < a.len() {
                assert(link_phase(d, c, n)[i] == a[i]);
            }
        }
    }
}

/// The settings pass of a profile whose every source has a current match,
/// applied to the targets' mutes of the mixer it was planned from, mutes or
/// unmutes each current target as the profile target with its id says (the
/// profile's target ids being distinct), and leaves the others as they were.
pub proof fn lemma_settings_pass_restores_target_mutes(d: MixerSnapshot, c: MixerSnapshot)
    requires
        first_unmatched(d, c) is None,
        target_ids_distinct(d.targets@),
    ensures
        forall|i: int|
            0 <= i < d.targets@.len() && target_present(c, (#[trigger] d.targets@[i]).id@) ==> target_mute_commands_effect(
                target_mutes(c),
                settings_pass(d, c).0,
            )(d.targets@[i].id@) == Some(d.targets@[i].muted),
        forall|x: Seq<char>|
            (forall|i: int| 0 <= i < d.targets@.len() ==> (#[trigger] d.targets@[i]).id@ != x) ==> #[trigger] target_mute_commands_effect(
                target_mutes(c),
                settings_pass(d, c).0,
            )(x) == target_mutes(c)(x),
{
    let chans = channel_phase(d, c, d.channels@.len());
    let tgts = target_phase(d, c, d.targets@.len());
    let links = link_phase(d, c, c.link_outputs@.len());
    lemma_channel_phase_no_mute(d, c, d.channels@.len());
    lemma_link_phase_no_mute(d, c, c.link_outputs@.len());
    lemma_no_mute_commands(target_mutes(c), chans);
    lemma_target_phase_mutes(d, c, d.targets@.len());
    let after = target_mute_commands_effect(target_mutes(c), tgts);
    lemma_no_mute_commands(after, links);
    assert(settings_pass(d, c).0 == chans + tgts + links);
    lemma_mute_effect_append(target_mutes(c), chans, tgts);
    lemma_mute_effect_append(target_mutes(c), chans + tgts, links);
    let r = target_mute_commands_effect(target_mutes(c), settings_pass(d, c).0);
    assert(r == after);
    assert forall|i: int|
        0 <= i < d.targets@.len() && target_present(c, (#[trigger] d.targets@[i]).id@) implies r(d.targets@[i].id@)
            == Some(d.targets@[i].muted) by {
        let x = d.targets@[i].id@;
        assert(r(x) == mutes_after(d, c, d.targets@.len(), x));
        let j = choose|j: int| 0 <= j < d.targets@.len() && (#[trigger] d.targets@[j]).id@ == x;
        if j != i {
            assert(d.targets@[i].id@ == d.targets@[j].id@);
        }
    }
    assert forall|x: Seq<char>|
        (forall|i: int| 0 <= i < d.targets@.len() ==> (#[trigger] d.targets@[i]).id@ != x) implies #[trigger] r(x)
            == target_mutes(c)(x) by {
        assert(r(x) == mutes_after(d, c, d.targets@.len(), x));
    }
}

/// Target `t` has an attachment on the Link slot.
pub open spec fn attached_on_slot(d: MixerSnapshot, t: int, slot: u8) -> bool {
    exists|j: int|
        0 <= j < d.targets@[t].attached_devices@.len() && attachment_slot(#[trigger] d.targets@[t].attached_devices@[j])
            == Some(slot)
}

proof fn lemma_link_phase_shape(d: MixerSnapshot, c: MixerSnapshot, n: nat)
    requires
        n <= c.link_outputs@.len(),
    ensures
        link_phase(d, c, n).len() == n,
        forall|k: int|
            0 <= k < n ==> #[trigger] link_phase(d, c, n)[k] == CommandSpec::SetLinkOutputAssignment(
                c.link_outputs@[k].node_id,
                link_target(d, c.link_outputs@[k].slot),
            ),
    decreases n,
{
    if n > 0 {
        lemma_link_phase_shape(d, c, (n - 1) as nat);
        let a = link_phase(d, c, (n - 1) as nat);
        assert forall|k: int| 0 <= k < n implies #[trigger] link_phase(d, c, n)[k] == CommandSpec::SetLinkOutputAssignment(
            c.link_outputs@[k].node_id,
            link_target(d, c.link_outputs@[k].slot),
        ) by {
            if k < n - 1 {
                assert(link_phase(d, c, n)[k] == a[k]);
            }
        }
    }
}

/// The settings pass of a profile whose every source has a current match
/// ends with one Link output assignment for each Link output of the mixer,
/// in the mixer's order: the output goes to the target that the profile
/// saved for its slot (or to none, when it saved none); for a slot the
/// profile saved nothing for, to the first saved target with an attachment
/// on the slot, or to none when there is no such target.
pub proof fn lemma_settings_pass_assigns_link_outputs(d: MixerSnapshot, c: MixerSnapshot)
    requires
        first_unmatched(d, c) is None,
    ensures
        ({
            let cmds = settings_pass(d, c).0;
            let n = c.link_outputs@.len();
            &&& cmds.len() >= n
            &&& forall|k: int| 0 <= k < n ==> {
                let slot = (#[trigger] c.link_outputs@[k]).slot;
                let cmd = cmds[cmds.len() - n + k];
                &&& cmd is SetLinkOutputAssignment
                &&& cmd->SetLinkOutputAssignment_0 == c.link_outputs@[k].node_id
                &&& forall|s: int|
                    0 <= s < d.link_outputs@.len() && d.link_outputs@[s].slot == slot && (forall|s2: int|
                        0 <= s2 < s ==> (#[trigger] d.link_outputs@[s2]).slot != slot) ==> cmd->SetLinkOutputAssignment_1
                        == opt_chars_of(d.link_outputs@[s].target_id)
                &&& (forall|s: int| 0 <= s < d.link_outputs@.len() ==> (#[trigger] d.link_outputs@[s]).slot != slot)
                    ==> (forall|t: int|
                    0 <= t < d.targets@.len() && attached_on_slot(d, t, slot) && (forall|t2: int|
                        0 <= t2 < t ==> !#[trigger] attached_on_slot(d, t2, slot)) ==> cmd->SetLinkOutputAssignment_1
                        == Some(d.targets@[t].id@)) && ((forall|t: int|
                    0 <= t < d.targets@.len() ==> !#[trigger] attached_on_slot(d, t, slot)) ==> cmd->SetLinkOutputAssignment_1
                    is None)
            }
        }),
{
    let chans = channel_phase(d, c, d.channels@.len());
    let tgts = target_phase(d, c, d.targets@.len());
    let links = link_phase(d, c, c.link_outputs@.len());
    let cmds = settings_pass(d, c).0;
    let n = c.link_outputs@.len();
    assert(cmds == chans + tgts + links);
    lemma_link_phase_shape(d, c, n);
    assert forall|k: int| 0 <= k < n implies {
        let slot = (#[trigger] c.link_outputs@[k]).slot;
        let cmd = cmds[cmds.len() - n + k];
        &&& cmd is SetLinkOutputAssignment
        &&& cmd->SetLinkOutputAssignment_0 == c.link_outputs@[k].node_id
        &&& forall|s: int|
            0 <= s < d.link_outputs@.len() && d.link_outputs@[s].slot == slot && (forall|s2: int|
                0 <= s2 < s ==> (#[trigger] d.link_outputs@[s2]).slot != slot) ==> cmd->SetLinkOutputAssignment_1
                == opt_chars_of(d.link_outputs@[s].target_id)
        &&& (forall|s: int| 0 <= s < d.link_outputs@.len() ==> (#[trigger] d.link_outputs@[s]).slot != slot)
            ==> (forall|t: int|
            0 <= t < d.targets@.len() && attached_on_slot(d, t, slot) && (forall|t2: int|
                0 <= t2 < t ==> !#[trigger] attached_on_slot(d, t2, slot)) ==> cmd->SetLinkOutputAssignment_1
                == Some(d.targets@[t].id@)) && ((forall|t: int|
            0 <= t < d.targets@.len() ==> !#[trigger] attached_on_slot(d, t, slot)) ==> cmd->SetLinkOutputAssignment_1
            is None)
    } by {
        let slot = c.link_outputs@[k].slot;
        assert(cmds[cmds.len() - n + k] == links[k]);
        let sp = saved_slot_pred(d, slot);
        let tp = attached_slot_pred(d, slot);
        assert forall|s: int|
            0 <= s < d.link_outputs@.len() && d.link_outputs@[s].slot == slot && (forall|s2: int|
                0 <= s2 < s ==> (#[trigger] d.link_outputs@[s2]).slot != slot) implies link_target(d, slot)
                == opt_chars_of(d.link_outputs@[s].target_id) by {
            if first_where(d.link_outputs@.len(), sp) is None {
                lemma_first_where_none(d.link_outputs@.len(), sp);
                assert(sp(s));
            }
            lemma_first_where_some(d.link_outputs@.len(), sp);
            let f = first_where(d.link_outputs@.len(), sp)->0;
            if f < s {
                assert(sp(f));
                assert(d.link_outputs@[f].slot != slot);
            } else if f > s {
                assert(!sp(s));
            }
        }
        if forall|s: int| 0 <= s < d.link_outputs@.len() ==> (#[trigger] d.link_outputs@[s]).slot != slot {
            if first_where(d.link_outputs@.len(), sp) is Some {
                lemma_first_where_some(d.link_outputs@.len(), sp);
                let f = first_where(d.link_outputs@.len(), sp)->0;
                assert(sp(f));
                assert(d.link_outputs@[f].slot != slot);
            }
            assert forall|t: int|
                0 <= t < d.targets@.len() && attached_on_slot(d, t, slot) && (forall|t2: int|
                    0 <= t2 < t ==> !#[trigger] attached_on_slot(d, t2, slot)) implies link_target(d, slot) == Some(
                d.targets@[t].id@,
            ) by {
                assert(tp(t) == attached_on_slot(d, t, slot));
                if first_where(d.targets@.len(), tp) is None {
                    lemma_first_where_none(d.targets@.len(), tp);
                    assert(tp(t));
                }
                lemma_first_where_some(d.targets@.len(), tp);
                let f = first_where(d.targets@.len(), tp)->0;
                assert(tp(f) == attached_on_slot(d, f, slot));
                if f < t {
                    assert(!attached_on_slot(d, f, slot));
                } else if f > t {
                    assert(!tp(t));
                }
            }
            if forall|t: int| 0 <= t < d.targets@.len() ==> !#[trigger] attached_on_slot(d, t, slot) {
                if first_where(d.targets@.len(), tp) is Some {
                    lemma_first_where_some(d.targets@.len(), tp);
                    let f = first_where(d.targets@.len(), tp)->0;
                    assert(tp(f) == attached_on_slot(d, f, slot));
                    assert(!attached_on_slot(d, f, slot));
                }
            }
        }
    }
}

/// What one command does to the input device chosen for each source: a
/// source device command sets it for the source with its id, if there is
/// one.
pub open spec fn device_command_effect(f: spec_fn(Seq<char>) -> Option<Option<u32>>, cmd: CommandSpec) -> spec_fn(
    Seq<char>,
) -> Option<Option<u32>> {
    match cmd {
        CommandSpec::SetSourceDevice(id, dev) => |x: Seq<char>|
            if x == id && f(x) is Some {
                Some(dev)
            } else {
                f(x)
            },
        _ => f,
    }
}

/// What a run of commands, in order, does to the sources' input devices.
pub open spec fn device_commands_effect(f: spec_fn(Seq<char>) -> Option<Option<u32>>, cmds: Seq<CommandSpec>) -> spec_fn(
    Seq<char>,
) -> Option<Option<u32>>
    decreases cmds.len(),
{
    if cmds.len() == 0 {
        f
    } else {
        device_command_effect(device_commands_effect(f, cmds.drop_last()), cmds.last())
    }
}

proof fn lemma_device_effect_append(f: spec_fn(Seq<char>) -> Option<Option<u32>>, a: Seq<CommandSpec>, b: Seq<CommandSpec>)
    ensures
        device_commands_effect(f, a + b) == device_commands_effect(device_commands_effect(f, a), b),
    decreases b.len(),
{
    if b.len() == 0 {
        assert(a + b =~= a);
    } else {
        lemma_device_effect_append(f, a, b.drop_last());
        assert((a + b).drop_last() =~= a + b.drop_last());
        assert((a + b).last() == b.last());
    }
}

proof fn lemma_no_device_commands(f: spec_fn(Seq<char>) -> Option<Option<u32>>, cmds: Seq<CommandSpec>)
    requires
        forall|i: int| 0 <= i < cmds.len() ==> !(#[trigger] cmds[i] is SetSourceDevice),
    ensures
        device_commands_effect(f, cmds) == f,
    decreases cmds.len(),
{
    if cmds.len() > 0 {
        assert(!(cmds[cmds.len() - 1] is SetSourceDevice));
        lemma_no_device_commands(f, cmds.drop_last());
    }
}

/// The input device that a saved source asks for against mixer `c`: none
/// when it has no attachment, else the first current physical input that is
/// its first attachment.
pub open spec fn wanted_device(ch: MixerChannel, c: MixerSnapshot, dev: Option<u32>) -> bool {
    if ch.attached_devices@.len() == 0 {
        dev is None
    } else {
        exists|k: int|
            0 <= k < c.physical_inputs@.len() && device_matches(
                ch.attached_devices@[0],
                (#[trigger] c.physical_inputs@[k]).descriptor,
            ) && (forall|k2: int|
                0 <= k2 < k ==> !device_matches(ch.attached_devices@[0], (#[trigger] c.physical_inputs@[k2]).descriptor))
                && dev == Some(c.physical_inputs@[k].node_id)
    }
}

/// The commands for one saved source choose, on its current match, the input
/// device it asks for when it is a physical source, and leave every other
/// source's device as it was.
proof fn lemma_channel_commands_device(
    f: spec_fn(Seq<char>) -> Option<Option<u32>>,
    ch: MixerChannel,
    pos: usize,
    cur: MixerChannel,
    c: MixerSnapshot,
)
    requires
        f(cur.id@) is Some,
        ch.source_kind == MixerSourceKind::Physical && ch.attached_devices@.len() > 0 ==> first_where(
            c.physical_inputs@.len(),
            input_pred(ch.attached_devices@[0], c),
        ) is Some,
    ensures
        forall|x: Seq<char>|
            #![trigger device_commands_effect(f, channel_commands(ch, pos, cur, c))(x)]
            (x != cur.id@ || ch.source_kind != MixerSourceKind::Physical) ==> device_commands_effect(
                f,
                channel_commands(ch, pos, cur, c),
            )(x) == f(x),
        ch.source_kind == MixerSourceKind::Physical ==> device_commands_effect(f, channel_commands(ch, pos, cur, c))(
            cur.id@,
        ) is Some && wanted_device(ch, c, device_commands_effect(f, channel_commands(ch, pos, cur, c))(cur.id@)->0),
{
    let cmds = channel_commands(ch, pos, cur, c);
    let head = cmds.subrange(0, 6);
    let tail = cmds.subrange(6, cmds.len() as int);
    assert(cmds =~= head + tail);
    assert forall|i: int| 0 <= i < head.len() implies !(#[trigger] head[i] is SetSourceDevice) by {
        assert(head[i] == cmds[i]);
    }
    lemma_no_device_commands(f, head);
    lemma_device_effect_append(f, head, tail);
    if ch.source_kind == MixerSourceKind::Physical {
        assert(tail.len() == 1);
        let t0 = tail[0];
        assert(tail.drop_last() =~= Seq::<CommandSpec>::empty());
        assert(device_commands_effect(f, tail.drop_last()) == f);
        assert(device_commands_effect(f, tail) == device_command_effect(f, t0));
        if ch.attached_devices@.len() == 0 {
            assert(t0 == CommandSpec::SetSourceDevice(cur.id@, None));
        } else {
            let p = input_pred(ch.attached_devices@[0], c);
            lemma_first_where_some(c.physical_inputs@.len(), p);
            let k = first_where(c.physical_inputs@.len(), p)->0;
            assert(t0 == CommandSpec::SetSourceDevice(cur.id@, Some(c.physical_inputs@[k].node_id)));
            assert(p(k));
            assert forall|k2: int| 0 <= k2 < k implies !device_matches(
                ch.attached_devices@[0],
                (#[trigger] c.physical_inputs@[k2]).descriptor,
            ) by {
                assert(!p(k2));
            }
        }
    } else {
        assert(tail.len() == 0);
        assert(device_commands_effect(f, tail) == f);
    }
}

/// The devices that the first `n` saved sources leave: on the current match
/// of a saved physical source, the device it asks for; elsewhere as in `f`.
spec fn devices_after_ok(
    d: MixerSnapshot,
    c: MixerSnapshot,
    f: spec_fn(Seq<char>) -> Option<Option<u32>>,
    n: nat,
    g: spec_fn(Seq<char>) -> Option<Option<u32>>,
) -> bool {
    &&& forall|q: int|
        0 <= q < n && (#[trigger] d.channels@[q]).source_kind == MixerSourceKind::Physical ==> g(
            matched_id(d, c, q),
        ) is Some && wanted_device(d.channels@[q], c, g(matched_id(d, c, q))->0)
    &&& forall|x: Seq<char>|
        (forall|q: int|
            0 <= q < n && (#[trigger] d.channels@[q]).source_kind == MixerSourceKind::Physical ==> matched_id(d, c, q)
                != x) ==> #[trigger] g(x) == f(x)
}

proof fn lemma_channel_phase_devices(d: MixerSnapshot, c: MixerSnapshot, f: spec_fn(Seq<char>) -> Option<Option<u32>>, n: nat)
    requires
        n <= d.channels@.len(),
        channel_ids_distinct(c),
        matches_distinct(d, c),
        forall|q: int| 0 <= q < d.channels@.len() ==> current_match(#[trigger] d.channels@[q], c) is Some,
        forall|k: int| 0 <= k < c.channels@.len() ==> f((#[trigger] c.channels@[k]).id@) is Some,
        inputs_resolvable(d, c),
        first_unmatched(d, c) is None,
    ensures
        devices_after_ok(d, c, f, n, device_commands_effect(f, channel_phase(d, c, n))),
    decreases n,
{
    if n > 0 {
        let m = (n - 1) as nat;
        lemma_channel_phase_devices(d, c, f, m);
        let prev = device_commands_effect(f, channel_phase(d, c, m));
        let q = m as int;
        let ch = d.channels@[q];
        let k = current_match(ch, c)->0;
        lemma_first_where_some(c.channels@.len(), match_pred(ch, c));
        let cur = c.channels@[k];
        let cmds = channel_commands(ch, m as usize, cur, c);
        assert(channel_phase(d, c, n) == channel_phase(d, c, m) + cmds);
        lemma_device_effect_append(f, channel_phase(d, c, m), cmds);
        assert(matched_id(d, c, q) == cur.id@);
        assert(prev(cur.id@) is Some) by {
            if exists|q2: int|
                0 <= q2 < m && (#[trigger] d.channels@[q2]).source_kind == MixerSourceKind::Physical && matched_id(
                    d,
                    c,
                    q2,
                ) == cur.id@ {
                let q2 = choose|q2: int|
                    0 <= q2 < m && (#[trigger] d.channels@[q2]).source_kind == MixerSourceKind::Physical && matched_id(
                        d,
                        c,
                        q2,
                    ) == cur.id@;
                lemma_matched_ids_distinct(d, c, q2, q);
            } else {
                assert(f(c.channels@[k].id@) is Some);
            }
        }
        assert(ch.source_kind == MixerSourceKind::Physical && ch.attached_devices@.len() > 0 ==> first_where(
            c.physical_inputs@.len(),
            input_pred(ch.attached_devices@[0], c),
        ) is Some);
        lemma_channel_commands_device(prev, ch, m as usize, cur, c);
        let after = device_commands_effect(f, channel_phase(d, c, n));
        assert(after == device_commands_effect(prev, cmds));
        assert forall|q2: int|
            0 <= q2 < n && (#[trigger] d.channels@[q2]).source_kind == MixerSourceKind::Physical implies after(
                matched_id(d, c, q2),
            ) is Some && wanted_device(d.channels@[q2], c, after(matched_id(d, c, q2))->0) by {
            if q2 < m {
                lemma_matched_ids_distinct(d, c, q2, q);
                assert(after(matched_id(d, c, q2)) == prev(matched_id(d, c, q2)));
            }
        }
        assert forall|x: Seq<char>|
            (forall|q2: int|
                0 <= q2 < n && (#[trigger] d.channels@[q2]).source_kind == MixerSourceKind::Physical ==> matched_id(
                    d,
                    c,
                    q2,
                ) != x) implies #[trigger] after(x) == f(x) by {
            assert(after(x) == prev(x));
        }
    }
}

proof fn lemma_target_phase_no_devices(d: MixerSnapshot, c: MixerSnapshot, n: nat)
    requires
        n <= d.targets@.len(),
    ensures
        forall|i: int| 0 <= i < target_phase(d, c, n).len() ==> !(#[trigger] target_phase(d, c, n)[i] is SetSourceDevice),
    decreases n,
{
    if n > 0 {
        lemma_target_phase_no_devices(d, c, (n - 1) as nat);
        let a = target_phase(d, c, (n - 1) as nat);
        let b = target_commands(d.targets@[n - 1], c);
        assert(target_phase(d, c, n) == a + b);
        assert forall|i: int| 0 <= i < target_phase(d, c, n).len() implies !(#[trigger] target_phase(d, c, n)[i] is SetSourceDevice) by {
            if i < a.len() {
                assert(target_phase(d, c, n)[i] == a[i]);
            } else {
                let j = i - a.len();
                assert(target_phase(d, c, n)[i] == b[j]);
                if j == 0 {
                    assert(b[0] is SetTargetVolume);
                } else if j == 1 {
                    assert(b[1] is SetTargetMute);
                } else {
                    assert(b[j] is SetTargetDevice);
                }
            }
        }
    }
}

proof fn lemma_link_phase_no_devices(d: MixerSnapshot, c: MixerSnapshot, n: nat)
    requires
        n <= c.link_outputs@.len(),
    ensures
        forall|i: int| 0 <= i < link_phase(d, c, n).len() ==> !(#[trigger] link_phase(d, c, n)[i] is SetSourceDevice),
    decreases n,
{
    if n > 0 {
        lemma_link_phase_no_devices(d, c, (n - 1) as nat);
        let a = link_phase(d, c, (n - 1) as nat);
        assert forall|i: int| 0 <= i < link_phase(d, c, n).len() implies !(#[trigger] link_phase(d, c, n)[i] is SetSourceDevice) by {
            if i < a.len() {
                assert(link_phase(d, c, n)[i] == a[i]);
            }
        }
    }
}

/// The settings pass of a profile whose every source has a current match, no
/// two the same, and whose physical sources' inputs the mixer has, gives the
/// current match of each saved physical source the input it asks for (none
/// when it has no attachment, else the first current physical input that is
/// its first attachment), and touches no other source's input, whatever the
/// sources' inputs were before.
pub proof fn lemma_settings_pass_restores_source_devices(
    d: MixerSnapshot,
    c: MixerSnapshot,
    f: spec_fn(Seq<char>) -> Option<Option<u32>>,
)
    requires
        first_unmatched(d, c) is None,
        inputs_resolvable(d, c),
        channel_ids_distinct(c),
        matches_distinct(d, c),
        forall|k: int| 0 <= k < c.channels@.len() ==> f((#[trigger] c.channels@[k]).id@) is Some,
    ensures
        forall|q: int|
            0 <= q < d.channels@.len() && (#[trigger] d.channels@[q]).source_kind == MixerSourceKind::Physical
                ==> device_commands_effect(f, settings_pass(d, c).0)(matched_id(d, c, q)) is Some && wanted_device(
                d.channels@[q],
                c,
                device_commands_effect(f, settings_pass(d, c).0)(matched_id(d, c, q))->0,
            ),
        forall|x: Seq<char>|
            (forall|q: int|
                0 <= q < d.channels@.len() && (#[trigger] d.channels@[q]).source_kind == MixerSourceKind::Physical
                    ==> matched_id(d, c, q) != x) ==> #[trigger] device_commands_effect(f, settings_pass(d, c).0)(x)
                == f(x),
{
    lemma_first_where_none(d.channels@.len(), unmatched_pred(d, c));
    assert forall|q: int| 0 <= q < d.channels@.len() implies current_match(#[trigger] d.channels@[q], c) is Some by {
        assert(!unmatched_pred(d, c)(q));
    }
    let chans = channel_phase(d, c, d.channels@.len());
    let tgts = target_phase(d, c, d.targets@.len());
    let links = link_phase(d, c, c.link_outputs@.len());
    lemma_channel_phase_devices(d, c, f, d.channels@.len());
    let after = device_commands_effect(f, chans);
    lemma_target_phase_no_devices(d, c, d.targets@.len());
    lemma_link_phase_no_devices(d, c, c.link_outputs@.len());
    let rest = tgts + links;
    assert forall|i: int| 0 <= i < rest.len() implies !(#[trigger] rest[i] is SetSourceDevice) by {
        if i < tgts.len() {
            assert(rest[i] == tgts[i]);
        } else {
            assert(rest[i] == links[i - tgts.len()]);
        }
    }
    lemma_no_device_commands(after, rest);
    assert(settings_pass(d, c).0 =~= chans + rest);
    lemma_device_effect_append(f, chans, rest);
}

} // verus!
