//! Mixer profiles: which saved profile may be applied to the current mixer,
//! and how saved sources are matched with current ones.
use vstd::prelude::*;
use crate::model::{
    AppSnapshot, BackendStatus, BridgeError, HeadphoneOutputMode, HeadphoneState, MicrophoneState,
    MixerChannel, MixerPhysicalDeviceDescriptor, MixerSnapshot, MixerSourceKind, StudioIdentity,
    StudioSnapshot, bridge_error_text, link_slot_spec, beacn_link_output_slot,
};
use crate::text::{
    ascii_lower_seq, eq_ignore_ascii_case, is_ascii_hex, str_eq, chars_of, decimal,
    decimal_string, push_str, str_trim, trim_seq, char_count, str_to_lowercase, unicode_lowercase,
};

verus! {

/// Two device descriptors name the same device: by node name when both have
/// one, and otherwise by a description that the first one has.
pub open spec fn device_matches(left: MixerPhysicalDeviceDescriptor, right: MixerPhysicalDeviceDescriptor) -> bool {
    if left.name is Some && right.name is Some {
        left.name->0@ == right.name->0@
    } else {
        left.description is Some && right.description is Some && left.description->0@
            == right.description->0@
    }
}

pub fn physical_device_matches(
    left: &MixerPhysicalDeviceDescriptor,
    right: &MixerPhysicalDeviceDescriptor,
) -> (r: bool)
    ensures
        r == device_matches(*left, *right),
{
    match (&left.name, &right.name) {
        (Some(l), Some(r)) => str_eq(l.as_str(), r.as_str()),
        _ => match (&left.description, &right.description) {
            (Some(l), Some(r)) => str_eq(l.as_str(), r.as_str()),
            _ => false,
        },
    }
}

/// A saved source and a current one are the same source: same kind, and
/// the same meter, the same id, or (for virtual sources) the same name
/// ignoring ASCII case.
pub open spec fn channels_match(left: MixerChannel, right: MixerChannel) -> bool {
    left.source_kind == right.source_kind && ((left.meter_id@.len() > 0 && left.meter_id@
        == right.meter_id@) || left.id@ == right.id@ || (left.source_kind
        == MixerSourceKind::Virtual && right.source_kind == MixerSourceKind::Virtual
        && ascii_lower_seq(left.name@) == ascii_lower_seq(right.name@)))
}

pub fn mixer_channels_match(left: &MixerChannel, right: &MixerChannel) -> (r: bool)
    ensures
        r == channels_match(*left, *right),
{
    left.source_kind == right.source_kind && ((left.meter_id.as_str().unicode_len() > 0
        && str_eq(left.meter_id.as_str(), right.meter_id.as_str())) || str_eq(
        left.id.as_str(),
        right.id.as_str(),
    ) || (left.source_kind == MixerSourceKind::Virtual && right.source_kind
        == MixerSourceKind::Virtual && eq_ignore_ascii_case(
        left.name.as_str(),
        right.name.as_str(),
    )))
}

/// `i` is the first current source that matches the saved one.
pub open spec fn is_first_match(desired: MixerChannel, current: Seq<MixerChannel>, i: int) -> bool {
    &&& 0 <= i < current.len()
    &&& channels_match(desired, current[i])
    &&& forall|j: int| 0 <= j < i ==> !channels_match(desired, #[trigger] current[j])
}

/// No current source matches the saved one.
pub open spec fn no_match(desired: MixerChannel, current: Seq<MixerChannel>) -> bool {
    forall|j: int| 0 <= j < current.len() ==> !channels_match(desired, #[trigger] current[j])
}

/// The position of the first current source that matches the saved one.
pub fn first_match_index(desired: &MixerChannel, current: &[MixerChannel]) -> (r: Option<usize>)
    ensures
        r matches Some(i) ==> is_first_match(*desired, current@, i as int),
        r is None ==> no_match(*desired, current@),
{
    let mut i: usize = 0;
    while i < current.len()
        invariant
            i <= current@.len(),
            forall|j: int| 0 <= j < i ==> !channels_match(*desired, #[trigger] current@[j]),
        decreases current@.len() - i,
    {
        if mixer_channels_match(desired, &current[i]) {
            return Some(i);
        }
        i = i + 1;
    }
    None
}

/// The current source that a saved source reconciles with: the first match.
pub fn current_channel_for_desired<'a>(desired: &MixerChannel, current: &'a [MixerChannel]) -> (r:
    Option<&'a MixerChannel>)
    ensures
        r matches Some(c) ==> exists|i: int| is_first_match(*desired, current@, i) && *c == current@[i],
        r is None ==> no_match(*desired, current@),
{
    match first_match_index(desired, current) {
        Some(i) => Some(&current[i]),
        None => None,
    }
}

/// A colour is three or six hexadecimal digits, optionally after `#`.
pub open spec fn colour_ok(colour: Seq<char>) -> bool {
    (hex_part(colour).len() == 3 || hex_part(colour).len() == 6) && forall|i: int|
        0 <= i < hex_part(colour).len() ==> is_ascii_hex(#[trigger] hex_part(colour)[i])
}

/// A colour without its leading `#`.
pub open spec fn hex_part(colour: Seq<char>) -> Seq<char> {
    if colour.len() > 0 && colour[0] == '#' {
        colour.drop_first()
    } else {
        colour
    }
}

pub fn valid_mixer_colour(colour: &str) -> (r: bool)
    ensures
        r == colour_ok(colour@),
{
    let chars = chars_of(colour);
    let start: usize = if chars.len() > 0 && chars[0] == '#' {
        1
    } else {
        0
    };
    let ghost hex = hex_part(colour@);
    let n = chars.len() - start;
    if n != 3 && n != 6 {
        return false;
    }
    let mut i = start;
    while i < chars.len()
        invariant
            start <= i <= chars@.len(),
            chars@ == colour@,
            start == (if colour@.len() > 0 && colour@[0] == '#' { 1usize } else { 0usize }),
            hex == hex_part(colour@),
            hex.len() == chars@.len() - start,
            forall|j: int| 0 <= j < i - start ==> is_ascii_hex(#[trigger] hex[j]),
        decreases chars@.len() - i,
    {
        let c = chars[i];
        if !(('a' <= c && c <= 'f') || ('A' <= c && c <= 'F') || ('0' <= c && c <= '9')) {
            assert(hex[i - start] == c);
            assert(!is_ascii_hex(hex[i - start]));
            assert(!colour_ok(colour@));
            return false;
        }
        assert(hex[i - start] == c);
        i = i + 1;
    }
    true
}

/// The studio snapshot shown while the BEACN Studio cannot be read.
pub fn disconnected_studio(error: BridgeError) -> (r: StudioSnapshot)
    ensures
        r.identity.status == BackendStatus::Error,
        r.identity.error matches Some(e) && e@ == bridge_error_text(error),
        r.identity.product@ == "BEACN Studio"@,
        r.identity.serial is None,
        r.identity.firmware is None,
        r.identity.usb_port@ == "USB1"@,
        !r.identity.driverless_mode,
        r.microphone == (MicrophoneState { gain_db: 0, phantom_power: false, muted: false }),
        r.headphones == (HeadphoneState {
            volume: 0,
            mic_monitor: 0,
            muted: false,
            channels_linked: false,
            output_mode: HeadphoneOutputMode::LineLevel,
            mic_output_gain_tenths_db: 0,
        }),
        r.linked_applications@.len() == 0,
{
    StudioSnapshot {
        identity: StudioIdentity {
            status: BackendStatus::Error,
            error: Some(error.message()),
            product: String::from_str("BEACN Studio"),
            serial: None,
            firmware: None,
            usb_port: String::from_str("USB1"),
            driverless_mode: false,
        },
        microphone: MicrophoneState { gain_db: 0, phantom_power: false, muted: false },
        headphones: HeadphoneState {
            volume: 0,
            mic_monitor: 0,
            muted: false,
            channels_linked: false,
            output_mode: HeadphoneOutputMode::LineLevel,
            mic_output_gain_tenths_db: 0,
        },
        linked_applications: Vec::new(),
    }
}

/// The mixer snapshot shown while PipeWeaver cannot be read.
pub fn disconnected_mixer(error: BridgeError) -> (r: MixerSnapshot)
    ensures
        r.status == BackendStatus::Error,
        r.error matches Some(e) && e@ == bridge_error_text(error),
        r.engine@ == "PipeWeaver"@,
        r.channels@.len() == 0,
        r.targets@.len() == 0,
        r.routes@.len() == 0,
        r.applications@.len() == 0,
        r.default_input is None,
        r.default_output is None,
        r.default_inputs@.len() == 0,
        r.default_outputs@.len() == 0,
        r.physical_outputs@.len() == 0,
        r.physical_inputs@.len() == 0,
        r.link_outputs@.len() == 0,
        r.copy_outputs@.len() == 0,
{
    MixerSnapshot {
        status: BackendStatus::Error,
        error: Some(error.message()),
        engine: String::from_str("PipeWeaver"),
        channels: Vec::new(),
        targets: Vec::new(),
        routes: Vec::new(),
        applications: Vec::new(),
        default_input: None,
        default_output: None,
        default_inputs: Vec::new(),
        default_outputs: Vec::new(),
        physical_outputs: Vec::new(),
        physical_inputs: Vec::new(),
        link_outputs: Vec::new(),
        copy_outputs: Vec::new(),
    }
}

/// The first error among items `0..n`, in order.
pub open spec fn first_error(n: nat, check: spec_fn(int) -> Option<Seq<char>>) -> Option<Seq<char>>
    decreases n,
{
    if n == 0 {
        None
    } else {
        match first_error((n - 1) as nat, check) {
            Some(e) => Some(e),
            None => check(n - 1),
        }
    }
}

/// Once an error is found, later items do not change it.
pub proof fn lemma_first_error_stable(n: nat, m: nat, check: spec_fn(int) -> Option<Seq<char>>)
    requires
        n <= m,
        first_error(n, check) is Some,
    ensures
        first_error(m, check) == first_error(n, check),
    decreases m,
{
    if m > n {
        lemma_first_error_stable(n, (m - 1) as nat, check);
    }
}

/// Some earlier saved source has the id.
pub open spec fn earlier_channel_id(d: MixerSnapshot, i: int, id: Seq<char>) -> bool {
    exists|j: int| 0 <= j < i && #[trigger] d.channels@[j].id@ == id
}

/// Some earlier saved source has the name, in Unicode lowercase.
pub open spec fn earlier_channel_name(d: MixerSnapshot, i: int, name: Seq<char>) -> bool {
    exists|j: int|
        0 <= j < i && unicode_lowercase(#[trigger] d.channels@[j].name@) == unicode_lowercase(name)
}

/// Some current physical input is the device.
pub open spec fn input_available(device: MixerPhysicalDeviceDescriptor, c: MixerSnapshot) -> bool {
    exists|k: int|
        0 <= k < c.physical_inputs@.len() && device_matches(
            device,
            #[trigger] c.physical_inputs@[k].descriptor,
        )
}

/// Renaming the current match of `ch` would collide with another current
/// source that the profile keeps.
pub open spec fn rename_collides(d: MixerSnapshot, c: MixerSnapshot, ch: MixerChannel) -> bool {
    exists|k: int|
        #![trigger is_first_match(ch, c.channels@, k)]
        is_first_match(ch, c.channels@, k) && c.channels@[k].name@ != ch.name@ && exists|o: int|
            0 <= o < c.channels@.len() && !channels_match(ch, #[trigger] c.channels@[o])
                && ascii_lower_seq(c.channels@[o].name@) == ascii_lower_seq(ch.name@)
                && !no_match_desired(d.channels@, c.channels@[o])
}

/// No saved source matches the current one.
pub open spec fn no_match_desired(desired: Seq<MixerChannel>, current: MixerChannel) -> bool {
    forall|q: int| 0 <= q < desired.len() ==> !channels_match(#[trigger] desired[q], current)
}

/// The first problem with saved source `i`.
pub open spec fn channel_error(d: MixerSnapshot, c: MixerSnapshot, i: int) -> Option<Seq<char>> {
    let ch = d.channels@[i];
    let name = ch.name@;
    let physical = ch.source_kind == MixerSourceKind::Physical;
    if earlier_channel_id(d, i, ch.id@) {
        Some("profile contains duplicate source id: "@ + ch.id@)
    } else if earlier_channel_name(d, i, name) {
        Some("profile contains duplicate source name: "@ + name)
    } else if trim_seq(name).len() == 0 || name.len() > 64 {
        Some("profile source names must contain 1 to 64 characters"@)
    } else if !colour_ok(ch.colour@) {
        Some("profile source has an invalid colour: "@ + name)
    } else if ch.personal_volume > 100 || ch.audience_volume > 100 {
        Some("profile source volume is outside 0 to 100: "@ + name)
    } else if physical && no_match(ch, c.channels@) {
        Some("profile physical source is unavailable: "@ + name)
    } else if physical && ch.attached_devices@.len() > 1 {
        Some("profile physical source has multiple inputs: "@ + name)
    } else if physical && ch.attached_devices@.len() == 1 && !input_available(
        ch.attached_devices@[0],
        c,
    ) {
        Some("profile physical input is unavailable: "@ + name)
    } else if rename_collides(d, c, ch) {
        Some("profile source rename would collide with another retained source: "@ + name)
    } else {
        None
    }
}

pub open spec fn channel_check(d: MixerSnapshot, c: MixerSnapshot) -> spec_fn(int) -> Option<Seq<char>> {
    |i: int| channel_error(d, c, i)
}

/// The Link slot of a saved attachment, read from its descriptor alone.
pub open spec fn attachment_slot(a: MixerPhysicalDeviceDescriptor) -> Option<u8> {
    link_slot_spec(Seq::empty(), a)
}

/// The number of attachments that are not Link outputs.
pub open spec fn non_link_count(s: Seq<MixerPhysicalDeviceDescriptor>) -> nat
    decreases s.len(),
{
    if s.len() == 0 {
        0
    } else {
        non_link_count(s.drop_last()) + if attachment_slot(s.last()) is None {
            1nat
        } else {
            0nat
        }
    }
}

/// Some current physical output that is not a Link output is the device.
pub open spec fn output_available(device: MixerPhysicalDeviceDescriptor, c: MixerSnapshot) -> bool {
    exists|k: int|
        0 <= k < c.physical_outputs@.len() && link_slot_spec(
            (#[trigger] c.physical_outputs@[k]).name@,
            c.physical_outputs@[k].descriptor,
        ) is None && device_matches(device, c.physical_outputs@[k].descriptor)
}

/// The current mixer has the Link output slot.
pub open spec fn link_slot_present(c: MixerSnapshot, slot: u8) -> bool {
    exists|k: int| 0 <= k < c.link_outputs@.len() && (#[trigger] c.link_outputs@[k]).slot == slot
}

/// The first attachment among `0..n` whose Link slot the current mixer lacks.
pub open spec fn missing_link_slot(s: Seq<MixerPhysicalDeviceDescriptor>, c: MixerSnapshot, n: nat) -> Option<u8>
    decreases n,
{
    if n == 0 {
        None
    } else {
        match missing_link_slot(s, c, (n - 1) as nat) {
            Some(x) => Some(x),
            None => match attachment_slot(s[n - 1]) {
                Some(slot) => if link_slot_present(c, slot) {
                    None
                } else {
                    Some(slot)
                },
                None => None,
            },
        }
    }
}

/// The current mixer has the target.
pub open spec fn target_present(c: MixerSnapshot, id: Seq<char>) -> bool {
    exists|k: int| 0 <= k < c.targets@.len() && (#[trigger] c.targets@[k]).id@ == id
}

/// The first problem with saved target `i`.
pub open spec fn target_error(d: MixerSnapshot, c: MixerSnapshot, i: int) -> Option<Seq<char>> {
    let t = d.targets@[i];
    let att = t.attached_devices@;
    if exists|j: int| 0 <= j < i && (#[trigger] d.targets@[j]).id@ == t.id@ {
        Some("profile contains duplicate target id: "@ + t.id@)
    } else if !target_present(c, t.id@) {
        Some("profile target is unavailable: "@ + t.id@)
    } else if t.volume > 100 {
        Some("profile target volume is outside 0 to 100: "@ + t.name@)
    } else if non_link_count(att) > 1 {
        Some("profile target has multiple non-Link outputs: "@ + t.name@)
    } else if exists|k: int|
        0 <= k < att.len() && attachment_slot(#[trigger] att[k]) is None && !output_available(
            att[k],
            c,
        ) {
        Some("profile physical output is unavailable: "@ + t.name@)
    } else if missing_link_slot(att, c, att.len()) is Some {
        Some("profile Link output is unavailable: "@ + decimal(
            missing_link_slot(att, c, att.len())->0 as nat,
        ))
    } else {
        None
    }
}

pub open spec fn target_check(d: MixerSnapshot, c: MixerSnapshot) -> spec_fn(int) -> Option<Seq<char>> {
    |i: int| target_error(d, c, i)
}

/// The profile has a saved source with the id.
pub open spec fn desired_channel_id(d: MixerSnapshot, id: Seq<char>) -> bool {
    exists|j: int| 0 <= j < d.channels@.len() && (#[trigger] d.channels@[j]).id@ == id
}

pub open spec fn route_error(d: MixerSnapshot, c: MixerSnapshot, i: int) -> Option<Seq<char>> {
    let r = d.routes@[i];
    if !desired_channel_id(d, r.source_id@) || !target_present(c, r.target_id@) {
        Some(
            "profile route references an unavailable endpoint: "@ + r.source_id@ + " -> "@
                + r.target_id@,
        )
    } else {
        None
    }
}

pub open spec fn route_check(d: MixerSnapshot, c: MixerSnapshot) -> spec_fn(int) -> Option<Seq<char>> {
    |i: int| route_error(d, c, i)
}

pub open spec fn application_error(d: MixerSnapshot, i: int) -> Option<Seq<char>> {
    let a = d.applications@[i];
    if a.channel_id is Some && !desired_channel_id(d, a.channel_id->0@) {
        Some(
            "profile application route references an unavailable source: "@ + a.process@ + "/"@
                + a.name@,
        )
    } else {
        None
    }
}

pub open spec fn application_check(d: MixerSnapshot) -> spec_fn(int) -> Option<Seq<char>> {
    |i: int| application_error(d, i)
}

/// Attachment `j` of saved target `i` maps to the Link slot.
pub open spec fn has_slot_at(d: MixerSnapshot, i: int, j: int, slot: u8) -> bool {
    0 <= i < d.targets@.len() && 0 <= j < d.targets@[i].attached_devices@.len()
        && attachment_slot(d.targets@[i].attached_devices@[j]) == Some(slot)
}

/// An attachment before attachment `j` of target `i` maps to the slot.
pub open spec fn slot_taken_before(d: MixerSnapshot, i: int, j: int, slot: u8) -> bool {
    (exists|i2: int, j2: int| 0 <= i2 < i && #[trigger] has_slot_at(d, i2, j2, slot)) || (exists|
        j2: int,
    | 0 <= j2 < j && #[trigger] has_slot_at(d, i, j2, slot))
}

/// The first Link slot of target `i`'s attachments `0..n` that an earlier
/// attachment already took.
pub open spec fn taken_slot_in(d: MixerSnapshot, i: int, n: nat) -> Option<u8>
    decreases n,
{
    if n == 0 {
        None
    } else {
        match taken_slot_in(d, i, (n - 1) as nat) {
            Some(x) => Some(x),
            None => match attachment_slot(d.targets@[i].attached_devices@[n - 1]) {
                Some(slot) => if slot_taken_before(d, i, n - 1, slot) {
                    Some(slot)
                } else {
                    None
                },
                None => None,
            },
        }
    }
}

pub open spec fn descriptor_slot_error(d: MixerSnapshot, i: int) -> Option<Seq<char>> {
    let n = d.targets@[i].attached_devices@.len();
    match taken_slot_in(d, i, n) {
        Some(slot) => Some(
            "profile assigns Link output "@ + decimal(slot as nat) + " to multiple targets"@,
        ),
        None => None,
    }
}

pub open spec fn descriptor_slot_check(d: MixerSnapshot) -> spec_fn(int) -> Option<Seq<char>> {
    |i: int| descriptor_slot_error(d, i)
}

/// The id of the first saved target among `0..n` with an attachment on the
/// Link slot.
pub open spec fn descriptor_target(d: MixerSnapshot, slot: u8, n: nat) -> Option<Seq<char>>
    decreases n,
{
    if n == 0 {
        None
    } else {
        match descriptor_target(d, slot, (n - 1) as nat) {
            Some(x) => Some(x),
            None => if exists|j: int| #[trigger] has_slot_at(d, n - 1, j, slot) {
                Some(d.targets@[n - 1].id@)
            } else {
                None
            },
        }
    }
}

pub open spec fn opt_chars_of(s: Option<String>) -> Option<Seq<char>> {
    match s {
        Some(t) => Some(t@),
        None => None,
    }
}

pub open spec fn link_output_error(d: MixerSnapshot, c: MixerSnapshot, i: int) -> Option<Seq<char>> {
    let l = d.link_outputs@[i];
    if !(1 <= l.slot <= 4) || exists|j: int| 0 <= j < i && (#[trigger] d.link_outputs@[j]).slot
        == l.slot {
        Some("profile contains an invalid or duplicate Link output slot: "@ + decimal(l.slot as nat))
    } else if !link_slot_present(c, l.slot) {
        Some("profile Link output is unavailable: "@ + decimal(l.slot as nat))
    } else if l.target_id is Some && !target_present(c, l.target_id->0@) {
        Some("profile Link output references an unavailable target: "@ + l.target_id->0@)
    } else if descriptor_target(d, l.slot, d.targets@.len()) != opt_chars_of(l.target_id) {
        Some(
            "profile Link output "@ + decimal(l.slot as nat)
                + " disagrees with saved target attachments"@,
        )
    } else {
        None
    }
}

pub open spec fn link_output_check(d: MixerSnapshot, c: MixerSnapshot) -> spec_fn(int) -> Option<Seq<char>> {
    |i: int| link_output_error(d, c, i)
}

/// A device choice offers the id.
pub open spec fn choice_present(choices: Seq<crate::model::MixerDeviceChoice>, id: Seq<char>) -> bool {
    exists|k: int| 0 <= k < choices.len() && (#[trigger] choices[k]).id@ == id
}

pub open spec fn defaults_error(d: MixerSnapshot, c: MixerSnapshot) -> Option<Seq<char>> {
    if d.default_input is Some && !choice_present(c.default_inputs@, d.default_input->0@) {
        Some("profile default input is unavailable: "@ + d.default_input->0@)
    } else if d.default_input is None && c.default_input is Some {
        Some(
            "profile would require clearing the default input, which PipeWeaver does not support"@,
        )
    } else if d.default_output is Some && !choice_present(
        c.default_outputs@,
        d.default_output->0@,
    ) {
        Some("profile default output is unavailable: "@ + d.default_output->0@)
    } else if d.default_output is None && c.default_output is Some {
        Some(
            "profile would require clearing the default output, which PipeWeaver does not support"@,
        )
    } else {
        None
    }
}

/// The first reason the saved profile `d` cannot be applied to the current
/// mixer `c`, checking sources, targets, routes, application routes, Link
/// attachments, Link outputs and defaults in that order.
pub open spec fn profile_error(d: MixerSnapshot, c: MixerSnapshot) -> Option<Seq<char>> {
    let phases = seq![
        first_error(d.channels@.len(), channel_check(d, c)),
        first_error(d.targets@.len(), target_check(d, c)),
        first_error(d.routes@.len(), route_check(d, c)),
        first_error(d.applications@.len(), application_check(d)),
        first_error(d.targets@.len(), descriptor_slot_check(d)),
        first_error(d.link_outputs@.len(), link_output_check(d, c)),
        defaults_error(d, c),
    ];
    if phases[0] is Some {
        phases[0]
    } else if phases[1] is Some {
        phases[1]
    } else if phases[2] is Some {
        phases[2]
    } else if phases[3] is Some {
        phases[3]
    } else if phases[4] is Some {
        phases[4]
    } else if phases[5] is Some {
        phases[5]
    } else {
        phases[6]
    }
}

proof fn lemma_first_error_none(n: nat, check: spec_fn(int) -> Option<Seq<char>>)
    requires
        first_error(n, check) is None,
    ensures
        forall|i: int| 0 <= i < n ==> (#[trigger] check(i)) is None,
    decreases n,
{
    if n > 0 {
        lemma_first_error_none((n - 1) as nat, check);
    }
}

proof fn lemma_no_missing_link_slot(s: Seq<MixerPhysicalDeviceDescriptor>, c: MixerSnapshot, n: nat)
    requires
        n <= s.len(),
        missing_link_slot(s, c, n) is None,
    ensures
        forall|k: int| 0 <= k < n && attachment_slot(#[trigger] s[k]) is Some ==> link_slot_present(
            c,
            attachment_slot(s[k])->0,
        ),
    decreases n,
{
    if n > 0 {
        lemma_no_missing_link_slot(s, c, (n - 1) as nat);
    }
}

/// A profile that passes validation against the current mixer is
/// consistent: its sources have distinct ids and distinct (lowercased)
/// names, each name 1 to 64 characters once trimmed, each colour valid and
/// each volume within 0 to 100; its targets have distinct ids, exist in the
/// mixer and have volumes within 0 to 100; every route joins a saved source
/// to a current target; every attachment of a saved target that is not a
/// Link output is some current physical output that is not a Link output,
/// and every Link attachment names a Link slot that the mixer has; every
/// application route names a saved source; its Link outputs have distinct
/// slots from 1 to 4 that the mixer has, each assigned to no target or to a
/// current one; and a default it leaves unset is unset in the mixer, while
/// one it sets is offered by the mixer.
pub proof fn lemma_accepted_profile_is_consistent(d: MixerSnapshot, c: MixerSnapshot)
    requires
        profile_error(d, c) is None,
    ensures
        forall|i: int, j: int| 0 <= i < j < d.channels@.len() ==> (#[trigger] d.channels@[i]).id@
            != (#[trigger] d.channels@[j]).id@ && unicode_lowercase(d.channels@[i].name@)
            != unicode_lowercase(d.channels@[j].name@),
        forall|i: int| 0 <= i < d.channels@.len() ==> {
            let ch = #[trigger] d.channels@[i];
            &&& trim_seq(ch.name@).len() > 0
            &&& ch.name@.len() <= 64
            &&& colour_ok(ch.colour@)
            &&& ch.personal_volume <= 100
            &&& ch.audience_volume <= 100
        },
        forall|i: int, j: int| 0 <= i < j < d.targets@.len() ==> (#[trigger] d.targets@[i]).id@
            != (#[trigger] d.targets@[j]).id@,
        forall|i: int| 0 <= i < d.targets@.len() ==> target_present(c, (#[trigger] d.targets@[i]).id@)
            && d.targets@[i].volume <= 100,
        forall|i: int| 0 <= i < d.routes@.len() ==> desired_channel_id(d, (#[trigger] d.routes@[i]).source_id@)
            && target_present(c, d.routes@[i].target_id@),
        forall|i: int, k: int|
            0 <= i < d.targets@.len() && 0 <= k < d.targets@[i].attached_devices@.len()
                && attachment_slot(#[trigger] d.targets@[i].attached_devices@[k]) is None ==> exists|m: int|
                0 <= m < c.physical_outputs@.len() && link_slot_spec(
                    (#[trigger] c.physical_outputs@[m]).name@,
                    c.physical_outputs@[m].descriptor,
                ) is None && device_matches(d.targets@[i].attached_devices@[k], c.physical_outputs@[m].descriptor),
        forall|i: int, k: int|
            0 <= i < d.targets@.len() && 0 <= k < d.targets@[i].attached_devices@.len()
                && attachment_slot(#[trigger] d.targets@[i].attached_devices@[k]) is Some ==> exists|m: int|
                0 <= m < c.link_outputs@.len() && (#[trigger] c.link_outputs@[m]).slot == attachment_slot(
                    d.targets@[i].attached_devices@[k],
                )->0,
        forall|i: int|
            0 <= i < d.applications@.len() && (#[trigger] d.applications@[i]).channel_id is Some
                ==> desired_channel_id(d, d.applications@[i].channel_id->0@),
        forall|i: int|
            0 <= i < d.link_outputs@.len() ==> 1 <= (#[trigger] d.link_outputs@[i]).slot <= 4
                && link_slot_present(c, d.link_outputs@[i].slot) && (d.link_outputs@[i].target_id matches Some(
                t,
            ) ==> target_present(c, t@)),
        forall|i: int, j: int|
            0 <= i < j < d.link_outputs@.len() ==> (#[trigger] d.link_outputs@[i]).slot
                != (#[trigger] d.link_outputs@[j]).slot,
        d.default_input is None ==> c.default_input is None,
        d.default_output is None ==> c.default_output is None,
        d.default_input matches Some(x) ==> choice_present(c.default_inputs@, x@),
        d.default_output matches Some(x) ==> choice_present(c.default_outputs@, x@),
{
    lemma_first_error_none(d.channels@.len(), channel_check(d, c));
    lemma_first_error_none(d.applications@.len(), application_check(d));
    lemma_first_error_none(d.link_outputs@.len(), link_output_check(d, c));
    assert forall|i: int|
        0 <= i < d.applications@.len() && (#[trigger] d.applications@[i]).channel_id is Some implies desired_channel_id(
            d,
            d.applications@[i].channel_id->0@,
        ) by {
        assert(application_check(d)(i) is None);
    }
    assert forall|i: int| 0 <= i < d.link_outputs@.len() implies 1 <= (#[trigger] d.link_outputs@[i]).slot <= 4
        && link_slot_present(c, d.link_outputs@[i].slot) && (d.link_outputs@[i].target_id matches Some(t)
        ==> target_present(c, t@)) by {
        assert(link_output_check(d, c)(i) is None);
    }
    assert forall|i: int, j: int| 0 <= i < j < d.link_outputs@.len() implies (#[trigger] d.link_outputs@[i]).slot
        != (#[trigger] d.link_outputs@[j]).slot by {
        assert(link_output_check(d, c)(j) is None);
    }
    assert forall|i: int, k: int|
        0 <= i < d.targets@.len() && 0 <= k < d.targets@[i].attached_devices@.len()
            && attachment_slot(#[trigger] d.targets@[i].attached_devices@[k]) is None implies exists|m: int|
            0 <= m < c.physical_outputs@.len() && link_slot_spec(
                (#[trigger] c.physical_outputs@[m]).name@,
                c.physical_outputs@[m].descriptor,
            ) is None && device_matches(d.targets@[i].attached_devices@[k], c.physical_outputs@[m].descriptor) by {
        lemma_first_error_none(d.targets@.len(), target_check(d, c));
        assert(target_check(d, c)(i) is None);
        assert(output_available(d.targets@[i].attached_devices@[k], c));
    }
    assert forall|i: int, k: int|
        0 <= i < d.targets@.len() && 0 <= k < d.targets@[i].attached_devices@.len()
            && attachment_slot(#[trigger] d.targets@[i].attached_devices@[k]) is Some implies exists|m: int|
            0 <= m < c.link_outputs@.len() && (#[trigger] c.link_outputs@[m]).slot == attachment_slot(
                d.targets@[i].attached_devices@[k],
            )->0 by {
        lemma_first_error_none(d.targets@.len(), target_check(d, c));
        assert(target_check(d, c)(i) is None);
        let att = d.targets@[i].attached_devices@;
        lemma_no_missing_link_slot(att, c, att.len());
        assert(link_slot_present(c, attachment_slot(att[k])->0));
    }
    lemma_first_error_none(d.targets@.len(), target_check(d, c));
    lemma_first_error_none(d.routes@.len(), route_check(d, c));
    assert forall|i: int, j: int| 0 <= i < j < d.channels@.len() implies (#[trigger] d.channels@[i]).id@
        != (#[trigger] d.channels@[j]).id@ && unicode_lowercase(d.channels@[i].name@)
        != unicode_lowercase(d.channels@[j].name@) by {
        assert(channel_check(d, c)(j) is None);
        assert(!earlier_channel_id(d, j, d.channels@[j].id@));
        assert(!earlier_channel_name(d, j, d.channels@[j].name@));
    }
    assert forall|i: int| 0 <= i < d.channels@.len() implies {
        let ch = #[trigger] d.channels@[i];
        &&& trim_seq(ch.name@).len() > 0
        &&& ch.name@.len() <= 64
        &&& colour_ok(ch.colour@)
        &&& ch.personal_volume <= 100
        &&& ch.audience_volume <= 100
    } by {
        assert(channel_check(d, c)(i) is None);
    }
    assert forall|i: int, j: int| 0 <= i < j < d.targets@.len() implies (#[trigger] d.targets@[i]).id@
        != (#[trigger] d.targets@[j]).id@ by {
        assert(target_check(d, c)(j) is None);
    }
    assert forall|i: int| 0 <= i < d.targets@.len() implies target_present(c, (#[trigger] d.targets@[i]).id@)
        && d.targets@[i].volume <= 100 by {
        assert(target_check(d, c)(i) is None);
    }
    assert forall|i: int| 0 <= i < d.routes@.len() implies desired_channel_id(d, (#[trigger] d.routes@[i]).source_id@)
        && target_present(c, d.routes@[i].target_id@) by {
        assert(route_check(d, c)(i) is None);
    }
}

/// Only one position is the first match.
pub proof fn lemma_first_match_unique(desired: MixerChannel, current: Seq<MixerChannel>, a: int, b: int)
    requires
        is_first_match(desired, current, a),
        is_first_match(desired, current, b),
    ensures
        a == b,
{
    if a < b {
        assert(!channels_match(desired, current[a]));
    } else if b < a {
        assert(!channels_match(desired, current[b]));
    }
}

fn earlier_channel_id_exec(d: &MixerSnapshot, i: usize, id: &str) -> (r: bool)
    requires
        i <= d.channels@.len(),
    ensures
        r == earlier_channel_id(*d, i as int, id@),
{
    let mut j: usize = 0;
    while j < i
        invariant
            j <= i,
            i <= d.channels@.len(),
            forall|k: int| 0 <= k < j ==> (#[trigger] d.channels@[k]).id@ != id@,
        decreases i - j,
    {
        if str_eq(d.channels[j].id.as_str(), id) {
            return true;
        }
        j = j + 1;
    }
    false
}

fn earlier_channel_name_exec(d: &MixerSnapshot, i: usize, name: &str) -> (r: bool)
    requires
        i <= d.channels@.len(),
    ensures
        r == earlier_channel_name(*d, i as int, name@),
{
    let lowered = str_to_lowercase(name);
    let mut j: usize = 0;
    while j < i
        invariant
            j <= i,
            i <= d.channels@.len(),
            lowered@ == unicode_lowercase(name@),
            forall|k: int|
                0 <= k < j ==> unicode_lowercase((#[trigger] d.channels@[k]).name@)
                    != unicode_lowercase(name@),
        decreases i - j,
    {
        let other = str_to_lowercase(d.channels[j].name.as_str());
        if str_eq(other.as_str(), lowered.as_str()) {
            return true;
        }
        j = j + 1;
    }
    false
}

fn input_available_exec(device: &MixerPhysicalDeviceDescriptor, c: &MixerSnapshot) -> (r: bool)
    ensures
        r == input_available(*device, *c),
{
    let mut k: usize = 0;
    while k < c.physical_inputs.len()
        invariant
            k <= c.physical_inputs@.len(),
            forall|m: int|
                0 <= m < k ==> !device_matches(*device, (#[trigger] c.physical_inputs@[m]).descriptor),
        decreases c.physical_inputs@.len() - k,
    {
        if physical_device_matches(device, &c.physical_inputs[k].descriptor) {
            return true;
        }
        k = k + 1;
    }
    false
}

fn desired_keeps(desired: &Vec<MixerChannel>, current: &MixerChannel) -> (r: bool)
    ensures
        r == !no_match_desired(desired@, *current),
{
    let mut q: usize = 0;
    while q < desired.len()
        invariant
            q <= desired@.len(),
            forall|m: int| 0 <= m < q ==> !channels_match(#[trigger] desired@[m], *current),
        decreases desired@.len() - q,
    {
        if mixer_channels_match(&desired[q], current) {
            return true;
        }
        q = q + 1;
    }
    false
}

fn rename_collides_exec(d: &MixerSnapshot, c: &MixerSnapshot, ch: &MixerChannel) -> (r: bool)
    ensures
        r == rename_collides(*d, *c, *ch),
{
    let cs = c.channels.as_slice();
    match first_match_index(ch, cs) {
        None => {
            assert forall|k: int| !is_first_match(*ch, c.channels@, k) by {
                if is_first_match(*ch, c.channels@, k) {
                    assert(!channels_match(*ch, c.channels@[k]));
                }
            }
            false
        },
        Some(k) => {
            if str_eq(c.channels[k].name.as_str(), ch.name.as_str()) {
                assert forall|k2: int| is_first_match(*ch, c.channels@, k2) implies c.channels@[k2].name@
                    == ch.name@ by {
                    lemma_first_match_unique(*ch, c.channels@, k as int, k2);
                }
                return false;
            }
            let mut o: usize = 0;
            while o < c.channels.len()
                invariant
                    o <= c.channels@.len(),
                    k < c.channels@.len(),
                    is_first_match(*ch, c.channels@, k as int),
                    c.channels@[k as int].name@ != ch.name@,
                    forall|m: int|
                        0 <= m < o ==> !(!channels_match(*ch, #[trigger] c.channels@[m])
                            && ascii_lower_seq(c.channels@[m].name@) == ascii_lower_seq(ch.name@)
                            && !no_match_desired(d.channels@, c.channels@[m])),
                decreases c.channels@.len() - o,
            {
                let other = &c.channels[o];
                if !mixer_channels_match(ch, other) && eq_ignore_ascii_case(
                    other.name.as_str(),
                    ch.name.as_str(),
                ) && desired_keeps(&d.channels, other) {
                    assert(is_first_match(*ch, c.channels@, k as int));
                    assert(!channels_match(*ch, c.channels@[o as int]));
                    return true;
                }
                o = o + 1;
            }
            assert forall|k2: int| is_first_match(*ch, c.channels@, k2) implies !(
            c.channels@[k2].name@ != ch.name@ && exists|o2: int|
                0 <= o2 < c.channels@.len() && !channels_match(*ch, #[trigger] c.channels@[o2])
                    && ascii_lower_seq(c.channels@[o2].name@) == ascii_lower_seq(ch.name@)
                    && !no_match_desired(d.channels@, c.channels@[o2])) by {}
            false
        },
    }
}

fn text2(a: &str, b: &str) -> (r: String)
    ensures
        r@ == a@ + b@,
{
    let mut s = String::from_str(a);
    push_str(&mut s, b);
    s
}

fn text_with_number(a: &str, n: u8, b: &str) -> (r: String)
    ensures
        r@ == a@ + decimal(n as nat) + b@,
{
    let mut s = String::from_str(a);
    let digits = decimal_string(n as u64);
    push_str(&mut s, digits.as_str());
    push_str(&mut s, b);
    s
}

fn channel_violation(d: &MixerSnapshot, c: &MixerSnapshot, i: usize) -> (r: Option<String>)
    requires
        i < d.channels@.len(),
    ensures
        opt_chars_of(r) == channel_error(*d, *c, i as int),
{
    let ch = &d.channels[i];
    let name = ch.name.as_str();
    let physical = ch.source_kind == MixerSourceKind::Physical;
    if earlier_channel_id_exec(d, i, ch.id.as_str()) {
        return Some(text2("profile contains duplicate source id: ", ch.id.as_str()));
    }
    if earlier_channel_name_exec(d, i, name) {
        return Some(text2("profile contains duplicate source name: ", name));
    }
    if str_trim(name).unicode_len() == 0 || char_count(name) > 64 {
        return Some(String::from_str("profile source names must contain 1 to 64 characters"));
    }
    if !valid_mixer_colour(ch.colour.as_str()) {
        return Some(text2("profile source has an invalid colour: ", name));
    }
    if ch.personal_volume > 100 || ch.audience_volume > 100 {
        return Some(text2("profile source volume is outside 0 to 100: ", name));
    }
    if physical {
        if first_match_index(ch, c.channels.as_slice()).is_none() {
            return Some(text2("profile physical source is unavailable: ", name));
        }
        if ch.attached_devices.len() > 1 {
            return Some(text2("profile physical source has multiple inputs: ", name));
        }
        if ch.attached_devices.len() == 1 && !input_available_exec(&ch.attached_devices[0], c) {
            return Some(text2("profile physical input is unavailable: ", name));
        }
    }
    if rename_collides_exec(d, c, ch) {
        return Some(text2("profile source rename would collide with another retained source: ", name));
    }
    None
}

proof fn lemma_missing_slot_stable(s: Seq<MixerPhysicalDeviceDescriptor>, c: MixerSnapshot, n: nat, m: nat)
    requires
        n <= m,
        missing_link_slot(s, c, n) is Some,
    ensures
        missing_link_slot(s, c, m) == missing_link_slot(s, c, n),
    decreases m,
{
    if m > n {
        lemma_missing_slot_stable(s, c, n, (m - 1) as nat);
    }
}

fn attachment_slot_exec(a: &MixerPhysicalDeviceDescriptor) -> (r: Option<u8>)
    ensures
        r == attachment_slot(*a),
{
    proof {
        reveal_strlit("");
        assert(""@ =~= Seq::<char>::empty());
    }
    beacn_link_output_slot("", a)
}

fn target_present_exec(c: &MixerSnapshot, id: &str) -> (r: bool)
    ensures
        r == target_present(*c, id@),
{
    let mut k: usize = 0;
    while k < c.targets.len()
        invariant
            k <= c.targets@.len(),
            forall|m: int| 0 <= m < k ==> (#[trigger] c.targets@[m]).id@ != id@,
        decreases c.targets@.len() - k,
    {
        if str_eq(c.targets[k].id.as_str(), id) {
            return true;
        }
        k = k + 1;
    }
    false
}

fn link_slot_present_exec(c: &MixerSnapshot, slot: u8) -> (r: bool)
    ensures
        r == link_slot_present(*c, slot),
{
    let mut k: usize = 0;
    while k < c.link_outputs.len()
        invariant
            k <= c.link_outputs@.len(),
            forall|m: int| 0 <= m < k ==> (#[trigger] c.link_outputs@[m]).slot != slot,
        decreases c.link_outputs@.len() - k,
    {
        if c.link_outputs[k].slot == slot {
            return true;
        }
        k = k + 1;
    }
    false
}

fn output_available_exec(device: &MixerPhysicalDeviceDescriptor, c: &MixerSnapshot) -> (r: bool)
    ensures
        r == output_available(*device, *c),
{
    let mut k: usize = 0;
    while k < c.physical_outputs.len()
        invariant
            k <= c.physical_outputs@.len(),
            forall|m: int|
                0 <= m < k ==> !(link_slot_spec(
                    (#[trigger] c.physical_outputs@[m]).name@,
                    c.physical_outputs@[m].descriptor,
                ) is None && device_matches(*device, c.physical_outputs@[m].descriptor)),
        decreases c.physical_outputs@.len() - k,
    {
        let output = &c.physical_outputs[k];
        if beacn_link_output_slot(output.name.as_str(), &output.descriptor).is_none()
            && physical_device_matches(device, &output.descriptor) {
            return true;
        }
        k = k + 1;
    }
    false
}

fn non_link_count_exec(att: &Vec<MixerPhysicalDeviceDescriptor>) -> (r: usize)
    ensures
        r == non_link_count(att@),
{
    let mut k: usize = 0;
    let mut count: usize = 0;
    while k < att.len()
        invariant
            k <= att@.len(),
            count == non_link_count(att@.subrange(0, k as int)),
            count <= k,
        decreases att@.len() - k,
    {
        assert(att@.subrange(0, k + 1).drop_last() =~= att@.subrange(0, k as int));
        if attachment_slot_exec(&att[k]).is_none() {
            count = count + 1;
        }
        k = k + 1;
    }
    assert(att@.subrange(0, att@.len() as int) =~= att@);
    count
}

fn missing_link_slot_exec(att: &Vec<MixerPhysicalDeviceDescriptor>, c: &MixerSnapshot) -> (r: Option<u8>)
    ensures
        r == missing_link_slot(att@, *c, att@.len()),
{
    let mut k: usize = 0;
    while k < att.len()
        invariant
            k <= att@.len(),
            missing_link_slot(att@, *c, k as nat) is None,
        decreases att@.len() - k,
    {
        match attachment_slot_exec(&att[k]) {
            Some(slot) => {
                if !link_slot_present_exec(c, slot) {
                    proof {
                        lemma_missing_slot_stable(att@, *c, (k + 1) as nat, att@.len());
                    }
                    return Some(slot);
                }
            },
            None => {},
        }
        k = k + 1;
    }
    None
}

fn physical_output_missing(att: &Vec<MixerPhysicalDeviceDescriptor>, c: &MixerSnapshot) -> (r: bool)
    ensures
        r == exists|k: int|
            0 <= k < att@.len() && attachment_slot(#[trigger] att@[k]) is None && !output_available(
                att@[k],
                *c,
            ),
{
    let mut k: usize = 0;
    while k < att.len()
        invariant
            k <= att@.len(),
            forall|m: int|
                0 <= m < k ==> !(attachment_slot(#[trigger] att@[m]) is None && !output_available(
                    att@[m],
                    *c,
                )),
        decreases att@.len() - k,
    {
        if attachment_slot_exec(&att[k]).is_none() && !output_available_exec(&att[k], c) {
            return true;
        }
        k = k + 1;
    }
    false
}

fn target_violation(d: &MixerSnapshot, c: &MixerSnapshot, i: usize) -> (r: Option<String>)
    requires
        i < d.targets@.len(),
    ensures
        opt_chars_of(r) == target_error(*d, *c, i as int),
{
    let t = &d.targets[i];
    let att = &t.attached_devices;
    let mut j: usize = 0;
    while j < i
        invariant
            j <= i,
            i < d.targets@.len(),
            t == d.targets@[i as int],
            forall|m: int| 0 <= m < j ==> (#[trigger] d.targets@[m]).id@ != t.id@,
        decreases i - j,
    {
        if str_eq(d.targets[j].id.as_str(), t.id.as_str()) {
            return Some(text2("profile contains duplicate target id: ", t.id.as_str()));
        }
        j = j + 1;
    }
    if !target_present_exec(c, t.id.as_str()) {
        return Some(text2("profile target is unavailable: ", t.id.as_str()));
    }
    if t.volume > 100 {
        return Some(text2("profile target volume is outside 0 to 100: ", t.name.as_str()));
    }
    if non_link_count_exec(att) > 1 {
        return Some(text2("profile target has multiple non-Link outputs: ", t.name.as_str()));
    }
    if physical_output_missing(att, c) {
        return Some(text2("profile physical output is unavailable: ", t.name.as_str()));
    }
    match missing_link_slot_exec(att, c) {
        Some(slot) => {
            proof {
                reveal_strlit("");
            }
            let text = text_with_number("profile Link output is unavailable: ", slot, "");
            assert(text@ =~= "profile Link output is unavailable: "@ + decimal(slot as nat));
            Some(text)
        },
        None => None,
    }
}

fn route_violation(d: &MixerSnapshot, c: &MixerSnapshot, i: usize) -> (r: Option<String>)
    requires
        i < d.routes@.len(),
    ensures
        opt_chars_of(r) == route_error(*d, *c, i as int),
{
    let route = &d.routes[i];
    if !desired_channel_id_exec(d, route.source_id.as_str()) || !target_present_exec(
        c,
        route.target_id.as_str(),
    ) {
        let mut text = String::from_str("profile route references an unavailable endpoint: ");
        push_str(&mut text, route.source_id.as_str());
        push_str(&mut text, " -> ");
        push_str(&mut text, route.target_id.as_str());
        return Some(text);
    }
    None
}

fn desired_channel_id_exec(d: &MixerSnapshot, id: &str) -> (r: bool)
    ensures
        r == desired_channel_id(*d, id@),
{
    let mut j: usize = 0;
    while j < d.channels.len()
        invariant
            j <= d.channels@.len(),
            forall|m: int| 0 <= m < j ==> (#[trigger] d.channels@[m]).id@ != id@,
        decreases d.channels@.len() - j,
    {
        if str_eq(d.channels[j].id.as_str(), id) {
            return true;
        }
        j = j + 1;
    }
    false
}

fn application_violation(d: &MixerSnapshot, i: usize) -> (r: Option<String>)
    requires
        i < d.applications@.len(),
    ensures
        opt_chars_of(r) == application_error(*d, i as int),
{
    let app = &d.applications[i];
    match &app.channel_id {
        Some(id) => {
            if !desired_channel_id_exec(d, id.as_str()) {
                let mut text = String::from_str(
                    "profile application route references an unavailable source: ",
                );
                push_str(&mut text, app.process.as_str());
                push_str(&mut text, "/");
                push_str(&mut text, app.name.as_str());
                return Some(text);
            }
            None
        },
        None => None,
    }
}

fn target_has_slot(d: &MixerSnapshot, i: usize, upto: usize, slot: u8) -> (r: bool)
    requires
        i < d.targets@.len(),
        upto <= d.targets@[i as int].attached_devices@.len(),
    ensures
        r == exists|j: int| 0 <= j < upto && #[trigger] has_slot_at(*d, i as int, j, slot),
{
    let att = &d.targets[i].attached_devices;
    let mut j: usize = 0;
    while j < upto
        invariant
            j <= upto,
            i < d.targets@.len(),
            att == d.targets@[i as int].attached_devices,
            upto <= att@.len(),
            forall|m: int| 0 <= m < j ==> !(#[trigger] has_slot_at(*d, i as int, m, slot)),
        decreases upto - j,
    {
        match attachment_slot_exec(&att[j]) {
            Some(s) => {
                if s == slot {
                    assert(has_slot_at(*d, i as int, j as int, slot));
                    return true;
                }
            },
            None => {},
        }
        j = j + 1;
    }
    assert forall|m: int| 0 <= m < upto implies !(#[trigger] has_slot_at(*d, i as int, m, slot)) by {}
    false
}

fn slot_taken_before_exec(d: &MixerSnapshot, i: usize, j: usize, slot: u8) -> (r: bool)
    requires
        i < d.targets@.len(),
        j <= d.targets@[i as int].attached_devices@.len(),
    ensures
        r == slot_taken_before(*d, i as int, j as int, slot),
{
    let mut i2: usize = 0;
    while i2 < i
        invariant
            i2 <= i,
            i < d.targets@.len(),
            forall|m: int, n: int| 0 <= m < i2 ==> !(#[trigger] has_slot_at(*d, m, n, slot)),
        decreases i - i2,
    {
        let n = d.targets[i2].attached_devices.len();
        if target_has_slot(d, i2, n, slot) {
            return true;
        }
        assert forall|m: int, k: int| 0 <= m < i2 + 1 implies !(#[trigger] has_slot_at(*d, m, k, slot)) by {
            if m == i2 as int {
                if 0 <= k < n {
                } else {
                }
            }
        }
        i2 = i2 + 1;
    }
    target_has_slot(d, i, j, slot)
}

proof fn lemma_taken_slot_stable(d: MixerSnapshot, i: int, n: nat, m: nat)
    requires
        n <= m,
        taken_slot_in(d, i, n) is Some,
    ensures
        taken_slot_in(d, i, m) == taken_slot_in(d, i, n),
    decreases m,
{
    if m > n {
        lemma_taken_slot_stable(d, i, n, (m - 1) as nat);
    }
}

fn descriptor_slot_violation(d: &MixerSnapshot, i: usize) -> (r: Option<String>)
    requires
        i < d.targets@.len(),
    ensures
        opt_chars_of(r) == descriptor_slot_error(*d, i as int),
{
    let att = &d.targets[i].attached_devices;
    let mut j: usize = 0;
    while j < att.len()
        invariant
            j <= att@.len(),
            i < d.targets@.len(),
            att == d.targets@[i as int].attached_devices,
            taken_slot_in(*d, i as int, j as nat) is None,
        decreases att@.len() - j,
    {
        match attachment_slot_exec(&att[j]) {
            Some(slot) => {
                if slot_taken_before_exec(d, i, j, slot) {
                    proof {
                        lemma_taken_slot_stable(*d, i as int, (j + 1) as nat, att@.len());
                    }
                    return Some(
                        text_with_number("profile assigns Link output ", slot, " to multiple targets"),
                    );
                }
            },
            None => {},
        }
        j = j + 1;
    }
    None
}

proof fn lemma_descriptor_target_stable(d: MixerSnapshot, slot: u8, n: nat, m: nat)
    requires
        n <= m,
        descriptor_target(d, slot, n) is Some,
    ensures
        descriptor_target(d, slot, m) == descriptor_target(d, slot, n),
    decreases m,
{
    if m > n {
        lemma_descriptor_target_stable(d, slot, n, (m - 1) as nat);
    }
}

fn descriptor_target_exec(d: &MixerSnapshot, slot: u8) -> (r: Option<&str>)
    ensures
        match r {
            Some(t) => descriptor_target(*d, slot, d.targets@.len()) == Some(t@),
            None => descriptor_target(*d, slot, d.targets@.len()) is None,
        },
{
    let mut i: usize = 0;
    while i < d.targets.len()
        invariant
            i <= d.targets@.len(),
            descriptor_target(*d, slot, i as nat) is None,
        decreases d.targets@.len() - i,
    {
        let n = d.targets[i].attached_devices.len();
        if target_has_slot(d, i, n, slot) {
            proof {
                lemma_descriptor_target_stable(*d, slot, (i + 1) as nat, d.targets@.len());
            }
            return Some(d.targets[i].id.as_str());
        }
        proof {
            assert forall|j: int| !(#[trigger] has_slot_at(*d, i as int, j, slot)) by {
                if 0 <= j < n {
                } else {
                }
            }
        }
        i = i + 1;
    }
    None
}

fn opt_matches(a: Option<&str>, b: &Option<String>) -> (r: bool)
    ensures
        r == (match a {
            Some(x) => Some(x@),
            None => None,
        } == opt_chars_of(*b)),
{
    match (a, b) {
        (Some(x), Some(y)) => str_eq(x, y.as_str()),
        (None, None) => true,
        _ => false,
    }
}

fn link_output_violation(d: &MixerSnapshot, c: &MixerSnapshot, i: usize) -> (r: Option<String>)
    requires
        i < d.link_outputs@.len(),
    ensures
        opt_chars_of(r) == link_output_error(*d, *c, i as int),
{
    let link = &d.link_outputs[i];
    let slot = link.slot;
    let mut duplicate = false;
    let mut j: usize = 0;
    while j < i
        invariant
            j <= i,
            i < d.link_outputs@.len(),
            slot == d.link_outputs@[i as int].slot,
            duplicate == exists|m: int| 0 <= m < j && (#[trigger] d.link_outputs@[m]).slot == slot,
        decreases i - j,
    {
        if d.link_outputs[j].slot == slot {
            duplicate = true;
        }
        j = j + 1;
    }
    if !(1 <= slot && slot <= 4) || duplicate {
        proof {
            reveal_strlit("");
        }
        let text = text_with_number("profile contains an invalid or duplicate Link output slot: ", slot, "");
        assert(text@ =~= "profile contains an invalid or duplicate Link output slot: "@ + decimal(slot as nat));
        return Some(text);
    }
    if !link_slot_present_exec(c, slot) {
        proof {
            reveal_strlit("");
        }
        let text = text_with_number("profile Link output is unavailable: ", slot, "");
        assert(text@ =~= "profile Link output is unavailable: "@ + decimal(slot as nat));
        return Some(text);
    }
    match &link.target_id {
        Some(t) => {
            if !target_present_exec(c, t.as_str()) {
                return Some(text2("profile Link output references an unavailable target: ", t.as_str()));
            }
        },
        None => {},
    }
    let found = descriptor_target_exec(d, slot);
    if !opt_matches(found, &link.target_id) {
        return Some(
            text_with_number("profile Link output ", slot, " disagrees with saved target attachments"),
        );
    }
    None
}

fn choice_present_exec(choices: &Vec<crate::model::MixerDeviceChoice>, id: &str) -> (r: bool)
    ensures
        r == choice_present(choices@, id@),
{
    let mut k: usize = 0;
    while k < choices.len()
        invariant
            k <= choices@.len(),
            forall|m: int| 0 <= m < k ==> (#[trigger] choices@[m]).id@ != id@,
        decreases choices@.len() - k,
    {
        if str_eq(choices[k].id.as_str(), id) {
            return true;
        }
        k = k + 1;
    }
    false
}

fn defaults_violation(d: &MixerSnapshot, c: &MixerSnapshot) -> (r: Option<String>)
    ensures
        opt_chars_of(r) == defaults_error(*d, *c),
{
    match &d.default_input {
        Some(input) => {
            if !choice_present_exec(&c.default_inputs, input.as_str()) {
                return Some(text2("profile default input is unavailable: ", input.as_str()));
            }
        },
        None => {
            if c.default_input.is_some() {
                return Some(
                    String::from_str(
                        "profile would require clearing the default input, which PipeWeaver does not support",
                    ),
                );
            }
        },
    }
    match &d.default_output {
        Some(output) => {
            if !choice_present_exec(&c.default_outputs, output.as_str()) {
                return Some(text2("profile default output is unavailable: ", output.as_str()));
            }
        },
        None => {
            if c.default_output.is_some() {
                return Some(
                    String::from_str(
                        "profile would require clearing the default output, which PipeWeaver does not support",
                    ),
                );
            }
        },
    }
    None
}

fn invalid(message: String) -> (r: Result<(), BridgeError>)
    ensures
        r matches Err(BridgeError::InvalidValue(m)) && m@ == message@,
{
    Err(BridgeError::InvalidValue(message))
}

/// Checks that a saved profile can be applied to the current mixer without
/// touching anything: it fails with the first reason it cannot.
pub fn validate_mixer_profile(desired: &MixerSnapshot, current: &MixerSnapshot) -> (r: Result<
    (),
    BridgeError,
>)
    ensures
        r is Ok <==> profile_error(*desired, *current) is None,
        r is Err ==> (r matches Err(BridgeError::InvalidValue(m)) && profile_error(
            *desired,
            *current,
        ) == Some(m@)),
{
    let ghost d = *desired;
    let ghost c = *current;
    let mut i: usize = 0;
    while i < desired.channels.len()
        invariant
            i <= desired.channels@.len(),
            first_error(i as nat, channel_check(*desired, *current)) is None,
        decreases desired.channels@.len() - i,
    {
        match channel_violation(desired, current, i) {
            Some(m) => {
                proof {
                    lemma_first_error_stable((i + 1) as nat, desired.channels@.len(), channel_check(*desired, *current));
                }
                return invalid(m);
            },
            None => {},
        }
        i = i + 1;
    }
    let mut i: usize = 0;
    while i < desired.targets.len()
        invariant
            i <= desired.targets@.len(),
            first_error(desired.channels@.len(), channel_check(*desired, *current)) is None,
            first_error(i as nat, target_check(*desired, *current)) is None,
        decreases desired.targets@.len() - i,
    {
        match target_violation(desired, current, i) {
            Some(m) => {
                proof {
                    lemma_first_error_stable((i + 1) as nat, desired.targets@.len(), target_check(*desired, *current));
                }
                return invalid(m);
            },
            None => {},
        }
        i = i + 1;
    }
    let mut i: usize = 0;
    while i < desired.routes.len()
        invariant
            i <= desired.routes@.len(),
            first_error(desired.channels@.len(), channel_check(*desired, *current)) is None,
            first_error(desired.targets@.len(), target_check(*desired, *current)) is None,
            first_error(i as nat, route_check(*desired, *current)) is None,
        decreases desired.routes@.len() - i,
    {
        match route_violation(desired, current, i) {
            Some(m) => {
                proof {
                    lemma_first_error_stable((i + 1) as nat, desired.routes@.len(), route_check(*desired, *current));
                }
                return invalid(m);
            },
            None => {},
        }
        i = i + 1;
    }
    let mut i: usize = 0;
    while i < desired.applications.len()
        invariant
            i <= desired.applications@.len(),
            first_error(desired.channels@.len(), channel_check(*desired, *current)) is None,
            first_error(desired.targets@.len(), target_check(*desired, *current)) is None,
            first_error(desired.routes@.len(), route_check(*desired, *current)) is None,
            first_error(i as nat, application_check(*desired)) is None,
        decreases desired.applications@.len() - i,
    {
        match application_violation(desired, i) {
            Some(m) => {
                proof {
                    lemma_first_error_stable((i + 1) as nat, desired.applications@.len(), application_check(*desired));
                }
                return invalid(m);
            },
            None => {},
        }
        i = i + 1;
    }
    let mut i: usize = 0;
    while i < desired.targets.len()
        invariant
            i <= desired.targets@.len(),
            first_error(desired.channels@.len(), channel_check(*desired, *current)) is None,
            first_error(desired.targets@.len(), target_check(*desired, *current)) is None,
            first_error(desired.routes@.len(), route_check(*desired, *current)) is None,
            first_error(desired.applications@.len(), application_check(*desired)) is None,
            first_error(i as nat, descriptor_slot_check(*desired)) is None,
        decreases desired.targets@.len() - i,
    {
        match descriptor_slot_violation(desired, i) {
            Some(m) => {
                proof {
                    lemma_first_error_stable((i + 1) as nat, desired.targets@.len(), descriptor_slot_check(*desired));
                }
                return invalid(m);
            },
            None => {},
        }
        i = i + 1;
    }
    let mut i: usize = 0;
    while i < desired.link_outputs.len()
        invariant
            i <= desired.link_outputs@.len(),
            first_error(desired.channels@.len(), channel_check(*desired, *current)) is None,
            first_error(desired.targets@.len(), target_check(*desired, *current)) is None,
            first_error(desired.routes@.len(), route_check(*desired, *current)) is None,
            first_error(desired.applications@.len(), application_check(*desired)) is None,
            first_error(desired.targets@.len(), descriptor_slot_check(*desired)) is None,
            first_error(i as nat, link_output_check(*desired, *current)) is None,
        decreases desired.link_outputs@.len() - i,
    {
        match link_output_violation(desired, current, i) {
            Some(m) => {
                proof {
                    lemma_first_error_stable((i + 1) as nat, desired.link_outputs@.len(), link_output_check(*desired, *current));
                }
                return invalid(m);
            },
            None => {},
        }
        i = i + 1;
    }
    match defaults_violation(desired, current) {
        Some(m) => invalid(m),
        None => Ok(()),
    }
}

} // verus!
