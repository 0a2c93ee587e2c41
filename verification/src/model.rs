//! The studio and mixer state model shared by the daemon, its backends and the
//! desktop client.
use vstd::prelude::*;
use crate::text::{ascii_lower, is_ascii_alnum, seq_contains, digit_char, chars_of, string_push, char_to_ascii_lower, str_contains, push_str};

verus! {

#[derive(Debug, Clone, Copy, PartialEq, Eq, Structural)]
pub enum BackendStatus {
    Connected,
    Disconnected,
    Mock,
    Error,
}

#[derive(Debug, Clone, PartialEq, Eq)]
pub struct StudioIdentity {
    pub status: BackendStatus,
    pub error: Option<String>,
    pub product: String,
    pub serial: Option<String>,
    pub firmware: Option<String>,
    pub usb_port: String,
    pub driverless_mode: bool,
}

#[derive(Debug, Clone, Copy, PartialEq, Eq, Structural)]
pub struct MicrophoneState {
    pub gain_db: u8,
    pub phantom_power: bool,
    pub muted: bool,
}

#[derive(Debug, Clone, Copy, PartialEq, Eq, Structural)]
pub enum HeadphoneOutputMode {
    InEarMonitors,
    LineLevel,
    NormalPower,
    HighImpedance,
}

impl Default for HeadphoneOutputMode {
    fn default() -> (r: Self)
        ensures
            r == HeadphoneOutputMode::LineLevel,
    {
        HeadphoneOutputMode::LineLevel
    }
}

#[derive(Debug, Clone, Copy, PartialEq, Eq, Structural)]
pub struct HeadphoneState {
    pub volume: u8,
    pub mic_monitor: u8,
    pub muted: bool,
    pub channels_linked: bool,
    pub output_mode: HeadphoneOutputMode,
    pub mic_output_gain_tenths_db: u16,
}

#[derive(Debug, Clone, Copy, PartialEq, Eq, Structural)]
pub enum LinkChannel {
    System,
    Link1,
    Link2,
    Link3,
    Link4,
}

#[derive(Debug, Clone, PartialEq, Eq)]
pub struct LinkedApplication {
    pub name: String,
    pub channel: LinkChannel,
}

#[derive(Debug, Clone, PartialEq, Eq)]
pub struct StudioSnapshot {
    pub identity: StudioIdentity,
    pub microphone: MicrophoneState,
    pub headphones: HeadphoneState,
    pub linked_applications: Vec<LinkedApplication>,
}

#[derive(Debug, Clone, Copy, PartialEq, Eq, Structural)]
pub enum MuteState {
    Unmuted,
    MutedAll,
    MutedAudience,
    MutedPersonal,
}

#[derive(Debug, Clone, Copy, PartialEq, Eq, Structural)]
pub enum MixerSourceKind {
    Physical,
    Virtual,
}

#[derive(Debug, Clone, Copy, PartialEq, Eq, Structural)]
pub enum MixBus {
    Personal,
    Audience,
}

#[derive(Debug, Clone, PartialEq, Eq)]
pub struct MixerPhysicalDeviceDescriptor {
    pub name: Option<String>,
    pub description: Option<String>,
}

#[derive(Debug, Clone, PartialEq, Eq)]
pub struct MixerChannel {
    pub id: String,
    pub meter_id: String,
    pub name: String,
    pub colour: String,
    pub personal_volume: u8,
    pub audience_volume: u8,
    pub mute_state: MuteState,
    pub applications: Vec<String>,
    pub source_kind: MixerSourceKind,
    pub volumes_linked: bool,
    pub attached_devices: Vec<MixerPhysicalDeviceDescriptor>,
}

#[derive(Debug, Clone, PartialEq, Eq)]
pub struct MixerTarget {
    pub id: String,
    pub meter_id: String,
    pub name: String,
    pub mix: MixBus,
    pub volume: u8,
    pub muted: bool,
    pub attached_devices: Vec<MixerPhysicalDeviceDescriptor>,
}

#[derive(Debug, Clone, PartialEq, Eq)]
pub struct MixerRoute {
    pub source_id: String,
    pub target_id: String,
}

#[derive(Debug, Clone, PartialEq, Eq)]
pub struct MixerApplication {
    pub process: String,
    pub name: String,
    pub title: Option<String>,
    pub channel_id: Option<String>,
}

#[derive(Debug, Clone, PartialEq, Eq)]
pub struct MixerDeviceChoice {
    pub id: String,
    pub name: String,
}

#[derive(Debug, Clone, PartialEq, Eq)]
pub struct MixerPhysicalDeviceChoice {
    pub node_id: u32,
    pub name: String,
    pub descriptor: MixerPhysicalDeviceDescriptor,
}

#[derive(Debug, Clone, PartialEq, Eq)]
pub struct MixerLinkOutputAssignment {
    pub slot: u8,
    pub node_id: u32,
    pub name: String,
    pub target_id: Option<String>,
}

#[derive(Debug, Clone, PartialEq, Eq)]
pub struct MixerCopyOutputAssignment {
    pub target_id: String,
    pub output: Option<MixerPhysicalDeviceDescriptor>,
}

/// Schema-versioned commit evidence for a copy-output write, for detecting
/// accidental corruption or staleness; it is not an authentication mechanism.
#[derive(Debug, Clone, PartialEq, Eq)]
pub struct MixerCopyOutputCommitEvidence {
    pub version: u8,
    pub assignment: MixerCopyOutputAssignment,
    pub voice_chat_attachments: Vec<MixerPhysicalDeviceDescriptor>,
}

/// The mixer state. An empty `copy_outputs` is a legacy snapshot that does not
/// manage copy outputs; an entry whose output is `None` explicitly selects none.
#[derive(Debug, Clone, PartialEq, Eq)]
pub struct MixerSnapshot {
    pub status: BackendStatus,
    pub error: Option<String>,
    pub engine: String,
    pub channels: Vec<MixerChannel>,
    pub targets: Vec<MixerTarget>,
    pub routes: Vec<MixerRoute>,
    pub applications: Vec<MixerApplication>,
    pub default_input: Option<String>,
    pub default_output: Option<String>,
    pub default_inputs: Vec<MixerDeviceChoice>,
    pub default_outputs: Vec<MixerDeviceChoice>,
    pub physical_outputs: Vec<MixerPhysicalDeviceChoice>,
    pub physical_inputs: Vec<MixerPhysicalDeviceChoice>,
    pub link_outputs: Vec<MixerLinkOutputAssignment>,
    pub copy_outputs: Vec<MixerCopyOutputAssignment>,
}

#[derive(Debug, Clone, PartialEq, Eq)]
pub struct AppSnapshot {
    pub studio: StudioSnapshot,
    pub mixer: MixerSnapshot,
}

#[derive(Debug, Clone, Copy, PartialEq, Eq, Structural)]
pub struct SetMicrophoneRequest {
    pub gain_db: Option<u8>,
    pub phantom_power: Option<bool>,
    pub muted: Option<bool>,
}

#[derive(Debug, Clone, PartialEq, Eq)]
pub struct SetLinkAssignmentRequest {
    pub application: String,
    pub channel: LinkChannel,
}

#[derive(Debug, Clone, PartialEq, Eq)]
pub struct SetVolumeRequest {
    pub channel_id: String,
    pub mix: MixBus,
    pub volume: u8,
}

#[derive(Debug, Clone, PartialEq, Eq)]
pub struct SetTargetVolumeRequest {
    pub target_id: String,
    pub volume: u8,
}

#[derive(Debug, Clone, PartialEq, Eq)]
pub struct SetTargetMuteRequest {
    pub target_id: String,
    pub muted: bool,
}

#[derive(Debug, Clone, PartialEq, Eq)]
pub struct SetTargetDeviceRequest {
    pub target_id: String,
    pub device_node_id: Option<u32>,
}

#[derive(Debug, Clone, PartialEq, Eq)]
pub struct SetMixerCopyOutputRequest {
    pub target_id: String,
    pub device_node_id: Option<u32>,
}

#[derive(Debug, Clone, PartialEq, Eq)]
pub struct MixerCopyOutputWriteResult {
    pub assignment: MixerCopyOutputAssignment,
    pub commit_evidence: MixerCopyOutputCommitEvidence,
    pub verified: bool,
    pub snapshot: MixerSnapshot,
}

#[derive(Debug, Clone, PartialEq, Eq)]
pub struct SetSourceDeviceRequest {
    pub channel_id: String,
    pub device_node_id: Option<u32>,
}

#[derive(Debug, Clone, PartialEq, Eq)]
pub struct SetLinkOutputAssignmentRequest {
    pub output_node_id: u32,
    pub target_id: Option<String>,
}

#[derive(Debug, Clone, PartialEq, Eq)]
pub struct SetDefaultDeviceRequest {
    pub device_id: String,
}

#[derive(Debug, Clone, PartialEq, Eq)]
pub struct SetVolumeLinkedRequest {
    pub channel_id: String,
    pub linked: bool,
}

#[derive(Debug, Clone, PartialEq, Eq)]
pub struct SetMuteRequest {
    pub channel_id: String,
    pub state: MuteState,
}

#[derive(Debug, Clone, PartialEq, Eq)]
pub struct SetRouteRequest {
    pub source_id: String,
    pub target_id: String,
    pub enabled: bool,
}

#[derive(Debug, Clone, PartialEq, Eq)]
pub struct CreateMixerSourceRequest {
    pub name: String,
}

#[derive(Debug, Clone, PartialEq, Eq)]
pub struct SetMixerSourceNameRequest {
    pub source_id: String,
    pub name: String,
}

#[derive(Debug, Clone, PartialEq, Eq)]
pub struct SetMixerSourceColourRequest {
    pub source_id: String,
    pub colour: String,
}

#[derive(Debug, Clone, PartialEq, Eq)]
pub struct RemoveMixerSourceRequest {
    pub source_id: String,
}

#[derive(Debug, Clone, PartialEq, Eq)]
pub struct ReorderMixerSourceRequest {
    pub source_id: String,
    pub position: usize,
}

#[derive(Debug, Clone, PartialEq, Eq)]
pub struct MixerProfileRequest {
    pub name: String,
}

#[derive(Debug, Clone, PartialEq, Eq)]
pub struct MixerProfileSummary {
    pub name: String,
    pub active: bool,
}

#[derive(Debug, Clone, PartialEq, Eq)]
pub struct MixerProfilesResponse {
    pub profiles: Vec<MixerProfileSummary>,
}

#[derive(Debug, Clone, PartialEq, Eq)]
pub struct SetMixerApplicationRequest {
    pub process: String,
    pub name: String,
    pub channel_id: Option<String>,
}

/// The error of every bridge operation.
#[derive(Debug, Clone, PartialEq, Eq)]
pub enum BridgeError {
    InvalidValue(String),
    BackendUnavailable(String),
    Backend(String),
}

/// The text of an error: its category prefix and its detail.
pub open spec fn bridge_error_text(error: BridgeError) -> Seq<char> {
    match error {
        BridgeError::InvalidValue(m) => "invalid value: "@ + m@,
        BridgeError::BackendUnavailable(m) => "backend unavailable: "@ + m@,
        BridgeError::Backend(m) => "backend error: "@ + m@,
    }
}

impl BridgeError {
    /// The displayed text of the error.
    pub fn message(&self) -> (r: String)
        ensures
            r@ == bridge_error_text(*self),
    {
        match self {
            BridgeError::InvalidValue(m) => {
                let mut s = String::from_str("invalid value: ");
                push_str(&mut s, m.as_str());
                s
            },
            BridgeError::BackendUnavailable(m) => {
                let mut s = String::from_str("backend unavailable: ");
                push_str(&mut s, m.as_str());
                s
            },
            BridgeError::Backend(m) => {
                let mut s = String::from_str("backend error: ");
                push_str(&mut s, m.as_str());
                s
            },
        }
    }
}

/// The characters of an optional string; none for `None`.
pub open spec fn opt_chars(s: Option<String>) -> Seq<char> {
    match s {
        Some(t) => t@,
        None => Seq::empty(),
    }
}

/// The ASCII letters and digits of a text, lowercased, in order.
pub open spec fn compact_seq(s: Seq<char>) -> Seq<char>
    decreases s.len(),
{
    if s.len() == 0 {
        Seq::empty()
    } else if is_ascii_alnum(s.last()) {
        compact_seq(s.drop_last()).push(ascii_lower(s.last()))
    } else {
        compact_seq(s.drop_last())
    }
}

/// The text in which a BEACN Link output is recognised: the node name and the
/// descriptor's name and description, separated by spaces.
pub open spec fn link_text(name: Seq<char>, descriptor: MixerPhysicalDeviceDescriptor) -> Seq<
    char,
> {
    name + seq![' '] + opt_chars(descriptor.name) + seq![' '] + opt_chars(descriptor.description)
}

/// The BEACN Link slot that a compacted output text names. The ALSA UCM line
/// order is reversed: Line 4 is Link 1, Line 3 is Link 2, and so on.
pub open spec fn link_slot_of_compact(c: Seq<char>) -> Option<u8> {
    if !seq_contains(c, "beacn"@) {
        None
    } else if seq_contains(c, "line4"@) || seq_contains(c, "link1"@) {
        Some(1)
    } else if seq_contains(c, "line3"@) || seq_contains(c, "link2"@) {
        Some(2)
    } else if seq_contains(c, "line2"@) || seq_contains(c, "link3"@) {
        Some(3)
    } else if seq_contains(c, "line1"@) || seq_contains(c, "link4"@) {
        Some(4)
    } else {
        None
    }
}

/// The BEACN Link slot of a physical output, if it is one.
pub open spec fn link_slot_spec(name: Seq<char>, descriptor: MixerPhysicalDeviceDescriptor) -> Option<
    u8,
> {
    link_slot_of_compact(compact_seq(link_text(name, descriptor)))
}

fn append_chars(out: &mut Vec<char>, s: &str)
    ensures
        final(out)@ == old(out)@ + s@,
{
    let chars = chars_of(s);
    let mut i: usize = 0;
    let ghost start = out@;
    while i < chars.len()
        invariant
            i <= chars.len(),
            chars@ == s@,
            out@ == start + s@.subrange(0, i as int),
        decreases chars.len() - i,
    {
        out.push(chars[i]);
        i = i + 1;
        assert(out@ =~= start + s@.subrange(0, i as int));
    }
    assert(s@.subrange(0, s@.len() as int) =~= s@);
}

fn append_opt_chars(out: &mut Vec<char>, s: &Option<String>)
    ensures
        final(out)@ == old(out)@ + opt_chars(*s),
{
    match s {
        Some(t) => append_chars(out, t.as_str()),
        None => {
            assert(old(out)@ + opt_chars(*s) =~= old(out)@);
        },
    }
}

fn compact_chars(s: &Vec<char>) -> (r: String)
    ensures
        r@ == compact_seq(s@),
{
    let mut out = String::new();
    let mut i: usize = 0;
    while i < s.len()
        invariant
            i <= s.len(),
            out@ == compact_seq(s@.subrange(0, i as int)),
        decreases s.len() - i,
    {
        let c = s[i];
        assert(s@.subrange(0, i + 1).drop_last() =~= s@.subrange(0, i as int));
        if ('a' <= c && c <= 'z') || ('A' <= c && c <= 'Z') || ('0' <= c && c <= '9') {
            string_push(&mut out, char_to_ascii_lower(c));
        }
        i = i + 1;
    }
    assert(s@.subrange(0, s@.len() as int) =~= s@);
    out
}

/// The BEACN Link output slot (1 to 4) that a physical output stands for, or
/// `None` when the output is not a BEACN Link line.
pub fn beacn_link_output_slot(name: &str, descriptor: &MixerPhysicalDeviceDescriptor) -> (r:
    Option<u8>)
    ensures
        r == link_slot_spec(name@, *descriptor),
        r matches Some(slot) ==> 1 <= slot <= 4,
{
    let mut text: Vec<char> = Vec::new();
    append_chars(&mut text, name);
    text.push(' ');
    append_opt_chars(&mut text, &descriptor.name);
    text.push(' ');
    append_opt_chars(&mut text, &descriptor.description);
    assert(text@ =~= link_text(name@, *descriptor));
    let compact = compact_chars(&text);
    let c = compact.as_str();
    if !str_contains(c, "beacn") {
        None
    } else if str_contains(c, "line4") || str_contains(c, "link1") {
        Some(1)
    } else if str_contains(c, "line3") || str_contains(c, "link2") {
        Some(2)
    } else if str_contains(c, "line2") || str_contains(c, "link3") {
        Some(3)
    } else if str_contains(c, "line1") || str_contains(c, "link4") {
        Some(4)
    } else {
        None
    }
}

impl MixerPhysicalDeviceChoice {
    /// The BEACN Link slot that this output is, if it is one.
    pub open spec fn slot_of(self) -> Option<u8> {
        link_slot_spec(self.name@, self.descriptor)
    }
}

/// A Link slot is 1 to 4.
pub proof fn lemma_link_slot_range(name: Seq<char>, descriptor: MixerPhysicalDeviceDescriptor)
    ensures
        link_slot_spec(name, descriptor) matches Some(s) ==> 1 <= s <= 4,
{
}

proof fn lemma_compact_append(a: Seq<char>, b: Seq<char>)
    ensures
        compact_seq(a + b) == compact_seq(a) + compact_seq(b),
    decreases b.len(),
{
    if b.len() == 0 {
        assert(a + b =~= a);
        assert(compact_seq(a) + compact_seq(b) =~= compact_seq(a));
    } else {
        lemma_compact_append(a, b.drop_last());
        assert((a + b).drop_last() =~= a + b.drop_last());
        assert((a + b).last() == b.last());
        if is_ascii_alnum(b.last()) {
            assert(compact_seq(a) + compact_seq(b) =~= (compact_seq(a) + compact_seq(b.drop_last())).push(
                ascii_lower(b.last()),
            ));
        }
    }
}

/// The compacted text of a BEACN output named with `word` ("link" or
/// "line") and one digit.
spec fn beacn_compact(word: Seq<char>, d: char) -> Seq<char> {
    seq!['b', 'e', 'a', 'c', 'n'] + word + seq![d]
}

proof fn lemma_beacn_compact_text(word_text: Seq<char>, word: Seq<char>, n: nat, desc: MixerPhysicalDeviceDescriptor)
    requires
        1 <= n <= 4,
        desc.name is None,
        desc.description is None,
        word_text == seq!['L', 'i', 'n', word[3]],
        word == seq!['l', 'i', 'n', word[3]],
        word[3] == 'k' || word[3] == 'e',
    ensures
        compact_seq(link_text(seq!['B', 'E', 'A', 'C', 'N', ' '] + word_text + seq![' ', digit_char(n)], desc))
            == beacn_compact(word, digit_char(n)),
{
    let name = seq!['B', 'E', 'A', 'C', 'N', ' '] + word_text + seq![' ', digit_char(n)];
    let text = link_text(name, desc);
    assert(text =~= name + seq![' ', ' ']);
    lemma_compact_append(name, seq![' ', ' ']);
    reveal_with_fuel(compact_seq, 3);
    assert(compact_seq(seq![' ', ' ']) =~= Seq::<char>::empty()) by {
        assert(seq![' ', ' '].drop_last() =~= seq![' ']);
        assert(seq![' '].drop_last() =~= Seq::<char>::empty());
    }
    let full = seq!['B', 'E', 'A', 'C', 'N', ' ', 'L', 'i', 'n', word[3], ' ', digit_char(n)];
    assert(name =~= full);
    reveal_with_fuel(compact_seq, 13);
    assert(compact_seq(full) =~= beacn_compact(word, digit_char(n)));
}

proof fn lemma_beacn_compact_contains(h: Seq<char>, word: Seq<char>, d: char, needle: Seq<char>)
    requires
        h == beacn_compact(word, d),
        word.len() == 4,
        word[0] == 'l',
        needle.len() == 5,
        needle[0] == 'l',
    ensures
        seq_contains(h, needle) <==> h.subrange(5, 10) == needle,
        seq_contains(h, seq!['b', 'e', 'a', 'c', 'n']),
{
    if seq_contains(h, needle) {
        let i = choose|i: int| 0 <= i && i + needle.len() <= h.len() && #[trigger] h.subrange(i, i + needle.len()) == needle;
        assert(h.subrange(i, i + 5)[0] == needle[0]);
        assert(h[i] == 'l');
        assert(i == 5);
    }
    if h.subrange(5, 10) == needle {
        assert(h.subrange(5, 5 + needle.len() as int) == needle);
    }
    let b = seq!['b', 'e', 'a', 'c', 'n'];
    assert(h.subrange(0, 0 + b.len() as int) =~= b);
}

proof fn lemma_beacn_compact_word(word: Seq<char>, d: char, needle: Seq<char>)
    requires
        word.len() == 4,
        word[0] == 'l' && word[1] == 'i' && word[2] == 'n',
        needle.len() == 5,
        needle[0] == 'l' && needle[1] == 'i' && needle[2] == 'n',
    ensures
        seq_contains(beacn_compact(word, d), needle) <==> (word[3] == needle[3] && d == needle[4]),
        seq_contains(beacn_compact(word, d), seq!['b', 'e', 'a', 'c', 'n']),
{
    let h = beacn_compact(word, d);
    lemma_beacn_compact_contains(h, word, d, needle);
    let tail = h.subrange(5, 10);
    assert(tail =~= seq!['l', 'i', 'n', word[3], d]);
    if tail == needle {
        assert(tail[3] == needle[3] && tail[4] == needle[4]);
    }
    if word[3] == needle[3] && d == needle[4] {
        assert(tail =~= needle);
    }
}

/// The slot that the compacted text of a BEACN output named with `word`
/// and one digit gives, when the word's last letter and the digit decide it.
proof fn lemma_beacn_compact_slot(word: Seq<char>, d: char)
    requires
        word.len() == 4,
        word[0] == 'l' && word[1] == 'i' && word[2] == 'n',
    ensures
        link_slot_of_compact(beacn_compact(word, d)) == if word[3] == 'k' {
            if d == '1' { Some(1u8) } else if d == '2' { Some(2u8) } else if d == '3' { Some(3u8) } else if d == '4' { Some(4u8) } else { None }
        } else if word[3] == 'e' {
            if d == '4' { Some(1u8) } else if d == '3' { Some(2u8) } else if d == '2' { Some(3u8) } else if d == '1' { Some(4u8) } else { None }
        } else {
            None
        },
{
    reveal_strlit("beacn");
    reveal_strlit("line1");
    reveal_strlit("line2");
    reveal_strlit("line3");
    reveal_strlit("line4");
    reveal_strlit("link1");
    reveal_strlit("link2");
    reveal_strlit("link3");
    reveal_strlit("link4");
    assert("beacn"@ =~= seq!['b', 'e', 'a', 'c', 'n']);
    lemma_beacn_compact_word(word, d, "line1"@);
    lemma_beacn_compact_word(word, d, "line2"@);
    lemma_beacn_compact_word(word, d, "line3"@);
    lemma_beacn_compact_word(word, d, "line4"@);
    lemma_beacn_compact_word(word, d, "link1"@);
    lemma_beacn_compact_word(word, d, "link2"@);
    lemma_beacn_compact_word(word, d, "link3"@);
    lemma_beacn_compact_word(word, d, "link4"@);
}

/// A BEACN output named "BEACN Link n", with no descriptor text, is Link
/// slot n, and one named "BEACN Line m", the ALSA line name, is Link slot
/// 5 - m: Line 4 is Link 1 and Line 1 is Link 4.
pub proof fn lemma_beacn_link_slots(n: u8, desc: MixerPhysicalDeviceDescriptor)
    requires
        1 <= n <= 4,
        desc.name is None,
        desc.description is None,
    ensures
        link_slot_spec("BEACN Link "@ + seq![digit_char(n as nat)], desc) == Some(n),
        link_slot_spec("BEACN Line "@ + seq![digit_char((5 - n) as nat)], desc) == Some(n),
{
    reveal_strlit("BEACN Link ");
    reveal_strlit("BEACN Line ");
    let k = seq!['l', 'i', 'n', 'k'];
    let e = seq!['l', 'i', 'n', 'e'];
    let m = (5 - n) as nat;
    assert("BEACN Link "@ + seq![digit_char(n as nat)] =~= seq!['B', 'E', 'A', 'C', 'N', ' '] + seq!['L', 'i', 'n', 'k']
        + seq![' ', digit_char(n as nat)]);
    assert("BEACN Line "@ + seq![digit_char(m)] =~= seq!['B', 'E', 'A', 'C', 'N', ' '] + seq!['L', 'i', 'n', 'e']
        + seq![' ', digit_char(m)]);
    lemma_beacn_compact_text(seq!['L', 'i', 'n', 'k'], k, n as nat, desc);
    lemma_beacn_compact_text(seq!['L', 'i', 'n', 'e'], e, m, desc);
    lemma_beacn_compact_slot(k, digit_char(n as nat));
    lemma_beacn_compact_slot(e, digit_char(m));
}

/// The channel holds the same contents as `b`.
pub open spec fn channel_same(a: MixerChannel, b: MixerChannel) -> bool {
    &&& a.id == b.id
    &&& a.meter_id == b.meter_id
    &&& a.name == b.name
    &&& a.colour == b.colour
    &&& a.personal_volume == b.personal_volume
    &&& a.audience_volume == b.audience_volume
    &&& a.mute_state == b.mute_state
    &&& a.applications@ == b.applications@
    &&& a.source_kind == b.source_kind
    &&& a.volumes_linked == b.volumes_linked
    &&& a.attached_devices@ == b.attached_devices@
}

/// The target holds the same contents as `b`.
pub open spec fn target_same(a: MixerTarget, b: MixerTarget) -> bool {
    &&& a.id == b.id
    &&& a.meter_id == b.meter_id
    &&& a.name == b.name
    &&& a.mix == b.mix
    &&& a.volume == b.volume
    &&& a.muted == b.muted
    &&& a.attached_devices@ == b.attached_devices@
}

/// The mixer state holds the same contents as `b`: every field equal, each
/// list holding equal items in the same order.
pub open spec fn mixer_same(a: MixerSnapshot, b: MixerSnapshot) -> bool {
    &&& a.status == b.status
    &&& a.error == b.error
    &&& a.engine == b.engine
    &&& a.channels@.len() == b.channels@.len()
    &&& forall|i: int| 0 <= i < a.channels@.len() ==> channel_same(#[trigger] a.channels@[i], b.channels@[i])
    &&& a.targets@.len() == b.targets@.len()
    &&& forall|i: int| 0 <= i < a.targets@.len() ==> target_same(#[trigger] a.targets@[i], b.targets@[i])
    &&& a.routes@ == b.routes@
    &&& a.applications@ == b.applications@
    &&& a.default_input == b.default_input
    &&& a.default_output == b.default_output
    &&& a.default_inputs@ == b.default_inputs@
    &&& a.default_outputs@ == b.default_outputs@
    &&& a.physical_outputs@ == b.physical_outputs@
    &&& a.physical_inputs@ == b.physical_inputs@
    &&& a.link_outputs@ == b.link_outputs@
    &&& a.copy_outputs@ == b.copy_outputs@
}

fn copy_text(s: &String) -> (r: String)
    ensures
        r == *s,
{
    s.clone()
}

fn copy_opt_text(s: &Option<String>) -> (r: Option<String>)
    ensures
        r == *s,
{
    match s {
        Some(t) => Some(t.clone()),
        None => None,
    }
}

fn copy_descriptor(d: &MixerPhysicalDeviceDescriptor) -> (r: MixerPhysicalDeviceDescriptor)
    ensures
        r == *d,
{
    MixerPhysicalDeviceDescriptor { name: copy_opt_text(&d.name), description: copy_opt_text(&d.description) }
}

fn copy_descriptors(v: &Vec<MixerPhysicalDeviceDescriptor>) -> (r: Vec<MixerPhysicalDeviceDescriptor>)
    ensures
        r@ == v@,
{
    let mut out: Vec<MixerPhysicalDeviceDescriptor> = Vec::new();
    let mut i: usize = 0;
    while i < v.len()
        invariant
            i <= v@.len(),
            out@ == v@.take(i as int),
        decreases v@.len() - i,
    {
        out.push(copy_descriptor(&v[i]));
        i = i + 1;
        assert(out@ =~= v@.take(i as int));
    }
    assert(v@.take(v@.len() as int) =~= v@);
    out
}

fn copy_texts(v: &Vec<String>) -> (r: Vec<String>)
    ensures
        r@ == v@,
{
    let mut out: Vec<String> = Vec::new();
    let mut i: usize = 0;
    while i < v.len()
        invariant
            i <= v@.len(),
            out@ == v@.take(i as int),
        decreases v@.len() - i,
    {
        out.push(copy_text(&v[i]));
        i = i + 1;
        assert(out@ =~= v@.take(i as int));
    }
    assert(v@.take(v@.len() as int) =~= v@);
    out
}

fn copy_channels(v: &Vec<MixerChannel>) -> (r: Vec<MixerChannel>)
    ensures
        r@.len() == v@.len(),
        forall|i: int| 0 <= i < v@.len() ==> channel_same(#[trigger] r@[i], v@[i]),
{
    let mut out: Vec<MixerChannel> = Vec::new();
    let mut i: usize = 0;
    while i < v.len()
        invariant
            i <= v@.len(),
            out@.len() == i,
            forall|j: int| 0 <= j < i ==> channel_same(#[trigger] out@[j], v@[j]),
        decreases v@.len() - i,
    {
        let c = &v[i];
        out.push(MixerChannel {
            id: copy_text(&c.id),
            meter_id: copy_text(&c.meter_id),
            name: copy_text(&c.name),
            colour: copy_text(&c.colour),
            personal_volume: c.personal_volume,
            audience_volume: c.audience_volume,
            mute_state: c.mute_state,
            applications: copy_texts(&c.applications),
            source_kind: c.source_kind,
            volumes_linked: c.volumes_linked,
            attached_devices: copy_descriptors(&c.attached_devices),
        });
        i = i + 1;
    }
    out
}

fn copy_targets(v: &Vec<MixerTarget>) -> (r: Vec<MixerTarget>)
    ensures
        r@.len() == v@.len(),
        forall|i: int| 0 <= i < v@.len() ==> target_same(#[trigger] r@[i], v@[i]),
{
    let mut out: Vec<MixerTarget> = Vec::new();
    let mut i: usize = 0;
    while i < v.len()
        invariant
            i <= v@.len(),
            out@.len() == i,
            forall|j: int| 0 <= j < i ==> target_same(#[trigger] out@[j], v@[j]),
        decreases v@.len() - i,
    {
        let t = &v[i];
        out.push(MixerTarget {
            id: copy_text(&t.id),
            meter_id: copy_text(&t.meter_id),
            name: copy_text(&t.name),
            mix: t.mix,
            volume: t.volume,
            muted: t.muted,
            attached_devices: copy_descriptors(&t.attached_devices),
        });
        i = i + 1;
    }
    out
}

fn copy_routes(v: &Vec<MixerRoute>) -> (r: Vec<MixerRoute>)
    ensures
        r@ == v@,
{
    let mut out: Vec<MixerRoute> = Vec::new();
    let mut i: usize = 0;
    while i < v.len()
        invariant
            i <= v@.len(),
            out@ == v@.take(i as int),
        decreases v@.len() - i,
    {
        out.push(MixerRoute { source_id: copy_text(&v[i].source_id), target_id: copy_text(&v[i].target_id) });
        i = i + 1;
        assert(out@ =~= v@.take(i as int));
    }
    assert(v@.take(v@.len() as int) =~= v@);
    out
}

fn copy_applications(v: &Vec<MixerApplication>) -> (r: Vec<MixerApplication>)
    ensures
        r@ == v@,
{
    let mut out: Vec<MixerApplication> = Vec::new();
    let mut i: usize = 0;
    while i < v.len()
        invariant
            i <= v@.len(),
            out@ == v@.take(i as int),
        decreases v@.len() - i,
    {
        let a = &v[i];
        out.push(MixerApplication {
            process: copy_text(&a.process),
            name: copy_text(&a.name),
            title: copy_opt_text(&a.title),
            channel_id: copy_opt_text(&a.channel_id),
        });
        i = i + 1;
        assert(out@ =~= v@.take(i as int));
    }
    assert(v@.take(v@.len() as int) =~= v@);
    out
}

fn copy_device_choices(v: &Vec<MixerDeviceChoice>) -> (r: Vec<MixerDeviceChoice>)
    ensures
        r@ == v@,
{
    let mut out: Vec<MixerDeviceChoice> = Vec::new();
    let mut i: usize = 0;
    while i < v.len()
        invariant
            i <= v@.len(),
            out@ == v@.take(i as int),
        decreases v@.len() - i,
    {
        out.push(MixerDeviceChoice { id: copy_text(&v[i].id), name: copy_text(&v[i].name) });
        i = i + 1;
        assert(out@ =~= v@.take(i as int));
    }
    assert(v@.take(v@.len() as int) =~= v@);
    out
}

fn copy_physical_choices(v: &Vec<MixerPhysicalDeviceChoice>) -> (r: Vec<MixerPhysicalDeviceChoice>)
    ensures
        r@ == v@,
{
    let mut out: Vec<MixerPhysicalDeviceChoice> = Vec::new();
    let mut i: usize = 0;
    while i < v.len()
        invariant
            i <= v@.len(),
            out@ == v@.take(i as int),
        decreases v@.len() - i,
    {
        let c = &v[i];
        out.push(MixerPhysicalDeviceChoice {
            node_id: c.node_id,
            name: copy_text(&c.name),
            descriptor: copy_descriptor(&c.descriptor),
        });
        i = i + 1;
        assert(out@ =~= v@.take(i as int));
    }
    assert(v@.take(v@.len() as int) =~= v@);
    out
}

fn copy_link_outputs(v: &Vec<MixerLinkOutputAssignment>) -> (r: Vec<MixerLinkOutputAssignment>)
    ensures
        r@ == v@,
{
    let mut out: Vec<MixerLinkOutputAssignment> = Vec::new();
    let mut i: usize = 0;
    while i < v.len()
        invariant
            i <= v@.len(),
            out@ == v@.take(i as int),
        decreases v@.len() - i,
    {
        let a = &v[i];
        out.push(MixerLinkOutputAssignment {
            slot: a.slot,
            node_id: a.node_id,
            name: copy_text(&a.name),
            target_id: copy_opt_text(&a.target_id),
        });
        i = i + 1;
        assert(out@ =~= v@.take(i as int));
    }
    assert(v@.take(v@.len() as int) =~= v@);
    out
}

fn copy_copy_outputs(v: &Vec<MixerCopyOutputAssignment>) -> (r: Vec<MixerCopyOutputAssignment>)
    ensures
        r@ == v@,
{
    let mut out: Vec<MixerCopyOutputAssignment> = Vec::new();
    let mut i: usize = 0;
    while i < v.len()
        invariant
            i <= v@.len(),
            out@ == v@.take(i as int),
        decreases v@.len() - i,
    {
        let a = &v[i];
        let output = match &a.output {
            Some(d) => Some(copy_descriptor(d)),
            None => None,
        };
        out.push(MixerCopyOutputAssignment { target_id: copy_text(&a.target_id), output });
        i = i + 1;
        assert(out@ =~= v@.take(i as int));
    }
    assert(v@.take(v@.len() as int) =~= v@);
    out
}

/// A copy of a mixer state with the same contents.
pub fn copy_mixer(m: &MixerSnapshot) -> (r: MixerSnapshot)
    ensures
        mixer_same(r, *m),
{
    MixerSnapshot {
        status: m.status,
        error: copy_opt_text(&m.error),
        engine: copy_text(&m.engine),
        channels: copy_channels(&m.channels),
        targets: copy_targets(&m.targets),
        routes: copy_routes(&m.routes),
        applications: copy_applications(&m.applications),
        default_input: copy_opt_text(&m.default_input),
        default_output: copy_opt_text(&m.default_output),
        default_inputs: copy_device_choices(&m.default_inputs),
        default_outputs: copy_device_choices(&m.default_outputs),
        physical_outputs: copy_physical_choices(&m.physical_outputs),
        physical_inputs: copy_physical_choices(&m.physical_inputs),
        link_outputs: copy_link_outputs(&m.link_outputs),
        copy_outputs: copy_copy_outputs(&m.copy_outputs),
    }
}

} // verus!
