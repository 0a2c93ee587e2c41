//! Rules of the daemon: saved mixer profiles and their names, and the checks
//! before an in-app DSP write lease is armed.
use vstd::prelude::*;
use crate::model::{BridgeError, MixerSnapshot, MixerProfileSummary, MixerProfilesResponse, copy_mixer, mixer_same};
use crate::text::{str_eq, str_trim, trim_seq, char_count, decimal, decimal_string, digit_char, push_str, chars_of, string_push};

verus! {

/// A profile name has 1 to 64 characters once trimmed.
pub open spec fn profile_name_ok(name: Seq<char>) -> bool {
    trim_seq(name).len() > 0 && trim_seq(name).len() <= 64
}

pub fn validate_profile_name(name: &str) -> (r: Result<(), BridgeError>)
    ensures
        r is Ok <==> profile_name_ok(name@),
        r is Err ==> (r matches Err(BridgeError::InvalidValue(m)) && m@
            == "profile name must contain 1 to 64 characters"@),
{
    let trimmed = str_trim(name);
    let n = char_count(trimmed);
    if n == 0 || n > 64 {
        return Err(BridgeError::InvalidValue(String::from_str("profile name must contain 1 to 64 characters")));
    }
    Ok(())
}

/// The suffix that numbers a profile name.
pub open spec fn name_suffix(index: nat, parenthesized: bool) -> Seq<char> {
    if parenthesized {
        " ("@ + decimal(index) + ")"@
    } else {
        " "@ + decimal(index)
    }
}

/// The numbered candidate: the base, shortened so the whole name keeps to
/// 64 characters, and the suffix.
pub open spec fn name_candidate(base: Seq<char>, index: nat, parenthesized: bool) -> Seq<char> {
    let suffix = name_suffix(index, parenthesized);
    let keep = if suffix.len() >= 64 {
        0
    } else {
        64 - suffix.len()
    };
    base.take(if base.len() < keep { base.len() as int } else { keep }) + suffix
}

pub open spec fn name_taken(existing: Seq<&str>, name: Seq<char>) -> bool {
    exists|k: int| 0 <= k < existing.len() && (#[trigger] existing[k])@ == name
}

/// Some number from 1 to 10000 gives a free name.
pub open spec fn name_space_left(base: Seq<char>, existing: Seq<&str>, parenthesized: bool) -> bool {
    (!parenthesized && !name_taken(existing, base)) || exists|i: int|
        1 <= i <= 10_000 && !name_taken(existing, #[trigger] name_candidate(base, i as nat, parenthesized))
}

fn taken(existing: &[&str], name: &str) -> (r: bool)
    ensures
        r == name_taken(existing@, name@),
{
    let mut k: usize = 0;
    while k < existing.len()
        invariant
            k <= existing@.len(),
            forall|m: int| 0 <= m < k ==> (#[trigger] existing@[m])@ != name@,
        decreases existing@.len() - k,
    {
        if str_eq(existing[k], name) {
            return true;
        }
        k = k + 1;
    }
    false
}

fn candidate(base: &str, index: u64, parenthesized: bool) -> (r: String)
    ensures
        r@ == name_candidate(base@, index as nat, parenthesized),
{
    let digits = decimal_string(index);
    let mut suffix = if parenthesized {
        String::from_str(" (")
    } else {
        String::from_str(" ")
    };
    push_str(&mut suffix, digits.as_str());
    if parenthesized {
        push_str(&mut suffix, ")");
    }
    let suffix_len = char_count(suffix.as_str());
    let keep: usize = if suffix_len >= 64 {
        0
    } else {
        64 - suffix_len
    };
    let chars = chars_of(base);
    let take = if chars.len() < keep {
        chars.len()
    } else {
        keep
    };
    let mut out = String::new();
    let mut i: usize = 0;
    while i < take
        invariant
            i <= take <= chars@.len(),
            chars@ == base@,
            out@ == base@.take(i as int),
        decreases take - i,
    {
        string_push(&mut out, chars[i]);
        i = i + 1;
        assert(out@ =~= base@.take(i as int));
    }
    push_str(&mut out, suffix.as_str());
    out
}

/// The next free profile name: the base itself when it is free and not to
/// be numbered, and otherwise the first free numbered candidate, which keeps
/// to 64 characters. A free name always exists when fewer than 10 000 names
/// are in use (`lemma_name_space_left`).
pub fn next_profile_name(base: &str, existing: &[&str], parenthesized: bool) -> (r: String)
    requires
        name_space_left(base@, existing@, parenthesized),
    ensures
        parenthesized || name_taken(existing@, base@) ==> r@.len() <= 64,
        !parenthesized && !name_taken(existing@, base@) ==> r@ == base@,
        parenthesized || name_taken(existing@, base@) ==> exists|i: int|
            1 <= i <= 10_000 && r@ == #[trigger] name_candidate(base@, i as nat, parenthesized)
                && !name_taken(existing@, r@) && forall|j: int|
                1 <= j < i ==> name_taken(existing@, #[trigger] name_candidate(base@, j as nat, parenthesized)),
{
    if !parenthesized && !taken(existing, base) {
        return String::from_str(base);
    }
    let mut index: u64 = 1;
    while index <= 10_000
        invariant
            1 <= index <= 10_001,
            parenthesized || name_taken(existing@, base@),
            name_space_left(base@, existing@, parenthesized),
            forall|j: int|
                1 <= j < index ==> name_taken(existing@, #[trigger] name_candidate(base@, j as nat, parenthesized)),
        decreases 10_001 - index,
    {
        let name = candidate(base, index, parenthesized);
        if !taken(existing, name.as_str()) {
            proof {
                let i = index as int;
                assert(name@ == name_candidate(base@, i as nat, parenthesized));
                assert(!name_taken(existing@, name@));
                assert(forall|j: int|
                    1 <= j < i ==> name_taken(existing@, #[trigger] name_candidate(base@, j as nat, parenthesized)));
                assert(1 <= i <= 10_000);
                lemma_candidate_fits(base@, i as nat, parenthesized);
            }
            return name;
        }
        index = index + 1;
    }
    proof {
        let i = choose|i: int|
            1 <= i <= 10_000 && !name_taken(existing@, #[trigger] name_candidate(base@, i as nat, parenthesized));
        assert(name_taken(existing@, name_candidate(base@, i as nat, parenthesized)));
    }
    String::new()
}

/// DSP editing needs the real BEACN and PipeWeaver pair or the mock pair.
pub fn dsp_editing_backends_supported(studio_mode: &str, mixer_mode: &str) -> (r: bool)
    ensures
        r == ((studio_mode@ == "beacn"@ && mixer_mode@ == "pipeweaver"@) || (studio_mode@
            == "mock"@ && mixer_mode@ == "mock"@)),
{
    (str_eq(studio_mode, "beacn") && str_eq(mixer_mode, "pipeweaver")) || (str_eq(studio_mode, "mock")
        && str_eq(mixer_mode, "mock"))
}

/// Screens a microphone DSP update before it is decoded: a headphone
/// equalizer update must carry its subwoofer state explicitly. `module` is
/// the update's `module` field when it is a string, and `has_subwoofer` says
/// whether its `state` object has a `subwoofer` member.
pub fn check_microphone_dsp_update(module: Option<&str>, has_subwoofer: bool) -> (r: Result<(), BridgeError>)
    ensures
        (module matches Some(m) && m@ == "headphone_equalizer"@ && !has_subwoofer) <==> r is Err,
        r matches Err(BridgeError::InvalidValue(msg)) ==> msg@
            == "headphone equalizer writes require explicit subwoofer state"@,
        r is Err ==> r matches Err(BridgeError::InvalidValue(_)),
{
    match module {
        Some(m) => {
            if str_eq(m, "headphone_equalizer") && !has_subwoofer {
                return Err(BridgeError::InvalidValue(String::from_str(
                    "headphone equalizer writes require explicit subwoofer state",
                )));
            }
            Ok(())
        },
        None => Ok(()),
    }
}

pub const DSP_WRITE_ACKNOWLEDGEMENT: &'static str = "I_UNDERSTAND_THIS_CHANGES_AUDIO";

pub const MIN_DSP_LEASE_SECONDS: u64 = 30;

pub const MAX_DSP_LEASE_SECONDS: u64 = 300;

/// Checks an arm request before any backend is read: the exact
/// acknowledgement, a lease of 30 to 300 seconds, general hardware writes
/// off, and a supported backend pair.
pub fn check_arm_request(
    acknowledgement: &str,
    lease_seconds: u64,
    hardware_writes_enabled: bool,
    studio_mode: &str,
    mixer_mode: &str,
) -> (r: Result<(), BridgeError>)
    ensures
        acknowledgement@ != DSP_WRITE_ACKNOWLEDGEMENT@ ==> (r matches Err(BridgeError::InvalidValue(m))
            && m@ == "DSP editing acknowledgement did not match"@),
        acknowledgement@ == DSP_WRITE_ACKNOWLEDGEMENT@ && !(MIN_DSP_LEASE_SECONDS <= lease_seconds
            <= MAX_DSP_LEASE_SECONDS) ==> (r matches Err(BridgeError::InvalidValue(m)) && m@
            == "DSP lease must be between 30 and 300 seconds"@),
        acknowledgement@ == DSP_WRITE_ACKNOWLEDGEMENT@ && MIN_DSP_LEASE_SECONDS <= lease_seconds
            <= MAX_DSP_LEASE_SECONDS && hardware_writes_enabled ==> (r matches Err(
            BridgeError::InvalidValue(m),
        ) && m@ == "in-app DSP leases require general hardware writes to remain disabled"@),
        acknowledgement@ == DSP_WRITE_ACKNOWLEDGEMENT@ && MIN_DSP_LEASE_SECONDS <= lease_seconds
            <= MAX_DSP_LEASE_SECONDS && !hardware_writes_enabled ==> (r is Ok
            <==> ((studio_mode@ == "beacn"@ && mixer_mode@ == "pipeweaver"@) || (studio_mode@
            == "mock"@ && mixer_mode@ == "mock"@))),
        r matches Err(BridgeError::BackendUnavailable(m)) ==> m@
            == "DSP editing requires either the real BEACN/PipeWeaver pair or the isolated mock/mock simulation"@,
        !(r matches Err(BridgeError::Backend(_))),
{
    if !str_eq(acknowledgement, DSP_WRITE_ACKNOWLEDGEMENT) {
        return Err(BridgeError::InvalidValue(String::from_str("DSP editing acknowledgement did not match")));
    }
    if !(MIN_DSP_LEASE_SECONDS <= lease_seconds && lease_seconds <= MAX_DSP_LEASE_SECONDS) {
        return Err(BridgeError::InvalidValue(String::from_str("DSP lease must be between 30 and 300 seconds")));
    }
    if hardware_writes_enabled {
        return Err(
            BridgeError::InvalidValue(
                String::from_str("in-app DSP leases require general hardware writes to remain disabled"),
            ),
        );
    }
    if !dsp_editing_backends_supported(studio_mode, mixer_mode) {
        return Err(
            BridgeError::BackendUnavailable(
                String::from_str(
                    "DSP editing requires either the real BEACN/PipeWeaver pair or the isolated mock/mock simulation",
                ),
            ),
        );
    }
    Ok(())
}

/// The HTTP status of an error: 400 for invalid values, 503 for an
/// unavailable backend and 502 for a backend failure.
pub fn status_code_for(error: &BridgeError) -> (r: u16)
    ensures
        r == (match error {
            BridgeError::InvalidValue(_) => 400u16,
            BridgeError::BackendUnavailable(_) => 503u16,
            BridgeError::Backend(_) => 502u16,
        }),
{
    match error {
        BridgeError::InvalidValue(_) => 400,
        BridgeError::BackendUnavailable(_) => 503,
        BridgeError::Backend(_) => 502,
    }
}

/// A saved mixer profile.
#[derive(Debug, Clone)]
pub struct SavedMixerProfile {
    pub name: String,
    pub mixer: MixerSnapshot,
}

/// The saved profiles and the active one.
#[derive(Debug, Clone)]
pub struct ProfileFile {
    pub active: Option<String>,
    pub profiles: Vec<SavedMixerProfile>,
}

pub open spec fn profile_names(p: Seq<SavedMixerProfile>) -> Seq<Seq<char>> {
    p.map_values(|x: SavedMixerProfile| x.name@)
}

pub open spec fn opt_text(s: Option<String>) -> Option<Seq<char>> {
    match s {
        Some(t) => Some(t@),
        None => None,
    }
}

/// Names other than `name`.
pub open spec fn other_name(name: Seq<char>) -> spec_fn(Seq<char>) -> bool {
    |n: Seq<char>| n != name
}

/// Some saved profile has the name.
pub open spec fn has_profile(p: Seq<SavedMixerProfile>, name: Seq<char>) -> bool {
    exists|k: int| 0 <= k < p.len() && (#[trigger] p[k]).name@ == name
}

/// `k` is the first saved profile with the name.
pub open spec fn first_named(p: Seq<SavedMixerProfile>, name: Seq<char>, k: int) -> bool {
    0 <= k < p.len() && p[k].name@ == name && forall|j: int| 0 <= j < k ==> (#[trigger] p[j]).name@ != name
}

/// The mixer saved under the name: that of the first profile with it.
pub open spec fn saved_mixer(p: Seq<SavedMixerProfile>, name: Seq<char>) -> Option<MixerSnapshot> {
    if exists|k: int| #[trigger] first_named(p, name, k) {
        let k = choose|k: int| #[trigger] first_named(p, name, k);
        Some(p[k].mixer)
    } else {
        None
    }
}

proof fn lemma_first_named_unique(p: Seq<SavedMixerProfile>, name: Seq<char>, a: int, b: int)
    requires
        first_named(p, name, a),
        first_named(p, name, b),
    ensures
        a == b,
{
    if a < b {
        assert(p[a].name@ != name);
    } else if b < a {
        assert(p[b].name@ != name);
    }
}

/// With `k` the first profile of the name, the saved mixer is its mixer.
proof fn lemma_saved_mixer_at(p: Seq<SavedMixerProfile>, name: Seq<char>, k: int)
    requires
        first_named(p, name, k),
    ensures
        saved_mixer(p, name) == Some(p[k].mixer),
{
    let c = choose|k: int| #[trigger] first_named(p, name, k);
    lemma_first_named_unique(p, name, k, c);
}

/// Two profile lists give the same mixer for a name when the first has the
/// same names as the second's prefix, the same mixer wherever that name is,
/// and the second's further profiles have other names.
proof fn lemma_saved_mixer_frame(p: Seq<SavedMixerProfile>, q: Seq<SavedMixerProfile>, other: Seq<char>)
    requires
        p.len() <= q.len(),
        forall|j: int| 0 <= j < p.len() ==> (#[trigger] q[j]).name@ == p[j].name@ && (q[j].name@ == other ==> q[j].mixer == p[j].mixer),
        forall|j: int| p.len() <= j < q.len() ==> (#[trigger] q[j]).name@ != other,
    ensures
        saved_mixer(q, other) == saved_mixer(p, other),
{
    if exists|k: int| #[trigger] first_named(p, other, k) {
        let k = choose|k: int| #[trigger] first_named(p, other, k);
        assert forall|j: int| 0 <= j < k implies (#[trigger] q[j]).name@ != other by {
            assert(p[j].name@ != other);
        }
        assert(first_named(q, other, k));
        lemma_saved_mixer_at(p, other, k);
        lemma_saved_mixer_at(q, other, k);
    } else if exists|k: int| #[trigger] first_named(q, other, k) {
        let k = choose|k: int| #[trigger] first_named(q, other, k);
        assert(k < p.len());
        assert forall|j: int| 0 <= j < k implies (#[trigger] p[j]).name@ != other by {
            assert(q[j].name@ != other);
        }
        assert(first_named(p, other, k));
    }
}

fn refs_of(profiles: &Vec<SavedMixerProfile>) -> (r: Vec<&str>)
    ensures
        r@.len() == profiles@.len(),
        forall|k: int| 0 <= k < r@.len() ==> (#[trigger] r@[k])@ == profiles@[k].name@,
{
    let mut out: Vec<&str> = Vec::new();
    let mut i: usize = 0;
    while i < profiles.len()
        invariant
            i <= profiles@.len(),
            out@.len() == i,
            forall|k: int| 0 <= k < i ==> (#[trigger] out@[k])@ == profiles@[k].name@,
        decreases profiles@.len() - i,
    {
        out.push(profiles[i].name.as_str());
        i = i + 1;
    }
    out
}

proof fn lemma_refs_taken(refs: Seq<&str>, profiles: Seq<SavedMixerProfile>, name: Seq<char>)
    requires
        refs.len() == profiles.len(),
        forall|k: int| 0 <= k < refs.len() ==> (#[trigger] refs[k])@ == profiles[k].name@,
    ensures
        name_taken(refs, name) == has_profile(profiles, name),
{
    if name_taken(refs, name) {
        let k = choose|k: int| 0 <= k < refs.len() && (#[trigger] refs[k])@ == name;
        assert(profiles[k].name@ == name);
    }
    if has_profile(profiles, name) {
        let k = choose|k: int| 0 <= k < profiles.len() && (#[trigger] profiles[k]).name@ == name;
        assert(refs[k]@ == name);
    }
}

impl ProfileFile {
    pub fn new() -> (r: Self)
        ensures
            r.active is None,
            r.profiles@.len() == 0,
    {
        ProfileFile { active: None, profiles: Vec::new() }
    }

    /// The position of the first profile with the name.
    pub fn find(&self, name: &str) -> (r: Option<usize>)
        ensures
            r matches Some(k) ==> k < self.profiles@.len() && self.profiles@[k as int].name@
                == name@ && forall|j: int| 0 <= j < k ==> (#[trigger] self.profiles@[j]).name@ != name@,
            r is None ==> !has_profile(self.profiles@, name@),
    {
        let mut k: usize = 0;
        while k < self.profiles.len()
            invariant
                k <= self.profiles@.len(),
                forall|j: int| 0 <= j < k ==> (#[trigger] self.profiles@[j]).name@ != name@,
            decreases self.profiles@.len() - k,
        {
            if str_eq(self.profiles[k].name.as_str(), name) {
                return Some(k);
            }
            k = k + 1;
        }
        None
    }

    /// The saved mixer of the named profile.
    pub fn get(&self, name: &str) -> (r: Option<&MixerSnapshot>)
        ensures
            match saved_mixer(self.profiles@, name@) {
                Some(m) => r matches Some(x) && *x == m,
                None => r is None,
            },
            r is None <==> !has_profile(self.profiles@, name@),
    {
        match self.find(name) {
            Some(k) => {
                proof {
                    lemma_saved_mixer_at(self.profiles@, name@, k as int);
                }
                Some(&self.profiles[k].mixer)
            },
            None => {
                assert(!exists|k: int| #[trigger] first_named(self.profiles@, name@, k));
                None
            },
        }
    }

    /// The profiles in order, each marked active when it is the active one.
    pub fn list(&self) -> (r: MixerProfilesResponse)
        ensures
            r.profiles@.len() == self.profiles@.len(),
            forall|k: int|
                0 <= k < r.profiles@.len() ==> (#[trigger] r.profiles@[k]).name@ == self.profiles@[k].name@
                    && r.profiles@[k].active == (opt_text(self.active) == Some(self.profiles@[k].name@)),
    {
        let mut out: Vec<MixerProfileSummary> = Vec::new();
        let mut i: usize = 0;
        while i < self.profiles.len()
            invariant
                i <= self.profiles@.len(),
                out@.len() == i,
                forall|k: int|
                    0 <= k < i ==> (#[trigger] out@[k]).name@ == self.profiles@[k].name@
                        && out@[k].active == (opt_text(self.active) == Some(self.profiles@[k].name@)),
            decreases self.profiles@.len() - i,
        {
            let name = self.profiles[i].name.as_str();
            let active = match &self.active {
                Some(a) => str_eq(a.as_str(), name),
                None => false,
            };
            out.push(MixerProfileSummary { name: String::from_str(name), active });
            i = i + 1;
        }
        MixerProfilesResponse { profiles: out }
    }

    /// Saves the mixer under the name, replacing a profile of that name, and
    /// makes it active.
    pub fn save(&mut self, name: String, mixer: MixerSnapshot) -> (r: Result<(), BridgeError>)
        ensures
            !profile_name_ok(name@) ==> (r matches Err(BridgeError::InvalidValue(m)) && m@
                == "profile name must contain 1 to 64 characters"@) && *final(self) == *old(self),
            profile_name_ok(name@) ==> r is Ok,
            profile_name_ok(name@) ==> opt_text(final(self).active) == Some(name@),
            profile_name_ok(name@) ==> (if has_profile(old(self).profiles@, name@) {
                profile_names(final(self).profiles@) == profile_names(old(self).profiles@)
            } else {
                profile_names(final(self).profiles@) == profile_names(old(self).profiles@).push(name@)
            }),
            profile_name_ok(name@) ==> saved_mixer(final(self).profiles@, name@) == Some(mixer),
            profile_name_ok(name@) ==> forall|other: Seq<char>| other != name@ ==> #[trigger] saved_mixer(
                final(self).profiles@,
                other,
            ) == saved_mixer(old(self).profiles@, other),
    {
        validate_profile_name(name.as_str())?;
        let ghost names0 = profile_names(self.profiles@);
        let ghost before = self.profiles@;
        let ghost mut idx: int = 0;
        match self.find(name.as_str()) {
            Some(k) => {
                proof {
                    idx = k as int;
                }
                let mut profiles = Vec::new();
                std::mem::swap(&mut profiles, &mut self.profiles);
                let old_entry = profiles.remove(k);
                let entry = SavedMixerProfile { name: old_entry.name, mixer };
                profiles.insert(k, entry);
                self.profiles = profiles;
                assert(self.profiles@ =~= before.update(k as int, entry));
                assert(profile_names(self.profiles@) =~= names0);
            },
            None => {
                proof {
                    idx = self.profiles@.len() as int;
                }
                self.profiles.push(SavedMixerProfile { name: String::from_str(name.as_str()), mixer });
                assert(profile_names(self.profiles@) =~= names0.push(name@));
            },
        }
        assert(first_named(self.profiles@, name@, idx));
        proof {
            lemma_saved_mixer_at(self.profiles@, name@, idx);
            assert forall|other: Seq<char>| other != name@ implies #[trigger] saved_mixer(self.profiles@, other)
                == saved_mixer(before, other) by {
                lemma_saved_mixer_frame(before, self.profiles@, other);
            }
        }
        self.active = Some(name);
        Ok(())
    }

    /// Adds a profile under the next free "New Profile" name and makes it
    /// active.
    pub fn create(&mut self, mixer: MixerSnapshot) -> (r: String)
        requires
            exists|i: int| 1 <= i <= 10_000 && !has_profile(old(self).profiles@, #[trigger] name_candidate("New Profile"@, i as nat, false)),
        ensures
            opt_text(final(self).active) == Some(r@),
            profile_names(final(self).profiles@) == profile_names(old(self).profiles@).push(r@),
            !has_profile(old(self).profiles@, r@),
            final(self).profiles@.last().mixer == mixer,
            !has_profile(old(self).profiles@, "New Profile"@) ==> r@ == "New Profile"@,
    {
        let refs = refs_of(&self.profiles);
        proof {
            lemma_refs_taken(refs@, self.profiles@, "New Profile"@);
            let i = choose|i: int| 1 <= i <= 10_000 && !has_profile(self.profiles@, #[trigger] name_candidate("New Profile"@, i as nat, false));
            lemma_refs_taken(refs@, self.profiles@, name_candidate("New Profile"@, i as nat, false));
        }
        let name = next_profile_name("New Profile", refs.as_slice(), false);
        proof {
            lemma_refs_taken(refs@, self.profiles@, name@);
        }
        let ghost names0 = profile_names(self.profiles@);
        self.profiles.push(SavedMixerProfile { name: String::from_str(name.as_str()), mixer });
        assert(profile_names(self.profiles@) =~= names0.push(name@));
        self.active = Some(String::from_str(name.as_str()));
        name
    }
}

impl ProfileFile {
    /// Whether a numbered name `base` + suffix (1 to 10 000) is still free:
    /// what `create` (with "New Profile") and `duplicate` (with the copied
    /// name, in parentheses) need.
    pub fn numbered_name_free(&self, base: &str, parenthesized: bool) -> (r: bool)
        ensures
            r == exists|i: int| 1 <= i <= 10_000 && !has_profile(self.profiles@, #[trigger] name_candidate(base@, i as nat, parenthesized)),
    {
        let refs = refs_of(&self.profiles);
        let mut index: u64 = 1;
        while index <= 10_000
            invariant
                1 <= index <= 10_001,
                refs@.len() == self.profiles@.len(),
                forall|k: int| 0 <= k < refs@.len() ==> (#[trigger] refs@[k])@ == self.profiles@[k].name@,
                forall|j: int|
                    1 <= j < index ==> has_profile(self.profiles@, #[trigger] name_candidate(base@, j as nat, parenthesized)),
            decreases 10_001 - index,
        {
            let name = candidate(base, index, parenthesized);
            proof {
                lemma_refs_taken(refs@, self.profiles@, name@);
            }
            if !taken(refs.as_slice(), name.as_str()) {
                proof {
                    let i: int = index as int;
                    assert(name@ == name_candidate(base@, i as nat, parenthesized));
                    assert(1 <= i <= 10_000 && !has_profile(self.profiles@, name_candidate(base@, i as nat, parenthesized)));
                }
                return true;
            }
            index = index + 1;
        }
        proof {
            if exists|i: int| 1 <= i <= 10_000 && !has_profile(self.profiles@, #[trigger] name_candidate(base@, i as nat, parenthesized)) {
                let i = choose|i: int| 1 <= i <= 10_000 && !has_profile(self.profiles@, #[trigger] name_candidate(base@, i as nat, parenthesized));
                assert(has_profile(self.profiles@, name_candidate(base@, i as nat, parenthesized)));
            }
        }
        false
    }
}

impl ProfileFile {
    /// Copies the named profile under the next free "name (n)" name; the
    /// active profile is unchanged.
    pub fn duplicate(&mut self, name: &str) -> (r: Result<String, BridgeError>)
        requires
            exists|i: int| 1 <= i <= 10_000 && !has_profile(old(self).profiles@, #[trigger] name_candidate(name@, i as nat, true)),
        ensures
            !has_profile(old(self).profiles@, name@) ==> (r matches Err(BridgeError::InvalidValue(m))
                && m@ == "unknown mixer profile: "@ + name@) && *final(self) == *old(self),
            has_profile(old(self).profiles@, name@) ==> (r matches Ok(n) && profile_names(final(self).profiles@)
                == profile_names(old(self).profiles@).push(n@) && !has_profile(old(self).profiles@, n@)
                && exists|i: int| 1 <= i <= 10_000 && n@ == #[trigger] name_candidate(name@, i as nat, true)
                && forall|j: int| 1 <= j < i ==> has_profile(old(self).profiles@, #[trigger] name_candidate(name@, j as nat, true)))
                && final(self).active == old(self).active
                && final(self).profiles@.len() == old(self).profiles@.len() + 1
                && final(self).profiles@.take(old(self).profiles@.len() as int) == old(self).profiles@
                && mixer_same(final(self).profiles@.last().mixer, saved_mixer(old(self).profiles@, name@)->0),
    {
        let k = match self.find(name) {
            Some(k) => k,
            None => {
                let mut text = String::from_str("unknown mixer profile: ");
                push_str(&mut text, name);
                return Err(BridgeError::InvalidValue(text));
            },
        };
        proof {
            assert(self.profiles@[k as int].name@ == name@);
            lemma_saved_mixer_at(self.profiles@, name@, k as int);
        }
        let mixer = copy_mixer(&self.profiles[k].mixer);
        let refs = refs_of(&self.profiles);
        proof {
            let i = choose|i: int| 1 <= i <= 10_000 && !has_profile(self.profiles@, #[trigger] name_candidate(name@, i as nat, true));
            lemma_refs_taken(refs@, self.profiles@, name_candidate(name@, i as nat, true));
        }
        let copy = next_profile_name(name, refs.as_slice(), true);
        proof {
            lemma_refs_taken(refs@, self.profiles@, copy@);
            assert forall|j: int| 1 <= j <= 10_000 implies name_taken(refs@, #[trigger] name_candidate(name@, j as nat, true))
                == has_profile(self.profiles@, name_candidate(name@, j as nat, true)) by {
                lemma_refs_taken(refs@, self.profiles@, name_candidate(name@, j as nat, true));
            }
        }
        let ghost names0 = profile_names(self.profiles@);
        let ghost before = self.profiles@;
        self.profiles.push(SavedMixerProfile { name: String::from_str(copy.as_str()), mixer });
        assert(profile_names(self.profiles@) =~= names0.push(copy@));
        assert(self.profiles@.take(before.len() as int) =~= before);
        Ok(copy)
    }

    /// Makes the named profile active.
    pub fn set_active(&mut self, name: &str) -> (r: Result<(), BridgeError>)
        ensures
            !has_profile(old(self).profiles@, name@) ==> (r matches Err(BridgeError::InvalidValue(m))
                && m@ == "unknown mixer profile: "@ + name@) && *final(self) == *old(self),
            has_profile(old(self).profiles@, name@) ==> r is Ok && opt_text(final(self).active) == Some(name@)
                && final(self).profiles == old(self).profiles,
    {
        match self.find(name) {
            Some(k) => {
                assert(self.profiles@[k as int].name@ == name@);
            },
            None => {
                let mut text = String::from_str("unknown mixer profile: ");
                push_str(&mut text, name);
                return Err(BridgeError::InvalidValue(text));
            },
        }
        self.active = Some(String::from_str(name));
        Ok(())
    }

    /// Removes every profile with the name; the active profile is cleared
    /// when it was that one.
    pub fn delete(&mut self, name: &str) -> (r: Result<(), BridgeError>)
        ensures
            !has_profile(old(self).profiles@, name@) ==> (r matches Err(BridgeError::InvalidValue(m))
                && m@ == "unknown mixer profile: "@ + name@) && *final(self) == *old(self),
            has_profile(old(self).profiles@, name@) ==> r is Ok && !has_profile(final(self).profiles@, name@)
                && profile_names(final(self).profiles@)
                == profile_names(old(self).profiles@).filter(other_name(name@))
                && opt_text(final(self).active) == (if opt_text(old(self).active) == Some(name@) {
                None
            } else {
                opt_text(old(self).active)
            }),
    {
        if self.find(name).is_none() {
            let mut text = String::from_str("unknown mixer profile: ");
            push_str(&mut text, name);
            return Err(BridgeError::InvalidValue(text));
        }
        let mut kept: Vec<SavedMixerProfile> = Vec::new();
        let mut rest: Vec<SavedMixerProfile> = Vec::new();
        std::mem::swap(&mut rest, &mut self.profiles);
        let ghost all = rest@;
        let total = rest.len();
        let mut i: usize = 0;
        assert(profile_names(kept@) =~= profile_names(all.subrange(0, 0)).filter(other_name(name@))) by {
            reveal(Seq::filter);
            assert(profile_names(all.subrange(0, 0)) =~= Seq::<Seq<char>>::empty());
        }
        while rest.len() > 0
            invariant
                i + rest@.len() == all.len(),
                all.len() <= usize::MAX,
                rest@ == all.subrange(i as int, all.len() as int),
                profile_names(kept@) == profile_names(all.subrange(0, i as int)).filter(other_name(name@)),
                forall|k: int| 0 <= k < kept@.len() ==> (#[trigger] kept@[k]).name@ != name@,
            decreases rest@.len(),
        {
            let p = rest.remove(0);
            assert(p == all[i as int]);
            assert(rest@ =~= all.subrange(i + 1, all.len() as int));
            assert(profile_names(all.subrange(0, i + 1)) =~= profile_names(all.subrange(0, i as int)).push(p.name@));
            proof {
                profile_names(all.subrange(0, i as int)).lemma_filter_push(p.name@, other_name(name@));
            }
            let ghost before_kept = profile_names(kept@);
            if !str_eq(p.name.as_str(), name) {
                kept.push(p);
                assert(profile_names(kept@) =~= before_kept.push(p.name@));
            }
            i = i + 1;
        }
        assert(all.subrange(0, all.len() as int) =~= all);
        self.profiles = kept;
        let clear = match &self.active {
            Some(a) => str_eq(a.as_str(), name),
            None => false,
        };
        if clear {
            self.active = None;
        }
        Ok(())
    }
}

/// A decimal numeral is at least one digit, two from ten on, and only digits.
proof fn lemma_decimal_digits(n: nat)
    ensures
        decimal(n).len() >= 1,
        n >= 10 ==> decimal(n).len() >= 2,
        forall|k: int| 0 <= k < decimal(n).len() ==> '0' <= #[trigger] decimal(n)[k] <= '9',
    decreases n,
{
    assert(digit_char(n % 10) as u32 == (n % 10) % 10 + 48);
    if n >= 10 {
        lemma_decimal_digits(n / 10);
        let a = decimal(n / 10);
        assert(decimal(n) == a.push(digit_char(n % 10)));
        assert forall|k: int| 0 <= k < decimal(n).len() implies '0' <= #[trigger] decimal(n)[k] <= '9' by {
            if k < a.len() {
                assert(decimal(n)[k] == a[k]);
            }
        }
    } else {
        assert(decimal(n) == seq![digit_char(n)]);
    }
}

/// Distinct numbers have distinct numerals.
#[verifier::spinoff_prover]
proof fn lemma_decimal_injective(i: nat, j: nat)
    requires
        decimal(i) == decimal(j),
    ensures
        i == j,
    decreases i,
{
    lemma_decimal_digits(i);
    lemma_decimal_digits(j);
    assert(digit_char(i % 10) as u32 == (i % 10) % 10 + 48);
    assert(digit_char(j % 10) as u32 == (j % 10) % 10 + 48);
    if i < 10 && j < 10 {
        assert(decimal(i) == seq![digit_char(i)]);
        assert(decimal(j) == seq![digit_char(j)]);
        assert(decimal(i)[0] == decimal(j)[0]);
        vstd::arithmetic::div_mod::lemma_small_mod(i, 10);
        vstd::arithmetic::div_mod::lemma_small_mod(j, 10);
        assert(digit_char(i) as u32 == i + 48);
        assert(digit_char(j) as u32 == j + 48);
    } else if i >= 10 && j >= 10 {
        let a = decimal(i / 10);
        let b = decimal(j / 10);
        assert(decimal(i) == a.push(digit_char(i % 10)));
        assert(decimal(j) == b.push(digit_char(j % 10)));
        assert(a =~= decimal(i).drop_last());
        assert(b =~= decimal(j).drop_last());
        lemma_decimal_injective(i / 10, j / 10);
        assert(decimal(i).last() == decimal(j).last());
        assert(decimal(i).last() == digit_char(i % 10));
        assert(decimal(j).last() == digit_char(j % 10));
        assert(digit_char(i % 10) as u32 == digit_char(j % 10) as u32);
        vstd::arithmetic::div_mod::lemma_small_mod(i % 10, 10);
        vstd::arithmetic::div_mod::lemma_small_mod(j % 10, 10);
        assert(i % 10 == j % 10);
        vstd::arithmetic::div_mod::lemma_fundamental_div_mod(i as int, 10);
        vstd::arithmetic::div_mod::lemma_fundamental_div_mod(j as int, 10);
        assert(i == 10 * (i / 10) + i % 10);
        assert(j == 10 * (j / 10) + j % 10);
    } else {
        assert(decimal(i).len() != decimal(j).len());
    }
}

proof fn lemma_candidate_suffix_step(base: Seq<char>, i: nat, j: nat, parenthesized: bool)
    requires
        name_candidate(base, i, parenthesized) == name_candidate(base, j, parenthesized),
        name_suffix(i, parenthesized).len() <= name_suffix(j, parenthesized).len(),
    ensures
        i == j,
{
    reveal_strlit(" (");
    reveal_strlit(" ");
    reveal_strlit(")");
    assert(" ("@ =~= seq![' ', '(']);
    assert(" "@ =~= seq![' ']);
    assert(")"@ =~= seq![')']);
    let si = name_suffix(i, parenthesized);
    let sj = name_suffix(j, parenthesized);
    let n = name_candidate(base, i, parenthesized);
    let off = sj.len() - si.len();
    lemma_decimal_digits(i);
    lemma_decimal_digits(j);
    assert forall|k: int| 0 <= k < si.len() implies #[trigger] si[k] == sj[off + k] by {
        assert(n[n.len() - si.len() + k] == si[k]);
        assert(n[n.len() - sj.len() + off + k] == sj[off + k]);
    }
    if parenthesized {
        assert(si =~= seq![' ', '('] + decimal(i) + seq![')']);
        assert(sj =~= seq![' ', '('] + decimal(j) + seq![')']);
    } else {
        assert(si =~= seq![' '] + decimal(i));
        assert(sj =~= seq![' '] + decimal(j));
    }
    if off > 0 {
        assert(si[0] == ' ');
        assert(sj[off] == ' ');
        if parenthesized {
            if off >= 2 {
                assert(sj[off] == decimal(j)[off - 2]);
            }
        } else {
            assert(sj[off] == decimal(j)[off - 1]);
        }
    } else {
        assert(si =~= sj);
        if parenthesized {
            assert(decimal(i) =~= si.subrange(2, si.len() - 1));
            assert(decimal(j) =~= sj.subrange(2, sj.len() - 1));
        } else {
            assert(decimal(i) =~= si.subrange(1, si.len() as int));
            assert(decimal(j) =~= sj.subrange(1, sj.len() as int));
        }
        lemma_decimal_injective(i, j);
    }
}

/// Distinct numbers give distinct numbered names.
proof fn lemma_candidate_injective(base: Seq<char>, i: nat, j: nat, parenthesized: bool)
    requires
        name_candidate(base, i, parenthesized) == name_candidate(base, j, parenthesized),
    ensures
        i == j,
{
    if name_suffix(i, parenthesized).len() <= name_suffix(j, parenthesized).len() {
        lemma_candidate_suffix_step(base, i, j, parenthesized);
    } else {
        lemma_candidate_suffix_step(base, j, i, parenthesized);
    }
}

/// Ten to the power `d`.
pub open spec fn pow10(d: nat) -> nat
    decreases d,
{
    if d == 0 {
        1
    } else {
        10 * pow10((d - 1) as nat)
    }
}

proof fn lemma_decimal_len(n: nat, d: nat)
    requires
        1 <= d,
        n < pow10(d),
    ensures
        decimal(n).len() <= d,
    decreases n,
{
    if n >= 10 {
        assert(pow10(1) == 10) by {
            reveal_with_fuel(pow10, 2);
        }
        if d == 1 {
            assert(false);
        }
        let p = pow10((d - 1) as nat);
        assert(n / 10 < p) by (nonlinear_arith)
            requires
                n < 10 * p,
        ;
        lemma_decimal_len(n / 10, (d - 1) as nat);
    }
}

/// Every numbered candidate up to 10 000 keeps to 64 characters.
proof fn lemma_candidate_fits(base: Seq<char>, i: nat, parenthesized: bool)
    requires
        i <= 10_000,
    ensures
        name_candidate(base, i, parenthesized).len() <= 64,
{
    assert(pow10(5) == 100_000) by {
        reveal_with_fuel(pow10, 6);
    }
    lemma_decimal_len(i, 5);
    let suffix = name_suffix(i, parenthesized);
    reveal_strlit(" (");
    reveal_strlit(")");
    reveal_strlit(" ");
    assert(suffix.len() <= 8);
    let keep = 64 - suffix.len();
    let kept = base.take(if base.len() < keep { base.len() as int } else { keep });
    assert(kept.len() <= keep);
    assert(name_candidate(base, i, parenthesized) == kept + suffix);
}

/// Fewer than 10 000 names in use always leave a numbered name free.
pub proof fn lemma_name_space_left(base: Seq<char>, existing: Seq<&str>, parenthesized: bool)
    requires
        existing.len() < 10_000,
    ensures
        name_space_left(base, existing, parenthesized),
{
    if !(exists|i: int| 1 <= i <= 10_000 && !name_taken(existing, #[trigger] name_candidate(base, i as nat, parenthesized))) {
        let names = existing.map_values(|s: &str| s@);
        let used = names.to_set();
        names.lemma_cardinality_of_set();
        vstd::seq_lib::seq_to_set_is_finite(names);
        let x = vstd::set_lib::set_int_range(1, 10_001);
        vstd::set_lib::lemma_int_range(1, 10_001);
        let f = |i: int| name_candidate(base, i as nat, parenthesized);
        assert(vstd::relations::injective_on(f, x)) by {
            assert forall|a: int, b: int| x.contains(a) && x.contains(b) && #[trigger] f(a) == #[trigger] f(b) implies a == b by {
                lemma_candidate_injective(base, a as nat, b as nat, parenthesized);
            }
        }
        let y = x.map(f);
        vstd::set_lib::lemma_map_size(x, y, f);
        assert(y.subset_of(used)) by {
            assert forall|n: Seq<char>| y.contains(n) implies used.contains(n) by {
                let i = choose|i: int| x.contains(i) && n == f(i);
                assert(name_taken(existing, name_candidate(base, i as nat, parenthesized)));
                let k = choose|k: int| 0 <= k < existing.len() && (#[trigger] existing[k])@ == n;
                assert(names[k] == n);
            }
        }
        vstd::set_lib::lemma_len_subset(y, used);
    }
}

} // verus!
