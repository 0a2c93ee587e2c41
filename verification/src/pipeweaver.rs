//! Mixer rules of the PipeWeaver backend that do not depend on its wire
//! types: mute targets, BEACN Link output assignments and device ids.
use vstd::prelude::*;
use ulid::Ulid;
use crate::model::{
    BridgeError, MixerLinkOutputAssignment, MixerPhysicalDeviceChoice, MixerTarget, MuteState,
    link_slot_spec, beacn_link_output_slot,
};
use crate::profile::{device_matches, physical_device_matches, opt_chars_of};
use crate::reconcile::{first_where, lemma_first_where_stable, lemma_first_where_none, lemma_first_where_some};
use crate::text::{decimal, decimal_string, push_str};

verus! {

/// The personal and audience mute of a source's mute state.
pub open spec fn mute_pair(state: MuteState) -> (bool, bool) {
    match state {
        MuteState::Unmuted => (false, false),
        MuteState::MutedAll => (true, true),
        MuteState::MutedAudience => (false, true),
        MuteState::MutedPersonal => (true, false),
    }
}

pub fn mute_targets(state: MuteState) -> (r: (bool, bool))
    ensures
        r == mute_pair(state),
{
    match state {
        MuteState::Unmuted => (false, false),
        MuteState::MutedAll => (true, true),
        MuteState::MutedAudience => (false, true),
        MuteState::MutedPersonal => (true, false),
    }
}

/// Each mute state is a distinct pair, so targets determine the state.
pub proof fn lemma_mute_targets_injective(a: MuteState, b: MuteState)
    requires
        mute_pair(a) == mute_pair(b),
    ensures
        a == b,
{
}

/// A character as the ULID decoder reads it: ASCII lowercase letters as
/// their uppercase.
pub open spec fn crockford_upper(c: char) -> char {
    if 'a' <= c && c <= 'z' {
        ((c as u32) - 32) as char
    } else {
        c
    }
}

/// The value of one Crockford base32 digit: its position in
/// `0123456789ABCDEFGHJKMNPQRSTVWXYZ` (either case), or none.
pub open spec fn crockford_digit(c: char) -> Option<int> {
    let alphabet = "0123456789ABCDEFGHJKMNPQRSTVWXYZ"@;
    if exists|i: int| 0 <= i < 32 && alphabet[i] == crockford_upper(c) {
        Some(choose|i: int| 0 <= i < 32 && alphabet[i] == crockford_upper(c))
    } else {
        None
    }
}

/// The first `n` digits read most significant first, each step shifting
/// five bits in and dropping what leaves the 128 bits; none at a character
/// outside the alphabet.
pub open spec fn crockford_value(s: Seq<char>, n: nat) -> Option<u128>
    decreases n,
{
    if n == 0 {
        Some(0)
    } else {
        match (crockford_value(s, (n - 1) as nat), crockford_digit(s[n - 1])) {
            (Some(v), Some(d)) => Some(((v * 32 + d) % 0x1_0000_0000_0000_0000_0000_0000_0000_0000int) as u128),
            _ => None,
        }
    }
}

/// What `Ulid::from_string` decodes: the value of exactly 26 Crockford
/// base32 digits, or nothing.
pub open spec fn ulid_value(text: Seq<char>) -> Option<u128> {
    if text.len() == 26 {
        crockford_value(text, 26)
    } else {
        None
    }
}

/// `Ulid::from_string` (ulid crate): decodes a ULID as `ulid_value` states,
/// following `base32::decode`: a length of 26 bytes, then a lookup of each
/// byte, folded in five bits at a time.
#[verifier::external_body]
fn ulid_from_string(text: &str) -> (r: Option<u128>)
    ensures
        r == ulid_value(text@),
{
    match Ulid::from_string(text) {
        Ok(value) => Some(value.0),
        Err(_) => None,
    }
}

/// A PipeWeaver device id: the ULID value, or an invalid-value error that
/// names the text.
pub fn parse_device_id(device_id: &str) -> (r: Result<u128, BridgeError>)
    ensures
        match ulid_value(device_id@) {
            Some(v) => r == Ok::<u128, BridgeError>(v),
            None => r matches Err(BridgeError::InvalidValue(m)) && m@
                == "invalid PipeWeaver device id: "@ + device_id@,
        },
{
    match ulid_from_string(device_id) {
        Some(value) => Ok(value),
        None => {
            let mut text = String::from_str("invalid PipeWeaver device id: ");
            push_str(&mut text, device_id);
            Err(BridgeError::InvalidValue(text))
        },
    }
}

/// The outputs that are BEACN Link slot `slot`.
pub open spec fn slot_pred(outputs: Seq<MixerPhysicalDeviceChoice>, slot: u8) -> spec_fn(int) -> bool {
    |k: int| link_slot_spec(outputs[k].name@, outputs[k].descriptor) == Some(slot)
}

/// The targets attached to an output.
pub open spec fn attached_pred(targets: Seq<MixerTarget>, output: MixerPhysicalDeviceChoice) -> spec_fn(int) -> bool {
    |t: int|
        exists|j: int|
            0 <= j < targets[t].attached_devices@.len() && device_matches(
                #[trigger] targets[t].attached_devices@[j],
                output.descriptor,
            )
}

/// The display name of a Link output.
pub open spec fn link_output_name(slot: u8) -> Seq<char> {
    if slot == 1 {
        "Link Out"@
    } else {
        "Link "@ + decimal(slot as nat) + " Out"@
    }
}

/// The assignment of Link slot `slot`, if some output is that slot: the
/// first such output, and the first target attached to it.
pub open spec fn slot_assignment(targets: Seq<MixerTarget>, outputs: Seq<MixerPhysicalDeviceChoice>, slot: u8) -> Seq<(u8, u32, Seq<char>, Option<Seq<char>>)> {
    match first_where(outputs.len(), slot_pred(outputs, slot)) {
        Some(k) => seq![
            (
                slot,
                outputs[k].node_id,
                link_output_name(slot),
                match first_where(targets.len(), attached_pred(targets, outputs[k])) {
                    Some(t) => Some(targets[t].id@),
                    None => None,
                },
            ),
        ],
        None => Seq::empty(),
    }
}

pub open spec fn assignment_view(a: MixerLinkOutputAssignment) -> (u8, u32, Seq<char>, Option<Seq<char>>) {
    (a.slot, a.node_id, a.name@, opt_chars_of(a.target_id))
}

/// The Link output assignments in slot order, one per slot present.
pub open spec fn assignments_upto(targets: Seq<MixerTarget>, outputs: Seq<MixerPhysicalDeviceChoice>, n: u8) -> Seq<(u8, u32, Seq<char>, Option<Seq<char>>)>
    decreases n,
{
    if n == 0 {
        Seq::empty()
    } else {
        assignments_upto(targets, outputs, (n - 1) as u8) + slot_assignment(targets, outputs, n)
    }
}

fn first_target_attached(targets: &[MixerTarget], output: &MixerPhysicalDeviceChoice) -> (r: Option<String>)
    ensures
        opt_chars_of(r) == (match first_where(targets@.len(), attached_pred(targets@, *output)) {
            Some(t) => Some(targets@[t].id@),
            None => None,
        }),
{
    let ghost p = attached_pred(targets@, *output);
    let mut t: usize = 0;
    while t < targets.len()
        invariant
            t <= targets@.len(),
            p == attached_pred(targets@, *output),
            first_where(t as nat, p) is None,
        decreases targets@.len() - t,
    {
        let att = &targets[t].attached_devices;
        let mut j: usize = 0;
        let mut found = false;
        while j < att.len()
            invariant
                j <= att@.len(),
                t < targets@.len(),
                att == targets@[t as int].attached_devices,
                found == exists|m: int| 0 <= m < j && device_matches(#[trigger] att@[m], output.descriptor),
            decreases att@.len() - j,
        {
            if physical_device_matches(&att[j], &output.descriptor) {
                found = true;
            }
            j = j + 1;
        }
        if found {
            proof {
                assert(p(t as int));
                lemma_first_where_stable((t + 1) as nat, targets@.len(), p);
            }
            return Some(String::from_str(targets[t].id.as_str()));
        }
        assert(!p(t as int));
        t = t + 1;
    }
    None
}

/// The BEACN Link outputs among the physical outputs, one per slot in slot
/// order, with the target each one is attached to.
pub fn link_output_assignments(targets: &[MixerTarget], outputs: &[MixerPhysicalDeviceChoice]) -> (r:
    Vec<MixerLinkOutputAssignment>)
    ensures
        r@.map_values(|a: MixerLinkOutputAssignment| assignment_view(a)) == assignments_upto(
            targets@,
            outputs@,
            4,
        ),
{
    let mut out: Vec<MixerLinkOutputAssignment> = Vec::new();
    let mut slot: u8 = 1;
    assert(out@.map_values(|a: MixerLinkOutputAssignment| assignment_view(a)) =~= assignments_upto(targets@, outputs@, 0));
    while slot <= 4
        invariant
            1 <= slot <= 5,
            out@.map_values(|a: MixerLinkOutputAssignment| assignment_view(a)) == assignments_upto(
                targets@,
                outputs@,
                (slot - 1) as u8,
            ),
        decreases 5 - slot,
    {
        let ghost p = slot_pred(outputs@, slot);
        let mut k: usize = 0;
        let mut chosen: Option<usize> = None;
        while k < outputs.len() && chosen.is_none()
            invariant
                k <= outputs@.len(),
                p == slot_pred(outputs@, slot),
                chosen is None ==> first_where(k as nat, p) is None,
                chosen matches Some(x) ==> x < outputs@.len() && first_where(outputs@.len(), p) == Some(x as int),
            decreases outputs@.len() - k + if chosen is None { 1int } else { 0int },
        {
            let output = &outputs[k];
            if beacn_link_output_slot(output.name.as_str(), &output.descriptor) == Some(slot) {
                proof {
                    assert(p(k as int));
                    lemma_first_where_stable((k + 1) as nat, outputs@.len(), p);
                }
                chosen = Some(k);
            } else {
                assert(!p(k as int));
                k = k + 1;
            }
        }
        let ghost before = out@;
        match chosen {
            Some(x) => {
                let output = &outputs[x];
                let name = if slot == 1 {
                    String::from_str("Link Out")
                } else {
                    let mut text = String::from_str("Link ");
                    let digits = decimal_string(slot as u64);
                    push_str(&mut text, digits.as_str());
                    push_str(&mut text, " Out");
                    text
                };
                let target_id = first_target_attached(targets, output);
                out.push(MixerLinkOutputAssignment { slot, node_id: output.node_id, name, target_id });
            },
            None => {},
        }
        assert(out@.map_values(|a: MixerLinkOutputAssignment| assignment_view(a)) =~= assignments_upto(
            targets@,
            outputs@,
            slot,
        ));
        slot = slot + 1;
    }
    out
}

/// The Link output assignments list the Link slots present among the
/// outputs in increasing slot order, each once: an entry of slot `s` is the
/// first output that is Link slot `s`, and every slot from 1 to `n` that some
/// output is appears.
proof fn lemma_assignments_upto_slots(targets: Seq<MixerTarget>, outputs: Seq<MixerPhysicalDeviceChoice>, n: u8)
    requires
        n <= 4,
    ensures
        ({
            let a = assignments_upto(targets, outputs, n);
            &&& forall|i: int, j: int| 0 <= i < j < a.len() ==> (#[trigger] a[i]).0 < (#[trigger] a[j]).0
            &&& forall|i: int|
                0 <= i < a.len() ==> 1 <= (#[trigger] a[i]).0 <= n && exists|k: int|
                    0 <= k < outputs.len() && (#[trigger] outputs[k]).node_id == a[i].1 && link_slot_spec(
                        outputs[k].name@,
                        outputs[k].descriptor,
                    ) == Some(a[i].0) && forall|k2: int|
                        0 <= k2 < k ==> link_slot_spec(
                            (#[trigger] outputs[k2]).name@,
                            outputs[k2].descriptor,
                        ) != Some(a[i].0)
            &&& forall|k: int|
                0 <= k < outputs.len() && (#[trigger] outputs[k]).slot_of() is Some && outputs[k].slot_of()->0 <= n
                    ==> exists|i: int| 0 <= i < a.len() && (#[trigger] a[i]).0 == outputs[k].slot_of()->0
        }),
    decreases n,
{
    if n > 0 {
        let m = (n - 1) as u8;
        lemma_assignments_upto_slots(targets, outputs, m);
        let prev = assignments_upto(targets, outputs, m);
        let add = slot_assignment(targets, outputs, n);
        let a = assignments_upto(targets, outputs, n);
        assert(a == prev + add);
        let p = slot_pred(outputs, n);
        if first_where(outputs.len(), p) is Some {
            lemma_first_where_some(outputs.len(), p);
            let k = first_where(outputs.len(), p)->0;
            assert(add.len() == 1);
            assert(add[0].0 == n && add[0].1 == outputs[k].node_id);
            assert(p(k));
            assert forall|k2: int| 0 <= k2 < k implies link_slot_spec(
                (#[trigger] outputs[k2]).name@,
                outputs[k2].descriptor,
            ) != Some(n) by {
                assert(!p(k2));
            }
        } else {
            lemma_first_where_none(outputs.len(), p);
            assert(add.len() == 0);
        }
        assert forall|i: int, j: int| 0 <= i < j < a.len() implies (#[trigger] a[i]).0 < (#[trigger] a[j]).0 by {
            if j < prev.len() {
                assert(a[i] == prev[i]);
                assert(a[j] == prev[j]);
            } else {
                assert(a[i] == prev[i]);
                assert(a[j] == add[j - prev.len()]);
            }
        }
        assert forall|i: int| 0 <= i < a.len() implies 1 <= (#[trigger] a[i]).0 <= n && exists|k: int|
            0 <= k < outputs.len() && (#[trigger] outputs[k]).node_id == a[i].1 && link_slot_spec(
                outputs[k].name@,
                outputs[k].descriptor,
            ) == Some(a[i].0) && forall|k2: int|
                0 <= k2 < k ==> link_slot_spec((#[trigger] outputs[k2]).name@, outputs[k2].descriptor) != Some(a[i].0) by {
            if i < prev.len() {
                assert(a[i] == prev[i]);
            } else {
                assert(a[i] == add[i - prev.len()]);
                let k = first_where(outputs.len(), p)->0;
                assert(p(k));
            }
        }
        assert forall|k: int|
            0 <= k < outputs.len() && (#[trigger] outputs[k]).slot_of() is Some && outputs[k].slot_of()->0 <= n implies exists|
            i: int,
        | 0 <= i < a.len() && (#[trigger] a[i]).0 == outputs[k].slot_of()->0 by {
            let s = outputs[k].slot_of()->0;
            crate::model::lemma_link_slot_range(outputs[k].name@, outputs[k].descriptor);
            if s < n {
                let i = choose|i: int| 0 <= i < prev.len() && (#[trigger] prev[i]).0 == s;
                assert(a[i] == prev[i]);
            } else {
                assert(p(k));
                assert(first_where(outputs.len(), p) is Some);
                assert(a[prev.len() as int] == add[0]);
            }
        }
    }
}

/// The Link output assignments list the BEACN Link outputs in increasing
/// slot order, each slot once: every entry is the first output that is its
/// slot (1 to 4), and every Link slot that some output is has an entry.
pub proof fn lemma_link_assignments_by_slot(targets: Seq<MixerTarget>, outputs: Seq<MixerPhysicalDeviceChoice>)
    ensures
        ({
            let a = assignments_upto(targets, outputs, 4);
            &&& forall|i: int, j: int| 0 <= i < j < a.len() ==> (#[trigger] a[i]).0 < (#[trigger] a[j]).0
            &&& forall|i: int|
                0 <= i < a.len() ==> 1 <= (#[trigger] a[i]).0 <= 4 && exists|k: int|
                    0 <= k < outputs.len() && (#[trigger] outputs[k]).node_id == a[i].1 && link_slot_spec(
                        outputs[k].name@,
                        outputs[k].descriptor,
                    ) == Some(a[i].0) && forall|k2: int|
                        0 <= k2 < k ==> link_slot_spec(
                            (#[trigger] outputs[k2]).name@,
                            outputs[k2].descriptor,
                        ) != Some(a[i].0)
            &&& forall|k: int|
                0 <= k < outputs.len() && (#[trigger] outputs[k]).slot_of() is Some ==> exists|i: int|
                    0 <= i < a.len() && (#[trigger] a[i]).0 == outputs[k].slot_of()->0
        }),
{
    lemma_assignments_upto_slots(targets, outputs, 4);
    assert forall|k: int|
        0 <= k < outputs.len() && (#[trigger] outputs[k]).slot_of() is Some implies exists|i: int|
        0 <= i < assignments_upto(targets, outputs, 4).len() && (#[trigger] assignments_upto(targets, outputs, 4)[i]).0
            == outputs[k].slot_of()->0 by {
        crate::model::lemma_link_slot_range(outputs[k].name@, outputs[k].descriptor);
    }
}

} // verus!
