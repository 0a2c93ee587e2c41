//! Hardware write gates of the BEACN Studio backend: the leased, exclusive
//! DSP write gate and the switches that enable writes at all.
use vstd::prelude::*;
use std::time::{Duration, Instant};
use crate::dsp::{DspWriteModule, module_name};
use crate::model::BridgeError;
use crate::text::{decimal, decimal_string, push_str};

verus! {

#[verifier::external_type_specification]
#[verifier::external_body]
pub struct ExInstant(Instant);

/// `Instant::now` (std): a reading of the monotonic clock.
#[verifier::external_body]
fn clock_now() -> (r: Instant) {
    Instant::now()
}

/// `Instant::elapsed` (std): the time since `origin` on the monotonic clock.
#[verifier::external_body]
fn clock_elapsed(origin: &Instant) -> (r: Duration) {
    origin.elapsed()
}

/// `Duration::as_nanos` (std): the whole duration in nanoseconds.
#[verifier::external_body]
fn duration_as_nanos(d: &Duration) -> (r: u128) {
    d.as_nanos()
}

/// `a + b` saturating at `u64::MAX`.
pub open spec fn sat_add(a: u64, b: u64) -> u64 {
    if a + b > u64::MAX {
        u64::MAX
    } else {
        (a + b) as u64
    }
}

fn saturate(n: u128) -> (r: u64)
    ensures
        r == (if n > u64::MAX as u128 { u64::MAX } else { n as u64 }),
{
    if n > u64::MAX as u128 {
        u64::MAX
    } else {
        n as u64
    }
}

/// A lease that lets exactly one DSP module be written until it expires.
/// Times are nanoseconds on the monotonic clock counted from `origin`.
pub struct DspWriteGate {
    origin: Instant,
    reading: u64,
    lease: Option<(DspWriteModule, u64)>,
}

/// What a lease answers at clock reading `now`: the armed module and its
/// remaining nanoseconds while the lease is live, else nothing.
pub open spec fn lease_answer(lease: Option<(DspWriteModule, u64)>, now: u64) -> Option<(DspWriteModule, u64)> {
    match lease {
        Some((m, expires)) => if now >= expires {
            None
        } else {
            Some((m, (expires - now) as u64))
        },
        None => None,
    }
}

/// The lease kept after asking at `now`: an expired lease is cleared.
pub open spec fn lease_after(lease: Option<(DspWriteModule, u64)>, now: u64) -> Option<(DspWriteModule, u64)> {
    match lease {
        Some((m, expires)) => if now >= expires {
            None
        } else {
            lease
        },
        None => None,
    }
}

impl DspWriteGate {
    /// The armed module and the clock reading at which it expires.
    pub closed spec fn lease_state(&self) -> Option<(DspWriteModule, u64)> {
        self.lease
    }

    /// Nanoseconds counted on the monotonic clock, never decreasing.
    pub closed spec fn clock_nanos(&self) -> u64 {
        self.reading
    }

    /// A gate with nothing armed.
    pub fn new() -> (r: Self)
        ensures
            r.lease_state() is None,
            r.clock_nanos() == 0,
    {
        DspWriteGate { origin: clock_now(), reading: 0, lease: None }
    }

    /// Reads the clock: nanoseconds from `origin`, never less than an
    /// earlier reading.
    fn read_clock(&mut self) -> (r: u64)
        ensures
            r == final(self).clock_nanos(),
            r >= old(self).clock_nanos(),
            final(self).lease_state() == old(self).lease_state(),
    {
        let elapsed = clock_elapsed(&self.origin);
        let now = saturate(duration_as_nanos(&elapsed));
        if now > self.reading {
            self.reading = now;
        }
        self.reading
    }

    /// Arms `module` alone until `lease_nanos` after `now`, replacing any
    /// earlier lease.
    pub fn arm_exclusive_at(&mut self, module: DspWriteModule, now: u64, lease_nanos: u64)
        ensures
            final(self).lease_state() == Some((module, sat_add(now, lease_nanos))),
            final(self).clock_nanos() == old(self).clock_nanos(),
    {
        let expires = now.saturating_add(lease_nanos);
        self.lease = Some((module, expires));
    }

    /// The armed module and its remaining nanoseconds at `now`; an expired
    /// lease is cleared.
    pub fn active_lease_at(&mut self, now: u64) -> (r: Option<(DspWriteModule, u64)>)
        ensures
            r == lease_answer(old(self).lease_state(), now),
            final(self).lease_state() == lease_after(old(self).lease_state(), now),
            final(self).clock_nanos() == old(self).clock_nanos(),
    {
        match self.lease {
            Some((module, expires)) => {
                if now >= expires {
                    self.lease = None;
                    None
                } else {
                    Some((module, expires - now))
                }
            },
            None => None,
        }
    }

    /// Arms `module` alone for `lease_nanos` nanoseconds from a fresh clock
    /// reading, replacing any earlier lease.
    pub fn arm_exclusive(&mut self, module: DspWriteModule, lease_nanos: u64) -> (r: Result<
        (),
        BridgeError,
    >)
        ensures
            r is Ok,
            final(self).clock_nanos() >= old(self).clock_nanos(),
            final(self).lease_state() == Some((module, sat_add(final(self).clock_nanos(), lease_nanos))),
    {
        let now = self.read_clock();
        self.arm_exclusive_at(module, now, lease_nanos);
        Ok(())
    }

    /// Clears any lease.
    pub fn disarm(&mut self) -> (r: Result<(), BridgeError>)
        ensures
            r is Ok,
            final(self).lease_state() is None,
            final(self).clock_nanos() == old(self).clock_nanos(),
    {
        self.lease = None;
        Ok(())
    }

    /// The armed module and its remaining nanoseconds, if the lease is live
    /// at a fresh clock reading; an expired lease is cleared.
    pub fn active_lease(&mut self) -> (r: Result<Option<(DspWriteModule, u64)>, BridgeError>)
        ensures
            final(self).clock_nanos() >= old(self).clock_nanos(),
            r == Ok::<Option<(DspWriteModule, u64)>, BridgeError>(
                lease_answer(old(self).lease_state(), final(self).clock_nanos()),
            ),
            final(self).lease_state() == lease_after(old(self).lease_state(), final(self).clock_nanos()),
    {
        let now = self.read_clock();
        Ok(self.active_lease_at(now))
    }

    /// The module whose writes the live lease enables, if any, at a fresh
    /// clock reading; an expired lease is cleared.
    pub fn enabled_module(&mut self) -> (r: Result<Option<DspWriteModule>, BridgeError>)
        ensures
            final(self).clock_nanos() >= old(self).clock_nanos(),
            r == Ok::<Option<DspWriteModule>, BridgeError>(
                live_module(old(self).lease_state(), final(self).clock_nanos()),
            ),
            final(self).lease_state() == lease_after(old(self).lease_state(), final(self).clock_nanos()),
    {
        match self.active_lease() {
            Ok(Some((module, _))) => Ok(Some(module)),
            Ok(None) => Ok(None),
            Err(e) => Err(e),
        }
    }
}

/// The module a lease enables at clock reading `at`.
pub open spec fn live_module(lease: Option<(DspWriteModule, u64)>, at: u64) -> Option<DspWriteModule> {
    match lease {
        Some((m, expires)) => if at >= expires {
            None
        } else {
            Some(m)
        },
        None => None,
    }
}

/// Arming a module replaces whatever was armed, so the lease enables one
/// module at most: the one armed last, until its expiry and never after.
pub proof fn lemma_lease_is_exclusive_and_expires(module: DspWriteModule, now: u64, lease_nanos: u64, at: u64)
    ensures
        at < sat_add(now, lease_nanos) ==> live_module(Some((module, sat_add(now, lease_nanos))), at)
            == Some(module) && lease_answer(Some((module, sat_add(now, lease_nanos))), at) == Some(
            (module, (sat_add(now, lease_nanos) - at) as u64),
        ),
        at >= sat_add(now, lease_nanos) ==> live_module(Some((module, sat_add(now, lease_nanos))), at)
            is None && lease_after(Some((module, sat_add(now, lease_nanos))), at) is None,
        lease_nanos == 0 && at >= now ==> live_module(Some((module, sat_add(now, lease_nanos))), at) is None,
        now <= at ==> match lease_answer(Some((module, sat_add(now, lease_nanos))), at) {
            Some((_, remaining)) => remaining <= lease_nanos,
            None => true,
        },
        live_module(None, at) is None,
{
}

/// The write switches of a BEACN Studio backend.
#[derive(Debug, Clone)]
pub struct WritePolicy {
    pub allow_writes: bool,
    pub link_control_enabled: bool,
    pub enabled_dsp_writes: Vec<DspWriteModule>,
}

/// The refusal of a hardware write.
pub open spec fn writes_disabled_text() -> Seq<char> {
    "hardware writes are disabled; restart with --allow-hardware-writes after read-only validation"@
}

/// The refusal of a Link write.
pub open spec fn link_disabled_text() -> Seq<char> {
    "Link control is disabled; restart with --enable-link-host after read-only validation"@
}

/// The refusal of a DSP write for a module.
pub open spec fn dsp_disabled_text(module: DspWriteModule) -> Seq<char> {
    module_name(module)
        + " writes are disabled; enable only that DSP module after read-only validation"@
}

impl WritePolicy {
    pub fn ensure_writes_enabled(&self) -> (r: Result<(), BridgeError>)
        ensures
            self.allow_writes ==> r is Ok,
            !self.allow_writes ==> (r matches Err(BridgeError::Backend(m)) && m@
                == writes_disabled_text()),
    {
        if self.allow_writes {
            Ok(())
        } else {
            Err(
                BridgeError::Backend(
                    String::from_str(
                        "hardware writes are disabled; restart with --allow-hardware-writes after read-only validation",
                    ),
                ),
            )
        }
    }

    /// Link control is its own switch, which general hardware writes imply.
    pub fn ensure_link_control_enabled(&self) -> (r: Result<(), BridgeError>)
        ensures
            (self.link_control_enabled || self.allow_writes) ==> r is Ok,
            !(self.link_control_enabled || self.allow_writes) ==> (r matches Err(
                BridgeError::Backend(m),
            ) && m@ == link_disabled_text()),
    {
        if self.link_control_enabled || self.allow_writes {
            Ok(())
        } else {
            Err(
                BridgeError::Backend(
                    String::from_str(
                        "Link control is disabled; restart with --enable-link-host after read-only validation",
                    ),
                ),
            )
        }
    }

    /// A DSP write is allowed for a module enabled at start-up or for the
    /// module the live lease enables.
    pub fn ensure_dsp_write_enabled(&self, gate: &mut DspWriteGate, module: DspWriteModule) -> (r:
        Result<(), BridgeError>)
        ensures
            ({
                let leased = live_module(old(gate).lease_state(), final(gate).clock_nanos()) == Some(module);
                let allowed = self.enabled_dsp_writes@.contains(module) || leased;
                &&& allowed ==> r is Ok
                &&& !allowed ==> (r matches Err(BridgeError::Backend(m)) && m@ == dsp_disabled_text(
                    module,
                ))
            }),
            final(gate).clock_nanos() >= old(gate).clock_nanos(),
            final(gate).lease_state() == lease_after(old(gate).lease_state(), final(gate).clock_nanos()),
    {
        let mut i: usize = 0;
        let mut enabled = false;
        while i < self.enabled_dsp_writes.len()
            invariant
                i <= self.enabled_dsp_writes@.len(),
                enabled == exists|j: int| 0 <= j < i && self.enabled_dsp_writes@[j] == module,
            decreases self.enabled_dsp_writes@.len() - i,
        {
            if self.enabled_dsp_writes[i] == module {
                enabled = true;
            }
            i = i + 1;
        }
        let leased = match gate.enabled_module() {
            Ok(Some(m)) => m == module,
            _ => false,
        };
        if enabled || leased {
            Ok(())
        } else {
            let mut text = String::from_str(module.as_str());
            push_str(&mut text, " writes are disabled; enable only that DSP module after read-only validation");
            Err(BridgeError::Backend(text))
        }
    }
}

/// The packet that keeps the BEACN Link host alive: no payload, companion tag.
pub const LINK_HEARTBEAT: [u8; 4] = [0x00u8, 0x00u8, 0x00u8, 0xACu8];

/// The heartbeat packet.
pub fn link_heartbeat() -> (r: [u8; 4])
    ensures
        r@ == seq![0x00u8, 0x00u8, 0x00u8, 0xACu8],
{
    let r = LINK_HEARTBEAT;
    assert(r@ =~= seq![0x00u8, 0x00u8, 0x00u8, 0xACu8]);
    r
}

/// The outcome of writing the heartbeat: anything short of the whole packet
/// is an error.
pub fn heartbeat_write_result(written: usize) -> (r: Result<(), BridgeError>)
    ensures
        written == 4 ==> r is Ok,
        written != 4 ==> (r matches Err(BridgeError::Backend(m)) && m@ == "short Link heartbeat write: "@
            + decimal(written as nat) + "/4 bytes"@),
{
    if written == 4 {
        Ok(())
    } else {
        let mut text = String::from_str("short Link heartbeat write: ");
        let digits = decimal_string(written as u64);
        push_str(&mut text, digits.as_str());
        push_str(&mut text, "/4 bytes");
        Err(BridgeError::Backend(text))
    }
}

} // verus!
