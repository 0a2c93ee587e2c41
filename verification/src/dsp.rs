//! The microphone DSP vocabulary shared by the daemon, its backends and the
//! desktop client.
use vstd::prelude::*;

verus! {

#[derive(Debug, Clone, Copy, PartialEq, Eq, Structural)]
pub enum DspMode {
    Simple,
    Advanced,
}

#[derive(Debug, Clone, Copy, PartialEq, Eq, Structural)]
pub enum EqualizerBandType {
    NotSet,
    LowPass,
    HighPass,
    Notch,
    Bell,
    LowShelf,
    HighShelf,
}

#[derive(Debug, Clone, Copy, PartialEq, Eq, Structural)]
pub enum NoiseSuppressionStyle {
    Off,
    Adaptive,
    Snapshot,
}

#[derive(Debug, Clone, Copy, PartialEq, Eq, Structural)]
pub enum HeadphoneEqBand {
    Bass,
    Mids,
    Treble,
}

#[derive(Debug, Clone, Copy, PartialEq, Eq, Structural)]
pub struct SubwooferState {
    pub enabled: bool,
    pub amount: u8,
}

impl Default for SubwooferState {
    fn default() -> (r: Self)
        ensures
            !r.enabled,
            r.amount == 0,
    {
        SubwooferState { enabled: false, amount: 0 }
    }
}

/// A DSP module whose writes can be enabled on its own.
#[derive(Debug, Clone, Copy, PartialEq, Eq, Hash, Structural)]
pub enum DspWriteModule {
    Equalizer,
    Compressor,
    Expander,
    NoiseSuppression,
    EnhancementSuite,
    HeadphoneEqualizer,
}

/// The wire name of a module.
pub open spec fn module_name(module: DspWriteModule) -> Seq<char> {
    match module {
        DspWriteModule::Equalizer => "equalizer"@,
        DspWriteModule::Compressor => "compressor"@,
        DspWriteModule::Expander => "expander"@,
        DspWriteModule::NoiseSuppression => "noise_suppression"@,
        DspWriteModule::EnhancementSuite => "enhancement_suite"@,
        DspWriteModule::HeadphoneEqualizer => "headphone_equalizer"@,
    }
}

impl DspWriteModule {
    /// Every module, in display order.
    pub fn all() -> (r: [DspWriteModule; 6])
        ensures
            r@ == seq![
                DspWriteModule::Equalizer,
                DspWriteModule::Compressor,
                DspWriteModule::Expander,
                DspWriteModule::NoiseSuppression,
                DspWriteModule::EnhancementSuite,
                DspWriteModule::HeadphoneEqualizer,
            ],
    {
        let r = [
            DspWriteModule::Equalizer,
            DspWriteModule::Compressor,
            DspWriteModule::Expander,
            DspWriteModule::NoiseSuppression,
            DspWriteModule::EnhancementSuite,
            DspWriteModule::HeadphoneEqualizer,
        ];
        assert(r@ =~= seq![
            DspWriteModule::Equalizer,
            DspWriteModule::Compressor,
            DspWriteModule::Expander,
            DspWriteModule::NoiseSuppression,
            DspWriteModule::EnhancementSuite,
            DspWriteModule::HeadphoneEqualizer,
        ]);
        r
    }

    pub fn as_str(self) -> (r: &'static str)
        ensures
            r@ == module_name(self),
    {
        match self {
            DspWriteModule::Equalizer => "equalizer",
            DspWriteModule::Compressor => "compressor",
            DspWriteModule::Expander => "expander",
            DspWriteModule::NoiseSuppression => "noise_suppression",
            DspWriteModule::EnhancementSuite => "enhancement_suite",
            DspWriteModule::HeadphoneEqualizer => "headphone_equalizer",
        }
    }
}

/// Distinct modules have distinct wire names.
pub proof fn lemma_module_names_distinct(a: DspWriteModule, b: DspWriteModule)
    requires
        a != b,
    ensures
        module_name(a) != module_name(b),
{
    reveal_strlit("equalizer");
    reveal_strlit("compressor");
    reveal_strlit("expander");
    reveal_strlit("noise_suppression");
    reveal_strlit("enhancement_suite");
    reveal_strlit("headphone_equalizer");
    assert(module_name(a).len() != module_name(b).len() || module_name(a)[0] != module_name(b)[0]
        || module_name(a)[1] != module_name(b)[1]);
}

} // verus!
