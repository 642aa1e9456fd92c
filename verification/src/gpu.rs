//! Graphics cards.

pub mod amd;
pub mod intel;
pub mod model;
pub mod nvidia;

use crate::binary64::Binary64;
use crate::sensors;
use crate::sensors::SensorSpec;
use crate::text;
use vstd::prelude::*;

verus! {

#[derive(Clone, Copy, Debug, PartialEq, Eq, Structural)]
pub enum GpuProvider {
    Amd,
    Nvidia,
    Intel,
}

#[derive(Debug)]
pub struct GpuConfig {
    /// The PCI address, such as `0000:03:00.0`.
    pub id: String,
    pub provider: GpuProvider,
    /// The sensors that give this card's temperature.
    pub gpu_temp_sensors: Vec<SensorSpec>,
    /// Whether to show this card in the bar; if not, in the popup only.
    pub bar: bool,
}

/// A measured number, as far as it can be said without floating-point arithmetic.
#[derive(Debug)]
pub enum Measure {
    /// The number that a text stands for; 0 when it stands for none.
    Text(String),
    /// A number divided by another.
    Scaled { value: Binary64, divisor: u32 },
    /// `part / whole` in percent, brought into 0 to 100.
    Share { part: u64, whole: u128 },
}

#[derive(Debug)]
pub struct GpuInfo {
    pub id: String,
    /// "iGPU", "dGPU", or nothing on hosts with a single card.
    pub label: String,
    /// The marketing name, or the PCI address when none is known.
    pub model: String,
    pub provider: GpuProvider,
    /// Percent.
    pub gpu_usage: Measure,
    pub mem_used: u64,
    pub mem_total: u64,
    /// AMD only, 0 for other providers.
    pub gtt_used: u64,
    /// AMD only, 0 for other providers.
    pub gtt_total: u64,
    /// Degrees Celsius.
    pub temperature: Measure,
    pub power_watts: Measure,
    pub in_bar: bool,
}

#[derive(Debug)]
pub struct GpuState {
    pub gpus: Vec<GpuInfo>,
}

/// The content of a configuration.
pub struct Config {
    pub id: Seq<char>,
    pub provider: GpuProvider,
    pub sensors: Seq<sensors::Request>,
    pub bar: bool,
}

/// The content of a measured number.
pub enum Amount {
    Text(Seq<char>),
    Scaled { value: Binary64, divisor: u32 },
    Share { part: u64, whole: u128 },
}

/// The content of what is known of a card.
pub struct Info {
    pub id: Seq<char>,
    pub label: Seq<char>,
    pub model: Seq<char>,
    pub provider: GpuProvider,
    pub gpu_usage: Amount,
    pub mem_used: u64,
    pub mem_total: u64,
    pub gtt_used: u64,
    pub gtt_total: u64,
    pub temperature: Amount,
    pub power_watts: Amount,
    pub in_bar: bool,
}

impl View for GpuConfig {
    type V = Config;

    open spec fn view(&self) -> Config {
        Config {
            id: self.id@,
            provider: self.provider,
            sensors: sensors::requests(self.gpu_temp_sensors@),
            bar: self.bar,
        }
    }
}

impl View for Measure {
    type V = Amount;

    open spec fn view(&self) -> Amount {
        match *self {
            Measure::Text(s) => Amount::Text(s@),
            Measure::Scaled { value, divisor } => Amount::Scaled { value, divisor },
            Measure::Share { part, whole } => Amount::Share { part, whole },
        }
    }
}

impl View for GpuInfo {
    type V = Info;

    open spec fn view(&self) -> Info {
        Info {
            id: self.id@,
            label: self.label@,
            model: self.model@,
            provider: self.provider,
            gpu_usage: self.gpu_usage@,
            mem_used: self.mem_used,
            mem_total: self.mem_total,
            gtt_used: self.gtt_used,
            gtt_total: self.gtt_total,
            temperature: self.temperature@,
            power_watts: self.power_watts@,
            in_bar: self.in_bar,
        }
    }
}

pub open spec fn configs_of(v: Seq<GpuConfig>) -> Seq<Config> {
    v.map_values(|c: GpuConfig| c@)
}

pub open spec fn infos(v: Seq<GpuInfo>) -> Seq<Info> {
    v.map_values(|g: GpuInfo| g@)
}

/// Nothing measured.
pub open spec fn no_amount() -> Amount {
    Amount::Scaled { value: Binary64 { bits: 0 }, divisor: 1 }
}

/// A measured number, nothing when there is none.
pub open spec fn amount_of(value: Option<Binary64>, divisor: u32) -> Amount {
    match value {
        Some(value) => Amount::Scaled { value, divisor },
        None => no_amount(),
    }
}

pub(crate) fn measure(value: Option<Binary64>, divisor: u32) -> (r: Measure)
    ensures
        r@ == amount_of(value, divisor),
{
    match value {
        Some(value) => Measure::Scaled { value, divisor },
        None => Measure::Scaled { value: Binary64::zero(), divisor: 1 },
    }
}

/// The default for showing a card in the bar.
pub fn default_true() -> (r: bool)
    ensures
        r,
{
    true
}

/// The names of cards, by PCI address.
pub struct ModelNames {
    names: vstd::hash_map::StringHashMap<String>,
}

impl View for ModelNames {
    type V = Map<Seq<char>, Seq<char>>;

    closed spec fn view(&self) -> Map<Seq<char>, Seq<char>> {
        self.names@.map_values(|s: String| s@)
    }
}

/// The name of a card, or its PCI address when none is known.
pub open spec fn shown_name(names: Map<Seq<char>, Seq<char>>, id: Seq<char>) -> Seq<char> {
    if names.dom().contains(id) {
        names[id]
    } else {
        id
    }
}

impl ModelNames {
    pub fn new() -> (r: ModelNames)
        ensures
            r@ == Map::<Seq<char>, Seq<char>>::empty(),
    {
        let r = ModelNames { names: vstd::hash_map::StringHashMap::new() };
        assert(r@ =~= Map::<Seq<char>, Seq<char>>::empty());
        r
    }

    pub fn insert(&mut self, id: String, name: String)
        ensures
            final(self)@ == old(self)@.insert(id@, name@),
    {
        let ghost before = self@;
        self.names.insert(id, name);
        assert(self@ =~= before.insert(id@, name@));
    }

    pub fn get(&self, id: &str) -> (r: Option<&str>)
        ensures
            match r {
                Some(name) => self@.dom().contains(id@) && self@[id@] == name@,
                None => !self@.dom().contains(id@),
            },
    {
        match self.names.get(id) {
            Some(name) => Some(name.as_str()),
            None => None,
        }
    }

    /// The name of a card, or its PCI address when none is known.
    pub fn shown(&self, id: &str) -> (r: String)
        ensures
            r@ == shown_name(self@, id@),
    {
        match self.get(id) {
            Some(name) => text::owned(name),
            None => text::owned(id),
        }
    }
}

} // verus!
