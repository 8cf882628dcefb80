//! The durable per-device configuration model: device identity, per-device
//! settings, and the whole-daemon configuration keyed by a locally
//! assigned index.

use vstd::prelude::*;

use crate::curve::{CurvePoint, curve_wf};

verus! {

/// What loading or saving the persisted configuration can report.  The
/// rim that touches the disk raises `IoError`; the parser raises
/// `ParseError`.
#[derive(Clone, Copy, PartialEq, Eq, Structural, Debug)]
pub enum ConfigError {
    /// The file could not be read or written.
    IoError,
    /// The file's text is not a configuration document.
    ParseError,
}

/// A device's power-management profile.
#[derive(Clone, Copy, PartialEq, Eq, Structural, Debug)]
pub enum PowerProfile {
    Auto,
    Low,
    High,
}

/// A stable identity for one physical device.  The enumeration `path` is
/// carried for convenience but deliberately excluded from identity: it is
/// not stable across reboots or driver reloads.  Two identifiers with the
/// same bus address and model strings name the same device.
#[derive(Debug)]
pub struct GpuIdentifier {
    /// The device's bus address.
    pub pci_id: String,
    /// The board model, when known.
    pub card_model: Option<String>,
    /// The chip model, when known.
    pub gpu_model: Option<String>,
    /// The current enumeration path; no part of identity.
    pub path: String,
}

/// Equality of optional strings by their text.
pub open spec fn opt_string_eq(a: Option<String>, b: Option<String>) -> bool {
    match (a, b) {
        (Option::Some(x), Option::Some(y)) => x@ == y@,
        (Option::None, Option::None) => true,
        _ => false,
    }
}

/// The identity policy: bus address and the two model strings, never the
/// enumeration path.
pub open spec fn ident_eq(a: GpuIdentifier, b: GpuIdentifier) -> bool {
    &&& a.pci_id@ == b.pci_id@
    &&& opt_string_eq(a.card_model, b.card_model)
    &&& opt_string_eq(a.gpu_model, b.gpu_model)
}

/// Compares two optional strings by text.
fn opt_string_eq_exec(a: &Option<String>, b: &Option<String>) -> (r: bool)
    ensures
        r == opt_string_eq(*a, *b),
{
    match (a, b) {
        (Option::Some(x), Option::Some(y)) => *x == *y,
        (Option::None, Option::None) => true,
        _ => false,
    }
}

impl PartialEq for GpuIdentifier {
    /// Identifiers compare by the identity policy: the path plays no part.
    fn eq(&self, other: &Self) -> (r: bool) {
        self.pci_id == other.pci_id && opt_string_eq_exec(&self.card_model, &other.card_model)
            && opt_string_eq_exec(&self.gpu_model, &other.gpu_model)
    }
}

impl vstd::std_specs::cmp::PartialEqSpecImpl for GpuIdentifier {
    open spec fn obeys_eq_spec() -> bool {
        true
    }

    open spec fn eq_spec(&self, other: &Self) -> bool {
        ident_eq(*self, *other)
    }
}

impl GpuIdentifier {
    /// A deep copy.
    pub fn duplicate(&self) -> (r: GpuIdentifier)
        ensures
            r.pci_id@ == self.pci_id@,
            opt_string_eq(r.card_model, self.card_model),
            opt_string_eq(r.gpu_model, self.gpu_model),
            r.path@ == self.path@,
            ident_eq(r, *self),
    {
        GpuIdentifier {
            pci_id: self.pci_id.clone(),
            card_model: match &self.card_model {
                Option::Some(s) => Option::Some(s.clone()),
                Option::None => Option::None,
            },
            gpu_model: match &self.gpu_model {
                Option::Some(s) => Option::Some(s.clone()),
                Option::None => Option::None,
            },
            path: self.path.clone(),
        }
    }
}

/// Identity never looks at the path: identifiers agreeing on bus address
/// and model strings are the same device, whatever their paths.
pub proof fn lemma_identity_ignores_path(a: GpuIdentifier, b: GpuIdentifier)
    requires
        a.pci_id@ == b.pci_id@,
        opt_string_eq(a.card_model, b.card_model),
        opt_string_eq(a.gpu_model, b.gpu_model),
    ensures
        ident_eq(a, b),
{
}

/// One device's durable settings.
#[derive(Debug)]
pub struct GpuConfig {
    /// Whether the fan-control loop should run.
    pub fan_control_enabled: bool,
    /// The fan curve, ascending by temperature (duties in milli-percent).
    pub fan_curve: Vec<CurvePoint>,
    /// The power cap in Watts; -1 means unset.
    pub power_cap: i64,
    /// The power-management profile.
    pub power_profile: PowerProfile,
    /// The core clock limit.
    pub gpu_max_clock: i64,
    /// The voltage limit, when set.
    pub gpu_max_voltage: Option<i64>,
    /// The memory clock limit.
    pub vram_max_clock: i64,
}

/// The default fan curve seeded for an unseen device:
/// 20°C and 40°C at 0%, 60°C at 50%, 80°C at 80%, 100°C at 100%.
pub open spec fn default_fan_curve() -> Seq<CurvePoint> {
    seq![
        CurvePoint { temp: 20, duty: 0 },
        CurvePoint { temp: 40, duty: 0 },
        CurvePoint { temp: 60, duty: 50_000 },
        CurvePoint { temp: 80, duty: 80_000 },
        CurvePoint { temp: 100, duty: 100_000 },
    ]
}

/// Settings `a` and `b` hold the same values.
pub open spec fn settings_eq(a: GpuConfig, b: GpuConfig) -> bool {
    &&& a.fan_control_enabled == b.fan_control_enabled
    &&& a.fan_curve@ == b.fan_curve@
    &&& a.power_cap == b.power_cap
    &&& a.power_profile == b.power_profile
    &&& a.gpu_max_clock == b.gpu_max_clock
    &&& a.gpu_max_voltage == b.gpu_max_voltage
    &&& a.vram_max_clock == b.vram_max_clock
}

/// The default settings: the default curve, fan control off, power cap
/// unset, automatic profile, no clock or voltage limits.
pub open spec fn default_settings(g: GpuConfig) -> bool {
    &&& g.fan_control_enabled == false
    &&& g.fan_curve@ == default_fan_curve()
    &&& g.power_cap == -1
    &&& g.power_profile == PowerProfile::Auto
    &&& g.gpu_max_clock == 0
    &&& g.gpu_max_voltage is None
    &&& g.vram_max_clock == 0
}

impl GpuConfig {
    /// The settings an unseen device is seeded with.
    pub fn new() -> (g: GpuConfig)
        ensures
            default_settings(g),
            curve_wf(g.fan_curve@),
    {
        let mut fan_curve: Vec<CurvePoint> = Vec::new();
        fan_curve.push(CurvePoint { temp: 20, duty: 0 });
        fan_curve.push(CurvePoint { temp: 40, duty: 0 });
        fan_curve.push(CurvePoint { temp: 60, duty: 50_000 });
        fan_curve.push(CurvePoint { temp: 80, duty: 80_000 });
        fan_curve.push(CurvePoint { temp: 100, duty: 100_000 });
        proof {
            assert(fan_curve@ =~= default_fan_curve());
        }
        GpuConfig {
            fan_control_enabled: false,
            fan_curve,
            power_cap: -1,
            power_profile: PowerProfile::Auto,
            gpu_max_clock: 0,
            gpu_max_voltage: Option::None,
            vram_max_clock: 0,
        }
    }

    /// A deep copy.
    pub fn duplicate(&self) -> (g: GpuConfig)
        ensures
            settings_eq(g, *self),
    {
        let mut fan_curve: Vec<CurvePoint> = Vec::new();
        let mut i: usize = 0;
        while i < self.fan_curve.len()
            invariant
                i <= self.fan_curve@.len(),
                fan_curve@ == self.fan_curve@.take(i as int),
            decreases self.fan_curve@.len() - i,
        {
            fan_curve.push(self.fan_curve[i]);
            proof {
                assert(fan_curve@ =~= self.fan_curve@.take(i + 1));
            }
            i = i + 1;
        }
        proof {
            assert(fan_curve@ =~= self.fan_curve@);
        }
        GpuConfig {
            fan_control_enabled: self.fan_control_enabled,
            fan_curve,
            power_cap: self.power_cap,
            power_profile: self.power_profile,
            gpu_max_clock: self.gpu_max_clock,
            gpu_max_voltage: self.gpu_max_voltage,
            vram_max_clock: self.vram_max_clock,
        }
    }
}

/// One device's slot in the configuration: its locally assigned index,
/// its stable identity, and its settings.
#[derive(Debug)]
pub struct GpuEntry {
    /// The locally assigned device index clients name the device by.
    pub id: u32,
    /// The device's stable identity.
    pub identifier: GpuIdentifier,
    /// The device's durable settings.
    pub settings: GpuConfig,
}

/// The index of the first stored entry whose identifier names the same
/// device, by the identity policy.
pub open spec fn find_device(entries: Seq<GpuEntry>, ident: GpuIdentifier) -> Option<int>
    decreases entries.len(),
{
    if entries.len() == 0 {
        Option::None
    } else if ident_eq(entries[0].identifier, ident) {
        Option::Some(0)
    } else {
        match find_device(entries.skip(1), ident) {
            Option::Some(i) => Option::Some(i + 1),
            Option::None => Option::None,
        }
    }
}

/// A found device index lies in bounds and names a matching entry.
pub proof fn lemma_find_device_bounds(entries: Seq<GpuEntry>, ident: GpuIdentifier)
    requires
        find_device(entries, ident) is Some,
    ensures
        0 <= find_device(entries, ident)->Some_0 < entries.len(),
        ident_eq(entries[find_device(entries, ident)->Some_0].identifier, ident),
    decreases entries.len(),
{
    if !ident_eq(entries[0].identifier, ident) {
        lemma_find_device_bounds(entries.skip(1), ident);
        assert(entries.skip(1)[find_device(entries.skip(1), ident)->Some_0] == entries[
            find_device(entries, ident)->Some_0]);
    }
}

/// The index of the entry with the given device index.
pub open spec fn find_id(entries: Seq<GpuEntry>, id: u32) -> Option<int>
    decreases entries.len(),
{
    if entries.len() == 0 {
        Option::None
    } else if entries[0].id == id {
        Option::Some(0)
    } else {
        match find_id(entries.skip(1), id) {
            Option::Some(i) => Option::Some(i + 1),
            Option::None => Option::None,
        }
    }
}

/// The whole daemon's durable configuration.
#[derive(Debug)]
pub struct Config {
    /// One entry per known device, keyed by its locally assigned index.
    pub gpu_configs: Vec<GpuEntry>,
    /// Whether online updates are allowed, when stated.
    pub allow_online_update: Option<bool>,
    /// Where the configuration is persisted.
    pub config_path: String,
    /// The group whose members may talk to the daemon.
    pub group: String,
}

/// Each locally assigned index appears at most once.
pub open spec fn config_wf(c: Config) -> bool {
    forall|i: int, j: int|
        0 <= i < j < c.gpu_configs@.len() ==> (#[trigger] c.gpu_configs@[i]).id != (
        #[trigger] c.gpu_configs@[j]).id
}

impl Config {
    /// An empty configuration persisted at `config_path`, granting access
    /// to the `wheel` group.
    pub fn new(config_path: &String) -> (c: Config)
        ensures
            c.gpu_configs@.len() == 0,
            c.allow_online_update is None,
            c.config_path@ == config_path@,
            c.group@ == "wheel"@,
            config_wf(c),
    {
        Config {
            gpu_configs: Vec::new(),
            allow_online_update: Option::None,
            config_path: config_path.clone(),
            group: String::from_str("wheel"),
        }
    }

    /// The settings for the device `ident` names: the stored settings of
    /// the first entry naming the same device — compared by bus address
    /// and model strings, never by path, so re-enumeration does not lose
    /// them — or fresh defaults for an unseen device.
    pub fn resolve(&self, ident: &GpuIdentifier) -> (g: GpuConfig)
        ensures
            match find_device(self.gpu_configs@, *ident) {
                Option::Some(i) => settings_eq(g, self.gpu_configs@[i].settings),
                Option::None => default_settings(g) && curve_wf(g.fan_curve@),
            },
    {
        let n = self.gpu_configs.len();
        let mut i: usize = 0;
        proof {
            assert(self.gpu_configs@.skip(0) =~= self.gpu_configs@);
            if find_device(self.gpu_configs@, *ident) is Some {
                lemma_find_device_bounds(self.gpu_configs@, *ident);
            }
        }
        while i < n
            invariant
                i <= n,
                n == self.gpu_configs@.len(),
                match find_device(self.gpu_configs@, *ident) {
                    Option::Some(k) => i <= k && find_device(
                        self.gpu_configs@.skip(i as int),
                        *ident,
                    ) == Option::Some(k - i),
                    Option::None => find_device(self.gpu_configs@.skip(i as int), *ident)
                        is None,
                },
            decreases n - i,
        {
            let entry = &self.gpu_configs[i];
            let matched = entry.identifier == *ident;
            proof {
                let rest = self.gpu_configs@.skip(i as int);
                assert(rest[0] == self.gpu_configs@[i as int]);
                assert(rest.skip(1) =~= self.gpu_configs@.skip(i + 1));
                if !matched && find_device(rest.skip(1), *ident) is Some {
                    lemma_find_device_bounds(rest.skip(1), *ident);
                }
            }
            if matched {
                return entry.settings.duplicate();
            }
            i = i + 1;
        }
        proof {
            assert(find_device(self.gpu_configs@.skip(n as int), *ident) is None);
        }
        GpuConfig::new()
    }
}

} // verus!
