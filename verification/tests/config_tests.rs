use gpuctl::config::{Config, ConfigError, GpuConfig, GpuEntry, GpuIdentifier, PowerProfile};
use gpuctl::curve::CurvePoint;
use gpuctl::dispatch::{lookup_device, DispatchError};

fn ident(pci: &str, card: Option<&str>, gpu: Option<&str>, path: &str) -> GpuIdentifier {
    GpuIdentifier {
        pci_id: String::from(pci),
        card_model: card.map(String::from),
        gpu_model: gpu.map(String::from),
        path: String::from(path),
    }
}

fn sample_config() -> Config {
    let mut settings = GpuConfig::new();
    settings.power_cap = 42;
    settings.power_profile = PowerProfile::High;
    settings.gpu_max_voltage = Some(-1250);
    settings.fan_curve = vec![
        CurvePoint { temp: 30, duty: 12_500 },
        CurvePoint { temp: 90, duty: 100_000 },
    ];
    let mut plain = GpuConfig::new();
    plain.fan_control_enabled = true;
    Config {
        gpu_configs: vec![
            GpuEntry {
                id: 3,
                identifier: ident("1002:687f", Some("Board X"), None, "/sys/class/drm/card0"),
                settings,
            },
            GpuEntry {
                id: 7,
                identifier: ident("1002:73bf", None, Some("Chip Y"), "/sys/class/drm/card1"),
                settings: plain,
            },
        ],
        allow_online_update: Some(true),
        config_path: String::from("/etc/gpuctl.conf"),
        group: String::from("wheel"),
    }
}

#[test]
fn identity_ignores_the_path() {
    let a = ident("1002:687f", Some("Board X"), None, "/sys/class/drm/card0");
    let b = ident("1002:687f", Some("Board X"), None, "/sys/class/drm/card7");
    assert!(a == b);
}

#[test]
fn identity_compares_bus_and_models() {
    let a = ident("1002:687f", Some("Board X"), None, "/p");
    assert!(a != ident("1002:73bf", Some("Board X"), None, "/p"));
    assert!(a != ident("1002:687f", Some("Board Z"), None, "/p"));
    assert!(a != ident("1002:687f", None, None, "/p"));
}

#[test]
fn default_settings_for_unseen_devices() {
    let g = GpuConfig::new();
    assert!(!g.fan_control_enabled);
    assert_eq!(g.power_cap, -1);
    assert_eq!(g.power_profile, PowerProfile::Auto);
    assert_eq!(g.gpu_max_voltage, None);
    assert_eq!(
        g.fan_curve,
        vec![
            CurvePoint { temp: 20, duty: 0 },
            CurvePoint { temp: 40, duty: 0 },
            CurvePoint { temp: 60, duty: 50_000 },
            CurvePoint { temp: 80, duty: 80_000 },
            CurvePoint { temp: 100, duty: 100_000 },
        ]
    );
}

#[test]
fn fresh_config_is_empty_and_wheel_gated() {
    let c = Config::new(&String::from("/etc/gpuctl.conf"));
    assert_eq!(c.gpu_configs.len(), 0);
    assert_eq!(c.allow_online_update, None);
    assert_eq!(c.group.as_str(), "wheel");
}

#[test]
fn resolve_finds_settings_across_reenumeration() {
    let c = sample_config();
    // The same device, enumerated under a different path after a reboot.
    let moved = ident("1002:687f", Some("Board X"), None, "/sys/class/drm/card5");
    let got = c.resolve(&moved);
    assert_eq!(got.power_cap, 42);
    assert_eq!(got.power_profile, PowerProfile::High);
    assert_eq!(got.gpu_max_voltage, Some(-1250));
}

#[test]
fn resolve_seeds_defaults_for_unknown_devices() {
    let c = sample_config();
    let unseen = ident("10de:2204", None, None, "/sys/class/drm/card2");
    let got = c.resolve(&unseen);
    assert_eq!(got.power_cap, -1);
    assert!(!got.fan_control_enabled);
    assert_eq!(got.fan_curve.len(), 5);
}

#[test]
fn save_renders_the_exact_document() {
    let c = Config::new(&String::from("/etc/gpuctl.conf"));
    assert_eq!(
        c.save().as_str(),
        "group wheel\nconfig_path /etc/gpuctl.conf\nallow_online_update -\ndevices 0\n"
    );
}

#[test]
fn load_of_save_is_identity() {
    let c = sample_config();
    let doc = c.save();
    let back = Config::load(doc.as_str()).expect("a saved document loads");
    assert_eq!(back.group, c.group);
    assert_eq!(back.config_path, c.config_path);
    assert_eq!(back.allow_online_update, c.allow_online_update);
    assert_eq!(back.gpu_configs.len(), c.gpu_configs.len());
    for (got, want) in back.gpu_configs.iter().zip(c.gpu_configs.iter()) {
        assert_eq!(got.id, want.id);
        assert_eq!(got.identifier.pci_id, want.identifier.pci_id);
        assert_eq!(got.identifier.card_model, want.identifier.card_model);
        assert_eq!(got.identifier.gpu_model, want.identifier.gpu_model);
        assert_eq!(got.identifier.path, want.identifier.path);
        assert_eq!(got.settings.fan_control_enabled, want.settings.fan_control_enabled);
        assert_eq!(got.settings.fan_curve, want.settings.fan_curve);
        assert_eq!(got.settings.power_cap, want.settings.power_cap);
        assert_eq!(got.settings.power_profile, want.settings.power_profile);
        assert_eq!(got.settings.gpu_max_clock, want.settings.gpu_max_clock);
        assert_eq!(got.settings.gpu_max_voltage, want.settings.gpu_max_voltage);
        assert_eq!(got.settings.vram_max_clock, want.settings.vram_max_clock);
    }
}

#[test]
fn load_rejects_malformed_documents() {
    assert_eq!(Config::load("nonsense").err(), Some(ConfigError::ParseError));
    assert_eq!(Config::load("").err(), Some(ConfigError::ParseError));
    assert_eq!(
        Config::load("group wheel\nconfig_path /x\nallow_online_update q\ndevices 0\n").err(),
        Some(ConfigError::ParseError)
    );
    // Trailing garbage after the declared devices is refused too.
    assert_eq!(
        Config::load("group wheel\nconfig_path /x\nallow_online_update -\ndevices 0\nextra\n")
            .err(),
        Some(ConfigError::ParseError)
    );
}

#[test]
fn lookup_routes_by_device_index() {
    let c = sample_config();
    assert_eq!(lookup_device(&c, 3), Ok(0));
    assert_eq!(lookup_device(&c, 7), Ok(1));
    assert_eq!(lookup_device(&c, 9), Err(DispatchError::NotFound));
}
