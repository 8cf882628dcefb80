//! The persisted configuration document: a line-oriented, human-readable
//! text format, rendered and parsed entirely by the library.
//!
//! Every line is `tag SP payload` ended by a newline; devices and curve
//! points are preceded by their count, so the document parses without
//! lookahead.  `lemma_load_save_round_trip` is the durability law: any
//! well-formed configuration parses back from its own rendering unchanged.

use vstd::prelude::*;

use crate::config::{Config, ConfigError, GpuConfig, GpuEntry, GpuIdentifier, PowerProfile};
use crate::curve::CurvePoint;
use crate::numtext::{dec_digits, dec_int, parse_int, lemma_parse_render_i64, lemma_dec_digits_val, is_digit};

verus! {

// ---------------------------------------------------------------------
// Models: the mathematical shape of a configuration.
// ---------------------------------------------------------------------

/// The model of a device identity.
#[verifier::ext_equal]
pub ghost struct IdentV {
    pub pci_id: Seq<char>,
    pub card_model: Option<Seq<char>>,
    pub gpu_model: Option<Seq<char>>,
    pub path: Seq<char>,
}

/// The model of one device's settings.
#[verifier::ext_equal]
pub ghost struct SettingsV {
    pub fan_control_enabled: bool,
    pub fan_curve: Seq<CurvePoint>,
    pub power_cap: int,
    pub power_profile: PowerProfile,
    pub gpu_max_clock: int,
    pub gpu_max_voltage: Option<int>,
    pub vram_max_clock: int,
}

/// The model of one configuration entry.
#[verifier::ext_equal]
pub ghost struct EntryV {
    pub id: int,
    pub identifier: IdentV,
    pub settings: SettingsV,
}

/// The model of the whole configuration.
#[verifier::ext_equal]
pub ghost struct ConfigV {
    pub gpu_configs: Seq<EntryV>,
    pub allow_online_update: Option<bool>,
    pub config_path: Seq<char>,
    pub group: Seq<char>,
}

impl View for GpuIdentifier {
    type V = IdentV;

    open spec fn view(&self) -> IdentV {
        IdentV {
            pci_id: self.pci_id@,
            card_model: match self.card_model {
                Option::Some(s) => Option::Some(s@),
                Option::None => Option::None,
            },
            gpu_model: match self.gpu_model {
                Option::Some(s) => Option::Some(s@),
                Option::None => Option::None,
            },
            path: self.path@,
        }
    }
}

impl View for GpuConfig {
    type V = SettingsV;

    open spec fn view(&self) -> SettingsV {
        SettingsV {
            fan_control_enabled: self.fan_control_enabled,
            fan_curve: self.fan_curve@,
            power_cap: self.power_cap as int,
            power_profile: self.power_profile,
            gpu_max_clock: self.gpu_max_clock as int,
            gpu_max_voltage: match self.gpu_max_voltage {
                Option::Some(v) => Option::Some(v as int),
                Option::None => Option::None,
            },
            vram_max_clock: self.vram_max_clock as int,
        }
    }
}

impl View for GpuEntry {
    type V = EntryV;

    open spec fn view(&self) -> EntryV {
        EntryV { id: self.id as int, identifier: self.identifier@, settings: self.settings@ }
    }
}

impl View for Config {
    type V = ConfigV;

    open spec fn view(&self) -> ConfigV {
        ConfigV {
            gpu_configs: Seq::new(self.gpu_configs@.len(), |i: int| self.gpu_configs@[i]@),
            allow_online_update: self.allow_online_update,
            config_path: self.config_path@,
            group: self.group@,
        }
    }
}

/// No newline anywhere in `s`: such text fits on one line of the document.
pub open spec fn no_nl(s: Seq<char>) -> bool {
    forall|i: int| 0 <= i < s.len() ==> s[i] != '\n'
}

/// No newline in an optional string.
pub open spec fn opt_no_nl(o: Option<Seq<char>>) -> bool {
    match o {
        Option::Some(s) => no_nl(s),
        Option::None => true,
    }
}

/// A well-formed identity model: its strings fit on a line.
pub open spec fn ident_wf(v: IdentV) -> bool {
    &&& no_nl(v.pci_id)
    &&& opt_no_nl(v.card_model)
    &&& opt_no_nl(v.gpu_model)
    &&& no_nl(v.path)
}

/// A well-formed settings model: every number fits its machine type.
pub open spec fn settings_wf(v: SettingsV) -> bool {
    &&& i64::MIN <= v.power_cap <= i64::MAX
    &&& i64::MIN <= v.gpu_max_clock <= i64::MAX
    &&& match v.gpu_max_voltage {
        Option::Some(x) => i64::MIN <= x <= i64::MAX,
        Option::None => true,
    }
    &&& i64::MIN <= v.vram_max_clock <= i64::MAX
    &&& v.fan_curve.len() <= i64::MAX
}

/// A well-formed entry model.
pub open spec fn entry_wf(v: EntryV) -> bool {
    &&& 0 <= v.id <= u32::MAX
    &&& ident_wf(v.identifier)
    &&& settings_wf(v.settings)
}

/// A well-formed configuration model: strings fit on a line, numbers fit
/// their machine types.  Every value built from the executable types
/// satisfies the numeric bounds by construction; only the newline freedom
/// of the strings is a real demand.
pub open spec fn config_model_wf(v: ConfigV) -> bool {
    &&& no_nl(v.config_path)
    &&& no_nl(v.group)
    &&& v.gpu_configs.len() <= i64::MAX
    &&& forall|i: int| 0 <= i < v.gpu_configs.len() ==> entry_wf(#[trigger] v.gpu_configs[i])
}

// ---------------------------------------------------------------------
// Rendering: model to text.
// ---------------------------------------------------------------------

/// One document line: `tag SP payload NL`.
pub open spec fn line_of(tag: Seq<char>, payload: Seq<char>) -> Seq<char> {
    tag + seq![' '] + payload + seq!['\n']
}

/// A bool as a one-letter payload.
pub open spec fn render_bool(b: bool) -> Seq<char> {
    if b {
        seq!['t']
    } else {
        seq!['f']
    }
}

/// An optional bool: `-` for unset.
pub open spec fn render_opt_bool(o: Option<bool>) -> Seq<char> {
    match o {
        Option::Some(b) => render_bool(b),
        Option::None => seq!['-'],
    }
}

/// An optional string: `-` for none, `+` then the text.
pub open spec fn render_opt_str(o: Option<Seq<char>>) -> Seq<char> {
    match o {
        Option::Some(s) => seq!['+'] + s,
        Option::None => seq!['-'],
    }
}

/// An optional integer: `-` for none, `+` then the decimal text.
pub open spec fn render_opt_int(o: Option<int>) -> Seq<char> {
    match o {
        Option::Some(v) => seq!['+'] + dec_int(v),
        Option::None => seq!['-'],
    }
}

/// A power profile as a word.
pub open spec fn render_profile(p: PowerProfile) -> Seq<char> {
    match p {
        PowerProfile::Auto => seq!['a', 'u', 't', 'o'],
        PowerProfile::Low => seq!['l', 'o', 'w'],
        PowerProfile::High => seq!['h', 'i', 'g', 'h'],
    }
}

/// One curve point: both numbers on one `point` line.
pub open spec fn render_point(p: CurvePoint) -> Seq<char> {
    line_of("point"@, dec_int(p.temp as int) + seq![' '] + dec_int(p.duty as int))
}

/// The curve points, one line each, in order.
pub open spec fn render_points(ps: Seq<CurvePoint>) -> Seq<char>
    decreases ps.len(),
{
    if ps.len() == 0 {
        Seq::empty()
    } else {
        render_point(ps[0]) + render_points(ps.skip(1))
    }
}

/// The settings half of an entry's lines.
pub open spec fn render_settings(stg: SettingsV) -> Seq<char> {
    line_of("fan_control_enabled"@, render_bool(stg.fan_control_enabled)) + line_of(
        "power_cap"@,
        dec_int(stg.power_cap),
    ) + line_of("power_profile"@, render_profile(stg.power_profile)) + line_of(
        "gpu_max_clock"@,
        dec_int(stg.gpu_max_clock),
    ) + line_of("gpu_max_voltage"@, render_opt_int(stg.gpu_max_voltage)) + line_of(
        "vram_max_clock"@,
        dec_int(stg.vram_max_clock),
    ) + line_of("points"@, dec_int(stg.fan_curve.len() as int)) + render_points(stg.fan_curve)
}

/// One entry: identity, settings, then the curve with its count.
pub open spec fn render_entry(e: EntryV) -> Seq<char> {
    line_of("gpu"@, dec_int(e.id)) + line_of("pci_id"@, e.identifier.pci_id) + line_of(
        "card_model"@,
        render_opt_str(e.identifier.card_model),
    ) + line_of("gpu_model"@, render_opt_str(e.identifier.gpu_model)) + line_of(
        "path"@,
        e.identifier.path,
    ) + render_settings(e.settings)
}

/// The entries, in order.
pub open spec fn render_entries(es: Seq<EntryV>) -> Seq<char>
    decreases es.len(),
{
    if es.len() == 0 {
        Seq::empty()
    } else {
        render_entry(es[0]) + render_entries(es.skip(1))
    }
}

/// The whole document.
pub open spec fn render_config(v: ConfigV) -> Seq<char> {
    line_of("group"@, v.group) + line_of("config_path"@, v.config_path) + line_of(
        "allow_online_update"@,
        render_opt_bool(v.allow_online_update),
    ) + line_of("devices"@, dec_int(v.gpu_configs.len() as int)) + render_entries(v.gpu_configs)
}

// ---------------------------------------------------------------------
// Parsing: text to model.
// ---------------------------------------------------------------------

/// The position of the first occurrence of `c` in `s`.
pub open spec fn find_ch(s: Seq<char>, c: char) -> Option<int>
    decreases s.len(),
{
    if s.len() == 0 {
        Option::None
    } else if s[0] == c {
        Option::Some(0)
    } else {
        match find_ch(s.skip(1), c) {
            Option::Some(i) => Option::Some(i + 1),
            Option::None => Option::None,
        }
    }
}

/// The first line of `s` and what follows it.
pub open spec fn take_line(s: Seq<char>) -> Option<(Seq<char>, Seq<char>)> {
    match find_ch(s, '\n') {
        Option::Some(k) => Option::Some((s.take(k), s.skip(k + 1))),
        Option::None => Option::None,
    }
}

/// The payload of the first line of `s`, which must be tagged `tag`, and
/// what follows the line.
pub open spec fn take_tagged(tag: Seq<char>, s: Seq<char>) -> Option<(Seq<char>, Seq<char>)> {
    match take_line(s) {
        Option::Some((l, rest)) => if l.len() >= tag.len() + 1 && l.take(tag.len() as int) == tag
            && l[tag.len() as int] == ' ' {
            Option::Some((l.skip(tag.len() + 1 as int), rest))
        } else {
            Option::None
        },
        Option::None => Option::None,
    }
}

/// A one-letter bool payload.
pub open spec fn parse_bool(p: Seq<char>) -> Option<bool> {
    if p == seq!['t'] {
        Option::Some(true)
    } else if p == seq!['f'] {
        Option::Some(false)
    } else {
        Option::None
    }
}

/// An optional-bool payload.
pub open spec fn parse_opt_bool(p: Seq<char>) -> Option<Option<bool>> {
    if p == seq!['-'] {
        Option::Some(Option::None)
    } else {
        match parse_bool(p) {
            Option::Some(b) => Option::Some(Option::Some(b)),
            Option::None => Option::None,
        }
    }
}

/// An optional-string payload.
pub open spec fn parse_opt_str(p: Seq<char>) -> Option<Option<Seq<char>>> {
    if p == seq!['-'] {
        Option::Some(Option::None)
    } else if p.len() >= 1 && p[0] == '+' {
        Option::Some(Option::Some(p.skip(1)))
    } else {
        Option::None
    }
}

/// A decimal payload within the 64-bit signed range.
pub open spec fn parse_i64_payload(p: Seq<char>) -> Option<int> {
    match parse_int(p) {
        Option::Some(v) => if i64::MIN <= v <= i64::MAX {
            Option::Some(v)
        } else {
            Option::None
        },
        Option::None => Option::None,
    }
}

/// A decimal payload within the 32-bit unsigned range.
pub open spec fn parse_u32_payload(p: Seq<char>) -> Option<int> {
    match parse_int(p) {
        Option::Some(v) => if 0 <= v <= u32::MAX {
            Option::Some(v)
        } else {
            Option::None
        },
        Option::None => Option::None,
    }
}

/// A count payload: a non-negative decimal.
pub open spec fn parse_count(p: Seq<char>) -> Option<int> {
    match parse_int(p) {
        Option::Some(v) => if 0 <= v <= i64::MAX {
            Option::Some(v)
        } else {
            Option::None
        },
        Option::None => Option::None,
    }
}

/// An optional-integer payload.
pub open spec fn parse_opt_int(p: Seq<char>) -> Option<Option<int>> {
    if p == seq!['-'] {
        Option::Some(Option::None)
    } else if p.len() >= 1 && p[0] == '+' {
        match parse_i64_payload(p.skip(1)) {
            Option::Some(v) => Option::Some(Option::Some(v)),
            Option::None => Option::None,
        }
    } else {
        Option::None
    }
}

/// A power-profile payload.
pub open spec fn parse_profile(p: Seq<char>) -> Option<PowerProfile> {
    if p == seq!['a', 'u', 't', 'o'] {
        Option::Some(PowerProfile::Auto)
    } else if p == seq!['l', 'o', 'w'] {
        Option::Some(PowerProfile::Low)
    } else if p == seq!['h', 'i', 'g', 'h'] {
        Option::Some(PowerProfile::High)
    } else {
        Option::None
    }
}

/// A curve-point payload: two decimals separated by one space.
pub open spec fn parse_point_payload(p: Seq<char>) -> Option<CurvePoint> {
    match find_ch(p, ' ') {
        Option::Some(k) => match (parse_i64_payload(p.take(k)), parse_i64_payload(p.skip(k + 1))) {
            (Option::Some(t), Option::Some(d)) => Option::Some(
                CurvePoint { temp: t as i64, duty: d as i64 },
            ),
            _ => Option::None,
        },
        Option::None => Option::None,
    }
}

/// `n` curve points from the front of `s`.
pub open spec fn parse_points(s: Seq<char>, n: int) -> Option<(Seq<CurvePoint>, Seq<char>)>
    decreases n,
{
    if n <= 0 {
        Option::Some((Seq::empty(), s))
    } else {
        match take_tagged("point"@, s) {
            Option::Some((p, rest)) => match parse_point_payload(p) {
                Option::Some(pt) => match parse_points(rest, n - 1) {
                    Option::Some((ps, rest2)) => Option::Some((seq![pt] + ps, rest2)),
                    Option::None => Option::None,
                },
                Option::None => Option::None,
            },
            Option::None => Option::None,
        }
    }
}

/// One entry from the front of `s`.
pub open spec fn parse_entry(s: Seq<char>) -> Option<(EntryV, Seq<char>)> {
    match take_tagged("gpu"@, s) {
        Option::Some((p_id, s)) => match parse_u32_payload(p_id) {
            Option::Some(id) => match take_tagged("pci_id"@, s) {
                Option::Some((pci, s)) => match take_tagged("card_model"@, s) {
                    Option::Some((p_cm, s)) => match parse_opt_str(p_cm) {
                        Option::Some(card_model) => match take_tagged("gpu_model"@, s) {
                            Option::Some((p_gm, s)) => match parse_opt_str(p_gm) {
                                Option::Some(gpu_model) => match take_tagged("path"@, s) {
                                    Option::Some((path, s)) => parse_entry_settings(
                                        s,
                                        id,
                                        IdentV { pci_id: pci, card_model, gpu_model, path },
                                    ),
                                    Option::None => Option::None,
                                },
                                Option::None => Option::None,
                            },
                            Option::None => Option::None,
                        },
                        Option::None => Option::None,
                    },
                    Option::None => Option::None,
                },
                Option::None => Option::None,
            },
            Option::None => Option::None,
        },
        Option::None => Option::None,
    }
}

/// The settings half of an entry.
pub open spec fn parse_entry_settings(s: Seq<char>, id: int, ident: IdentV) -> Option<
    (EntryV, Seq<char>),
> {
    match take_tagged("fan_control_enabled"@, s) {
        Option::Some((p_en, s)) => match parse_bool(p_en) {
            Option::Some(enabled) => match take_tagged("power_cap"@, s) {
                Option::Some((p_pc, s)) => match parse_i64_payload(p_pc) {
                    Option::Some(power_cap) => match take_tagged("power_profile"@, s) {
                        Option::Some((p_pp, s)) => match parse_profile(p_pp) {
                            Option::Some(profile) => match take_tagged("gpu_max_clock"@, s) {
                                Option::Some((p_gc, s)) => match parse_i64_payload(p_gc) {
                                    Option::Some(gpu_max_clock) => match take_tagged(
                                        "gpu_max_voltage"@,
                                        s,
                                    ) {
                                        Option::Some((p_gv, s)) => match parse_opt_int(p_gv) {
                                            Option::Some(gpu_max_voltage) => match take_tagged(
                                                "vram_max_clock"@,
                                                s,
                                            ) {
                                                Option::Some((p_vc, s)) => match parse_i64_payload(
                                                    p_vc,
                                                ) {
                                                    Option::Some(vram_max_clock) => match take_tagged(
                                                        "points"@,
                                                        s,
                                                    ) {
                                                        Option::Some((p_n, s)) => match parse_count(
                                                            p_n,
                                                        ) {
                                                            Option::Some(n) => match parse_points(
                                                                s,
                                                                n,
                                                            ) {
                                                                Option::Some((ps, rest)) => Option::Some(
                                                                    (
                                                                        EntryV {
                                                                            id,
                                                                            identifier: ident,
                                                                            settings: SettingsV {
                                                                                fan_control_enabled:
                                                                                    enabled,
                                                                                fan_curve: ps,
                                                                                power_cap,
                                                                                power_profile:
                                                                                    profile,
                                                                                gpu_max_clock,
                                                                                gpu_max_voltage,
                                                                                vram_max_clock,
                                                                            },
                                                                        },
                                                                        rest,
                                                                    ),
                                                                ),
                                                                Option::None => Option::None,
                                                            },
                                                            Option::None => Option::None,
                                                        },
                                                        Option::None => Option::None,
                                                    },
                                                    Option::None => Option::None,
                                                },
                                                Option::None => Option::None,
                                            },
                                            Option::None => Option::None,
                                        },
                                        Option::None => Option::None,
                                    },
                                    Option::None => Option::None,
                                },
                                Option::None => Option::None,
                            },
                            Option::None => Option::None,
                        },
                        Option::None => Option::None,
                    },
                    Option::None => Option::None,
                },
                Option::None => Option::None,
            },
            Option::None => Option::None,
        },
        Option::None => Option::None,
    }
}

/// `n` entries from the front of `s`.
pub open spec fn parse_entries(s: Seq<char>, n: int) -> Option<(Seq<EntryV>, Seq<char>)>
    decreases n,
{
    if n <= 0 {
        Option::Some((Seq::empty(), s))
    } else {
        match parse_entry(s) {
            Option::Some((e, rest)) => match parse_entries(rest, n - 1) {
                Option::Some((es, rest2)) => Option::Some((seq![e] + es, rest2)),
                Option::None => Option::None,
            },
            Option::None => Option::None,
        }
    }
}

/// The whole document.  Nothing may follow the last entry.
pub open spec fn parse_config(s: Seq<char>) -> Option<ConfigV> {
    match take_tagged("group"@, s) {
        Option::Some((group, s)) => match take_tagged("config_path"@, s) {
            Option::Some((config_path, s)) => match take_tagged("allow_online_update"@, s) {
                Option::Some((p_au, s)) => match parse_opt_bool(p_au) {
                    Option::Some(allow) => match take_tagged("devices"@, s) {
                        Option::Some((p_n, s)) => match parse_count(p_n) {
                            Option::Some(n) => match parse_entries(s, n) {
                                Option::Some((es, rest)) => if rest.len() == 0 {
                                    Option::Some(
                                        ConfigV {
                                            gpu_configs: es,
                                            allow_online_update: allow,
                                            config_path,
                                            group,
                                        },
                                    )
                                } else {
                                    Option::None
                                },
                                Option::None => Option::None,
                            },
                            Option::None => Option::None,
                        },
                        Option::None => Option::None,
                    },
                    Option::None => Option::None,
                },
                Option::None => Option::None,
            },
            Option::None => Option::None,
        },
        Option::None => Option::None,
    }
}

// ---------------------------------------------------------------------
// The round trip: a rendered configuration parses back to itself.
// ---------------------------------------------------------------------

/// Decimal text holds only digits and a possible leading minus: never a
/// newline or a space.
proof fn lemma_dec_int_text(v: int)
    ensures
        dec_int(v).len() >= 1,
        forall|j: int|
            0 <= j < dec_int(v).len() ==> #[trigger] dec_int(v)[j] != '\n' && dec_int(v)[j] != ' ',
        forall|j: int| 1 <= j < dec_int(v).len() ==> is_digit(#[trigger] dec_int(v)[j]),
{
    if v < 0 {
        lemma_dec_digits_val(-v);
        assert(forall|j: int|
            1 <= j < dec_int(v).len() ==> #[trigger] dec_int(v)[j] == dec_digits(-v)[j - 1]);
    } else {
        lemma_dec_digits_val(v);
    }
}

/// Where the first occurrence of `c` is: nowhere earlier, there.
proof fn lemma_find_ch_at(s: Seq<char>, c: char, m: int)
    requires
        0 <= m < s.len(),
        s[m] == c,
        forall|j: int| 0 <= j < m ==> s[j] != c,
    ensures
        find_ch(s, c) == Some(m),
    decreases m,
{
    if m > 0 {
        assert(forall|j: int| 0 <= j < s.skip(1).len() ==> s.skip(1)[j] == s[j + 1]);
        lemma_find_ch_at(s.skip(1), c, m - 1);
    }
}

/// Where `c` does not occur, nothing is found.
proof fn lemma_find_ch_absent(s: Seq<char>, c: char)
    requires
        forall|j: int| 0 <= j < s.len() ==> s[j] != c,
    ensures
        find_ch(s, c) is None,
    decreases s.len(),
{
    if s.len() > 0 {
        assert(forall|j: int| 0 <= j < s.skip(1).len() ==> s.skip(1)[j] == s[j + 1]);
        lemma_find_ch_absent(s.skip(1), c);
    }
}

/// Taking a tagged line off the front of a document that begins with it.
proof fn lemma_take_tagged_round(tag: Seq<char>, payload: Seq<char>, rest: Seq<char>)
    requires
        no_nl(tag),
        no_nl(payload),
    ensures
        take_tagged(tag, line_of(tag, payload) + rest) == Some((payload, rest)),
{
    let l0 = tag + seq![' '] + payload;
    let s = line_of(tag, payload) + rest;
    let m = l0.len() as int;
    assert(s[m] == '\n');
    assert(forall|j: int| 0 <= j < m ==> #[trigger] s[j] == l0[j]);
    lemma_find_ch_at(s, '\n', m);
    assert(s.take(m) =~= l0);
    assert(s.skip(m + 1) =~= rest);
    assert(l0.take(tag.len() as int) =~= tag);
    assert(l0[tag.len() as int] == ' ');
    assert(l0.skip(tag.len() + 1 as int) =~= payload);
}

/// The tag words of the document, spelled out.
proof fn lemma_tag_chars()
    ensures
        "group"@ =~= seq!['g', 'r', 'o', 'u', 'p'],
        "config_path"@ =~= seq!['c', 'o', 'n', 'f', 'i', 'g', '_', 'p', 'a', 't', 'h'],
        "allow_online_update"@ =~= seq![
            'a', 'l', 'l', 'o', 'w', '_', 'o', 'n', 'l', 'i', 'n', 'e', '_', 'u', 'p', 'd', 'a',
            't', 'e',
        ],
        "devices"@ =~= seq!['d', 'e', 'v', 'i', 'c', 'e', 's'],
        "gpu"@ =~= seq!['g', 'p', 'u'],
        "pci_id"@ =~= seq!['p', 'c', 'i', '_', 'i', 'd'],
        "card_model"@ =~= seq!['c', 'a', 'r', 'd', '_', 'm', 'o', 'd', 'e', 'l'],
        "gpu_model"@ =~= seq!['g', 'p', 'u', '_', 'm', 'o', 'd', 'e', 'l'],
        "path"@ =~= seq!['p', 'a', 't', 'h'],
        "fan_control_enabled"@ =~= seq![
            'f', 'a', 'n', '_', 'c', 'o', 'n', 't', 'r', 'o', 'l', '_', 'e', 'n', 'a', 'b', 'l',
            'e', 'd',
        ],
        "power_cap"@ =~= seq!['p', 'o', 'w', 'e', 'r', '_', 'c', 'a', 'p'],
        "power_profile"@ =~= seq![
            'p', 'o', 'w', 'e', 'r', '_', 'p', 'r', 'o', 'f', 'i', 'l', 'e',
        ],
        "gpu_max_clock"@ =~= seq![
            'g', 'p', 'u', '_', 'm', 'a', 'x', '_', 'c', 'l', 'o', 'c', 'k',
        ],
        "gpu_max_voltage"@ =~= seq![
            'g', 'p', 'u', '_', 'm', 'a', 'x', '_', 'v', 'o', 'l', 't', 'a', 'g', 'e',
        ],
        "vram_max_clock"@ =~= seq![
            'v', 'r', 'a', 'm', '_', 'm', 'a', 'x', '_', 'c', 'l', 'o', 'c', 'k',
        ],
        "points"@ =~= seq!['p', 'o', 'i', 'n', 't', 's'],
        "point"@ =~= seq!['p', 'o', 'i', 'n', 't'],
{
    reveal_strlit("group");
    reveal_strlit("config_path");
    reveal_strlit("allow_online_update");
    reveal_strlit("devices");
    reveal_strlit("gpu");
    reveal_strlit("pci_id");
    reveal_strlit("card_model");
    reveal_strlit("gpu_model");
    reveal_strlit("path");
    reveal_strlit("fan_control_enabled");
    reveal_strlit("power_cap");
    reveal_strlit("power_profile");
    reveal_strlit("gpu_max_clock");
    reveal_strlit("gpu_max_voltage");
    reveal_strlit("vram_max_clock");
    reveal_strlit("points");
    reveal_strlit("point");
}

/// No tag holds a newline.
proof fn lemma_tags_no_nl()
    ensures
        no_nl("group"@),
        no_nl("config_path"@),
        no_nl("allow_online_update"@),
        no_nl("devices"@),
        no_nl("gpu"@),
        no_nl("pci_id"@),
        no_nl("card_model"@),
        no_nl("gpu_model"@),
        no_nl("path"@),
        no_nl("fan_control_enabled"@),
        no_nl("power_cap"@),
        no_nl("power_profile"@),
        no_nl("gpu_max_clock"@),
        no_nl("gpu_max_voltage"@),
        no_nl("vram_max_clock"@),
        no_nl("points"@),
        no_nl("point"@),
{
    lemma_tag_chars();
}

/// A rendered bool parses back.
proof fn lemma_round_bool(b: bool)
    ensures
        parse_bool(render_bool(b)) == Some(b),
        no_nl(render_bool(b)),
{
    assert(seq!['f'] != seq!['t']) by {
        assert(seq!['f'][0] != seq!['t'][0]);
    }
}

/// A rendered optional bool parses back.
proof fn lemma_round_opt_bool(o: Option<bool>)
    ensures
        parse_opt_bool(render_opt_bool(o)) == Some(o),
        no_nl(render_opt_bool(o)),
{
    lemma_round_bool(true);
    lemma_round_bool(false);
    assert(seq!['t'] != seq!['-']) by {
        assert(seq!['t'][0] != seq!['-'][0]);
    }
    assert(seq!['f'] != seq!['-']) by {
        assert(seq!['f'][0] != seq!['-'][0]);
    }
}

/// A rendered optional string parses back.
proof fn lemma_round_opt_str(o: Option<Seq<char>>)
    requires
        opt_no_nl(o),
    ensures
        parse_opt_str(render_opt_str(o)) == Some(o),
        no_nl(render_opt_str(o)),
{
    if o is Some {
        let s = o->0;
        let p = seq!['+'] + s;
        assert(p[0] == '+');
        assert(p != seq!['-']) by {
            assert(p[0] != seq!['-'][0]);
        }
        assert(p.skip(1) =~= s);
    }
}

/// A rendered integer payload parses back.
proof fn lemma_round_i64_payload(v: int)
    requires
        i64::MIN <= v <= i64::MAX,
    ensures
        parse_i64_payload(dec_int(v)) == Some(v),
        no_nl(dec_int(v)),
{
    lemma_parse_render_i64(v);
    lemma_dec_int_text(v);
}

/// A rendered optional integer parses back.
proof fn lemma_round_opt_int(o: Option<int>)
    requires
        o matches Some(v) ==> i64::MIN <= v <= i64::MAX,
    ensures
        parse_opt_int(render_opt_int(o)) == Some(o),
        no_nl(render_opt_int(o)),
{
    if o is Some {
        let v = o->0;
        lemma_round_i64_payload(v);
        let p = seq!['+'] + dec_int(v);
        assert(p[0] == '+');
        assert(p != seq!['-']) by {
            assert(p[0] != seq!['-'][0]);
        }
        assert(p.skip(1) =~= dec_int(v));
    }
}

/// A rendered power profile parses back.
proof fn lemma_round_profile(p: PowerProfile)
    ensures
        parse_profile(render_profile(p)) == Some(p),
        no_nl(render_profile(p)),
{
    let a = seq!['a', 'u', 't', 'o'];
    let l = seq!['l', 'o', 'w'];
    let h = seq!['h', 'i', 'g', 'h'];
    assert(a != l) by {
        assert(a.len() != l.len());
    }
    assert(a != h) by {
        assert(a[0] != h[0]);
    }
    assert(l != h) by {
        assert(l.len() != h.len());
    }
}

/// A rendered curve point parses back off the front of any document.
proof fn lemma_round_point(p: CurvePoint, rest: Seq<char>)
    ensures
        take_tagged("point"@, render_point(p) + rest) matches Some((pay, r)) && r == rest
            && parse_point_payload(pay) == Some(p),
{
    lemma_tags_no_nl();
    lemma_dec_int_text(p.temp as int);
    lemma_dec_int_text(p.duty as int);
    let t = dec_int(p.temp as int);
    let d = dec_int(p.duty as int);
    let pay = t + seq![' '] + d;
    assert(no_nl(pay)) by {
        assert(forall|j: int| 0 <= j < t.len() ==> pay[j] == t[j]);
        assert(pay[t.len() as int] == ' ');
        assert(forall|j: int|
            t.len() + 1 <= j < pay.len() ==> #[trigger] pay[j] == d[j - t.len() - 1]);
    }
    assert(render_point(p) + rest =~= line_of("point"@, pay) + rest);
    lemma_take_tagged_round("point"@, pay, rest);
    assert(pay[t.len() as int] == ' ');
    assert(forall|j: int| 0 <= j < t.len() ==> pay[j] != ' ');
    lemma_find_ch_at(pay, ' ', t.len() as int);
    assert(pay.take(t.len() as int) =~= t);
    assert(pay.skip(t.len() + 1 as int) =~= d);
    lemma_round_i64_payload(p.temp as int);
    lemma_round_i64_payload(p.duty as int);
}

/// A rendered curve parses back, leaving the rest of the document.
proof fn lemma_round_points(ps: Seq<CurvePoint>, rest: Seq<char>)
    ensures
        parse_points(render_points(ps) + rest, ps.len() as int) == Some((ps, rest)),
    decreases ps.len(),
{
    if ps.len() == 0 {
        assert(render_points(ps) + rest =~= rest);
        assert(parse_points(rest, 0) matches Some((e, r)) && e =~= ps && r == rest);
    } else {
        let s = render_points(ps) + rest;
        let tail = render_points(ps.skip(1)) + rest;
        assert(s =~= render_point(ps[0]) + tail);
        lemma_round_point(ps[0], tail);
        lemma_round_points(ps.skip(1), rest);
        let parsed = parse_points(s, ps.len() as int);
        assert(parsed matches Some((got, r)) && got =~= ps && r == rest) by {
            assert(seq![ps[0]] + ps.skip(1) =~= ps);
        }
    }
}

/// Rendered settings parse back, leaving the rest of the document.
#[verifier::rlimit(60)]
proof fn lemma_round_settings(stg: SettingsV, id: int, ident: IdentV, rest: Seq<char>)
    requires
        settings_wf(stg),
    ensures
        parse_entry_settings(render_settings(stg) + rest, id, ident) matches Some((got, r)) && got
            =~~= (EntryV { id, identifier: ident, settings: stg }) && r == rest,
{
    lemma_tags_no_nl();
    let en_pay = render_bool(stg.fan_control_enabled);
    let pc_pay = dec_int(stg.power_cap);
    let pp_pay = render_profile(stg.power_profile);
    let gc_pay = dec_int(stg.gpu_max_clock);
    let gv_pay = render_opt_int(stg.gpu_max_voltage);
    let vc_pay = dec_int(stg.vram_max_clock);
    let n_pay = dec_int(stg.fan_curve.len() as int);
    lemma_round_bool(stg.fan_control_enabled);
    lemma_round_i64_payload(stg.power_cap);
    lemma_round_profile(stg.power_profile);
    lemma_round_i64_payload(stg.gpu_max_clock);
    lemma_round_opt_int(stg.gpu_max_voltage);
    lemma_round_i64_payload(stg.vram_max_clock);
    lemma_dec_int_text(stg.fan_curve.len() as int);
    lemma_parse_render_i64(stg.fan_curve.len() as int);
    let s8 = render_points(stg.fan_curve) + rest;
    let s7 = line_of("points"@, n_pay) + s8;
    let s6 = line_of("vram_max_clock"@, vc_pay) + s7;
    let s5 = line_of("gpu_max_voltage"@, gv_pay) + s6;
    let s4 = line_of("gpu_max_clock"@, gc_pay) + s5;
    let s3 = line_of("power_profile"@, pp_pay) + s4;
    let s2 = line_of("power_cap"@, pc_pay) + s3;
    let s1 = line_of("fan_control_enabled"@, en_pay) + s2;
    assert(render_settings(stg) + rest =~= s1);
    lemma_take_tagged_round("fan_control_enabled"@, en_pay, s2);
    lemma_take_tagged_round("power_cap"@, pc_pay, s3);
    lemma_take_tagged_round("power_profile"@, pp_pay, s4);
    lemma_take_tagged_round("gpu_max_clock"@, gc_pay, s5);
    lemma_take_tagged_round("gpu_max_voltage"@, gv_pay, s6);
    lemma_take_tagged_round("vram_max_clock"@, vc_pay, s7);
    lemma_take_tagged_round("points"@, n_pay, s8);
    lemma_round_points(stg.fan_curve, rest);
}

/// A rendered entry parses back, leaving the rest of the document.
#[verifier::rlimit(60)]
proof fn lemma_round_entry(e: EntryV, rest: Seq<char>)
    requires
        entry_wf(e),
    ensures
        parse_entry(render_entry(e) + rest) matches Some((got, r)) && got =~~= e && r == rest,
{
    lemma_tags_no_nl();
    let id_pay = dec_int(e.id);
    let cm_pay = render_opt_str(e.identifier.card_model);
    let gm_pay = render_opt_str(e.identifier.gpu_model);
    lemma_dec_int_text(e.id);
    lemma_parse_render_i64(e.id);
    lemma_round_opt_str(e.identifier.card_model);
    lemma_round_opt_str(e.identifier.gpu_model);
    let s5 = render_settings(e.settings) + rest;
    let s4 = line_of("path"@, e.identifier.path) + s5;
    let s3 = line_of("gpu_model"@, gm_pay) + s4;
    let s2 = line_of("card_model"@, cm_pay) + s3;
    let s1 = line_of("pci_id"@, e.identifier.pci_id) + s2;
    let s0 = line_of("gpu"@, id_pay) + s1;
    assert(render_entry(e) + rest =~= s0);
    lemma_take_tagged_round("gpu"@, id_pay, s1);
    lemma_take_tagged_round("pci_id"@, e.identifier.pci_id, s2);
    lemma_take_tagged_round("card_model"@, cm_pay, s3);
    lemma_take_tagged_round("gpu_model"@, gm_pay, s4);
    lemma_take_tagged_round("path"@, e.identifier.path, s5);
    let ident = IdentV {
        pci_id: e.identifier.pci_id,
        card_model: e.identifier.card_model,
        gpu_model: e.identifier.gpu_model,
        path: e.identifier.path,
    };
    assert(ident =~~= e.identifier);
    lemma_round_settings(e.settings, e.id, ident, rest);
}

/// Rendered entries parse back, leaving the rest of the document./// Rendered entries parse back, leaving the rest of the document.
proof fn lemma_round_entries(es: Seq<EntryV>, rest: Seq<char>)
    requires
        forall|i: int| 0 <= i < es.len() ==> entry_wf(#[trigger] es[i]),
    ensures
        parse_entries(render_entries(es) + rest, es.len() as int) matches Some((got, r)) && got
            =~~= es && r == rest,
    decreases es.len(),
{
    if es.len() == 0 {
        assert(render_entries(es) + rest =~= rest);
    } else {
        let tail = render_entries(es.skip(1)) + rest;
        assert(render_entries(es) + rest =~= render_entry(es[0]) + tail);
        lemma_round_entry(es[0], tail);
        lemma_round_entries(es.skip(1), rest);
        let got0 = parse_entry(render_entry(es[0]) + tail)->Some_0.0;
        let rest_got = parse_entries(tail, es.len() - 1)->Some_0.0;
        assert(seq![got0] + rest_got =~~= es);
    }
}

/// The durability law: a well-formed configuration, rendered and parsed,
/// is itself.  `Config::save` renders exactly `render_config` of the
/// configuration's model and `Config::load` parses exactly `parse_config`,
/// so a saved document always loads back to the configuration it came
/// from.
#[verifier::rlimit(100)]
pub proof fn lemma_load_save_round_trip(v: ConfigV)
    requires
        config_model_wf(v),
    ensures
        parse_config(render_config(v)) == Some(v),
{
    lemma_tags_no_nl();
    lemma_round_opt_bool(v.allow_online_update);
    lemma_dec_int_text(v.gpu_configs.len() as int);
    lemma_parse_render_i64(v.gpu_configs.len() as int);
    let au_pay = render_opt_bool(v.allow_online_update);
    let n_pay = dec_int(v.gpu_configs.len() as int);
    let s4 = render_entries(v.gpu_configs) + Seq::<char>::empty();
    let s3 = line_of("devices"@, n_pay) + s4;
    let s2 = line_of("allow_online_update"@, au_pay) + s3;
    let s1 = line_of("config_path"@, v.config_path) + s2;
    let s0 = line_of("group"@, v.group) + s1;
    assert(render_config(v) =~= s0);
    lemma_take_tagged_round("group"@, v.group, s1);
    lemma_take_tagged_round("config_path"@, v.config_path, s2);
    lemma_take_tagged_round("allow_online_update"@, au_pay, s3);
    lemma_take_tagged_round("devices"@, n_pay, s4);
    lemma_round_entries(v.gpu_configs, Seq::<char>::empty());
    let got = parse_config(render_config(v));
    assert(got matches Some(g) && g =~~= v);
}

// ---------------------------------------------------------------------
// Executable rendering.
// ---------------------------------------------------------------------

/// Appends one `tag SP payload NL` line.
fn push_line(out: &mut String, tag: &str, payload: &str)
    ensures
        final(out)@ == old(out)@ + line_of(tag@, payload@),
{
    out.append(tag);
    out.append(" ");
    out.append(payload);
    out.append("\n");
    proof {
        reveal_strlit(" ");
        reveal_strlit("\n");
        assert(" "@ =~= seq![' ']);
        assert("\n"@ =~= seq!['\n']);
        assert(out@ =~= old(out)@ + line_of(tag@, payload@));
    }
}

/// A bool payload.
fn render_bool_exec(b: bool) -> (r: &'static str)
    ensures
        r@ == render_bool(b),
{
    proof {
        reveal_strlit("t");
        reveal_strlit("f");
        assert("t"@ =~= seq!['t']);
        assert("f"@ =~= seq!['f']);
    }
    if b {
        "t"
    } else {
        "f"
    }
}

/// An optional-bool payload.
fn render_opt_bool_exec(o: &Option<bool>) -> (r: &'static str)
    ensures
        r@ == render_opt_bool(*o),
{
    proof {
        reveal_strlit("-");
        assert("-"@ =~= seq!['-']);
    }
    match o {
        Option::Some(b) => render_bool_exec(*b),
        Option::None => "-",
    }
}

/// An optional-string payload.
fn render_opt_str_exec(o: &Option<String>) -> (r: String)
    ensures
        r@ == render_opt_str(
            match *o {
                Option::Some(s) => Option::Some(s@),
                Option::None => Option::None,
            },
        ),
{
    proof {
        reveal_strlit("-");
        reveal_strlit("+");
        assert("-"@ =~= seq!['-']);
        assert("+"@ =~= seq!['+']);
    }
    match o {
        Option::Some(s) => {
            let mut r = String::from_str("+");
            r.append(s.as_str());
            assert(r@ =~= seq!['+'] + s@);
            r
        },
        Option::None => String::from_str("-"),
    }
}

/// An optional-integer payload.
fn render_opt_int_exec(o: &Option<i64>) -> (r: String)
    ensures
        r@ == render_opt_int(
            match *o {
                Option::Some(v) => Option::Some(v as int),
                Option::None => Option::None,
            },
        ),
{
    proof {
        reveal_strlit("-");
        reveal_strlit("+");
        assert("-"@ =~= seq!['-']);
        assert("+"@ =~= seq!['+']);
    }
    match o {
        Option::Some(v) => {
            let mut r = String::from_str("+");
            r.append(crate::numtext::render_i64(*v).as_str());
            assert(r@ =~= seq!['+'] + dec_int(*v as int));
            r
        },
        Option::None => String::from_str("-"),
    }
}

/// A power-profile payload.
fn render_profile_exec(p: &PowerProfile) -> (r: &'static str)
    ensures
        r@ == render_profile(*p),
{
    proof {
        reveal_strlit("auto");
        reveal_strlit("low");
        reveal_strlit("high");
        assert("auto"@ =~= seq!['a', 'u', 't', 'o']);
        assert("low"@ =~= seq!['l', 'o', 'w']);
        assert("high"@ =~= seq!['h', 'i', 'g', 'h']);
    }
    match p {
        PowerProfile::Auto => "auto",
        PowerProfile::Low => "low",
        PowerProfile::High => "high",
    }
}

/// Appending one more point extends the rendering by its line.
proof fn lemma_render_points_push(ps: Seq<CurvePoint>, p: CurvePoint)
    ensures
        render_points(ps.push(p)) == render_points(ps) + render_point(p),
    decreases ps.len(),
{
    if ps.len() == 0 {
        assert(ps.push(p)[0] == p);
        assert(ps.push(p).skip(1) =~= Seq::<CurvePoint>::empty());
        assert(render_points(Seq::<CurvePoint>::empty()) =~= Seq::<char>::empty());
        assert(render_points(ps.push(p)) =~= render_point(p));
        assert(render_points(ps) + render_point(p) =~= render_point(p));
    } else {
        assert(ps.push(p).skip(1) =~= ps.skip(1).push(p));
        assert(ps.push(p)[0] == ps[0]);
        lemma_render_points_push(ps.skip(1), p);
        assert(render_points(ps.push(p)) =~= render_points(ps) + render_point(p));
    }
}

/// Appending one more entry extends the rendering by its lines.
proof fn lemma_render_entries_push(es: Seq<EntryV>, e: EntryV)
    ensures
        render_entries(es.push(e)) == render_entries(es) + render_entry(e),
    decreases es.len(),
{
    if es.len() == 0 {
        assert(es.push(e)[0] == e);
        assert(es.push(e).skip(1) =~= Seq::<EntryV>::empty());
        assert(render_entries(Seq::<EntryV>::empty()) =~= Seq::<char>::empty());
        assert(render_entries(es.push(e)) =~= render_entry(e));
        assert(render_entries(es) + render_entry(e) =~= render_entry(e));
    } else {
        assert(es.push(e).skip(1) =~= es.skip(1).push(e));
        assert(es.push(e)[0] == es[0]);
        lemma_render_entries_push(es.skip(1), e);
        assert(render_entries(es.push(e)) =~= render_entries(es) + render_entry(e));
    }
}

/// Appends one entry's lines.
#[verifier::loop_isolation(false)]
#[verifier::rlimit(100)]
fn render_entry_exec(out: &mut String, entry: &GpuEntry)
    ensures
        final(out)@ == old(out)@ + render_entry(entry@),
{
    let ghost e = entry@;
    let ghost l1 = line_of("gpu"@, dec_int(e.id));
    let ghost l2 = line_of("pci_id"@, e.identifier.pci_id);
    let ghost l3 = line_of("card_model"@, render_opt_str(e.identifier.card_model));
    let ghost l4 = line_of("gpu_model"@, render_opt_str(e.identifier.gpu_model));
    let ghost l5 = line_of("path"@, e.identifier.path);
    push_line(out, "gpu", crate::numtext::render_u64(entry.id as u64).as_str());
    assert(out@ =~= old(out)@ + l1);
    push_line(out, "pci_id", entry.identifier.pci_id.as_str());
    assert(out@ =~= old(out)@ + (l1 + l2));
    let cm = render_opt_str_exec(&entry.identifier.card_model);
    push_line(out, "card_model", cm.as_str());
    assert(out@ =~= old(out)@ + (l1 + l2 + l3));
    let gm = render_opt_str_exec(&entry.identifier.gpu_model);
    push_line(out, "gpu_model", gm.as_str());
    assert(out@ =~= old(out)@ + (l1 + l2 + l3 + l4));
    push_line(out, "path", entry.identifier.path.as_str());
    assert(out@ =~= old(out)@ + (l1 + l2 + l3 + l4 + l5));
    let ghost head = old(out)@ + (l1 + l2 + l3 + l4 + l5);
    let ghost stg = e.settings;
    let ghost m1 = line_of("fan_control_enabled"@, render_bool(stg.fan_control_enabled));
    let ghost m2 = line_of("power_cap"@, dec_int(stg.power_cap));
    let ghost m3 = line_of("power_profile"@, render_profile(stg.power_profile));
    let ghost m4 = line_of("gpu_max_clock"@, dec_int(stg.gpu_max_clock));
    let ghost m5 = line_of("gpu_max_voltage"@, render_opt_int(stg.gpu_max_voltage));
    let ghost m6 = line_of("vram_max_clock"@, dec_int(stg.vram_max_clock));
    let ghost m7 = line_of("points"@, dec_int(stg.fan_curve.len() as int));
    push_line(out, "fan_control_enabled", render_bool_exec(entry.settings.fan_control_enabled));
    assert(out@ =~= head + m1);
    push_line(out, "power_cap", crate::numtext::render_i64(entry.settings.power_cap).as_str());
    assert(out@ =~= head + (m1 + m2));
    push_line(out, "power_profile", render_profile_exec(&entry.settings.power_profile));
    assert(out@ =~= head + (m1 + m2 + m3));
    push_line(
        out,
        "gpu_max_clock",
        crate::numtext::render_i64(entry.settings.gpu_max_clock).as_str(),
    );
    assert(out@ =~= head + (m1 + m2 + m3 + m4));
    let gv = render_opt_int_exec(&entry.settings.gpu_max_voltage);
    push_line(out, "gpu_max_voltage", gv.as_str());
    assert(out@ =~= head + (m1 + m2 + m3 + m4 + m5));
    push_line(
        out,
        "vram_max_clock",
        crate::numtext::render_i64(entry.settings.vram_max_clock).as_str(),
    );
    assert(out@ =~= head + (m1 + m2 + m3 + m4 + m5 + m6));
    push_line(
        out,
        "points",
        crate::numtext::render_u64(entry.settings.fan_curve.len() as u64).as_str(),
    );
    assert(out@ =~= head + (m1 + m2 + m3 + m4 + m5 + m6 + m7));
    let ghost before_points = out@;
    let n = entry.settings.fan_curve.len();
    let mut i: usize = 0;
    assert(out@ =~= before_points + render_points(entry.settings.fan_curve@.take(0)));
    while i < n
        invariant
            i <= n,
            out@ == before_points + render_points(entry.settings.fan_curve@.take(i as int)),
        decreases n - i,
    {
        let p = entry.settings.fan_curve[i];
        let mut pay = crate::numtext::render_i64(p.temp);
        pay.append(" ");
        pay.append(crate::numtext::render_i64(p.duty).as_str());
        proof {
            reveal_strlit(" ");
            assert(" "@ =~= seq![' ']);
        }
        push_line(out, "point", pay.as_str());
        proof {
            let taken = entry.settings.fan_curve@.take(i as int);
            lemma_render_points_push(taken, p);
            assert(taken.push(p) =~= entry.settings.fan_curve@.take(i + 1));
            assert(pay@ =~= dec_int(p.temp as int) + seq![' '] + dec_int(p.duty as int));
            assert(out@ =~= before_points + render_points(
                entry.settings.fan_curve@.take(i + 1),
            ));
        }
        i = i + 1;
    }
    proof {
        assert(entry.settings.fan_curve@.take(n as int) =~= entry.settings.fan_curve@);
        let pts = render_points(stg.fan_curve);
        assert(out@ == before_points + pts);
        assert(render_settings(stg) == m1 + m2 + m3 + m4 + m5 + m6 + m7 + pts);
        assert(render_entry(e) == l1 + l2 + l3 + l4 + l5 + render_settings(stg));
        assert(out@ =~= (old(out)@ + (l1 + l2 + l3 + l4 + l5)) + ((m1 + m2 + m3 + m4 + m5 + m6
            + m7) + pts));
        assert((old(out)@ + (l1 + l2 + l3 + l4 + l5)) + ((m1 + m2 + m3 + m4 + m5 + m6 + m7)
            + pts) =~= old(out)@ + ((l1 + l2 + l3 + l4 + l5) + ((m1 + m2 + m3 + m4 + m5 + m6
            + m7) + pts)));
        assert((l1 + l2 + l3 + l4 + l5) + ((m1 + m2 + m3 + m4 + m5 + m6 + m7) + pts)
            =~= render_entry(e));
    }
}

impl Config {
    /// Renders the whole configuration as its persisted document.  The
    /// rim writes the returned text to the configured path; a failed
    /// write is its `IoError`.
    #[verifier::loop_isolation(false)]
    #[verifier::rlimit(100)]
    pub fn save(&self) -> (out: String)
        ensures
            out@ == render_config(self@),
    {
        let mut out = String::new();
        let ghost c1 = line_of("group"@, self@.group);
        let ghost c2 = line_of("config_path"@, self@.config_path);
        let ghost c3 = line_of("allow_online_update"@, render_opt_bool(self@.allow_online_update));
        let ghost c4 = line_of("devices"@, dec_int(self@.gpu_configs.len() as int));
        push_line(&mut out, "group", self.group.as_str());
        assert(out@ =~= c1);
        push_line(&mut out, "config_path", self.config_path.as_str());
        assert(out@ =~= c1 + c2);
        let au = render_opt_bool_exec(&self.allow_online_update);
        push_line(&mut out, "allow_online_update", au);
        assert(out@ =~= c1 + c2 + c3);
        push_line(
            &mut out,
            "devices",
            crate::numtext::render_u64(self.gpu_configs.len() as u64).as_str(),
        );
        assert(out@ =~= c1 + c2 + c3 + c4);
        let ghost header = out@;
        let n = self.gpu_configs.len();
        let mut i: usize = 0;
        assert(Seq::new(0, |k: int| self.gpu_configs@[k]@) =~= Seq::<EntryV>::empty());
        assert(render_entries(Seq::<EntryV>::empty()) =~= Seq::<char>::empty());
        assert(out@ =~= header + render_entries(Seq::new(0, |k: int| self.gpu_configs@[k]@)));
        while i < n
            invariant
                i <= n,
                out@ == header + render_entries(Seq::new(i as nat, |k: int| self.gpu_configs@[k]@)),
            decreases n - i,
        {
            render_entry_exec(&mut out, &self.gpu_configs[i]);
            proof {
                let evs = Seq::new(i as nat, |k: int| self.gpu_configs@[k]@);
                lemma_render_entries_push(evs, self.gpu_configs@[i as int]@);
                assert(evs.push(self.gpu_configs@[i as int]@) =~= Seq::new(
                    (i + 1) as nat,
                    |k: int| self.gpu_configs@[k]@,
                ));
            }
            i = i + 1;
        }
        proof {
            assert(Seq::new(n as nat, |k: int| self.gpu_configs@[k]@) =~= self@.gpu_configs);
            assert(out@ == header + render_entries(self@.gpu_configs));
            assert(header == c1 + c2 + c3 + c4);
            assert(render_config(self@) == c1 + c2 + c3 + c4 + render_entries(self@.gpu_configs));
            assert((c1 + c2 + c3 + c4) + render_entries(self@.gpu_configs) =~= render_config(
                self@,
            ));
        }
        out
    }
}

// ---------------------------------------------------------------------
// Executable parsing.
// ---------------------------------------------------------------------

/// Compares two texts character by character.
#[verifier::loop_isolation(false)]
fn str_eq_exec(a: &str, b: &str) -> (r: bool)
    ensures
        r == (a@ == b@),
{
    let alen = a.unicode_len();
    let blen = b.unicode_len();
    if alen != blen {
        return false;
    }
    let mut j: usize = 0;
    while j < alen
        invariant
            j <= alen,
            forall|q: int| 0 <= q < j ==> a@[q] == b@[q],
        decreases alen - j,
    {
        if a.get_char(j) != b.get_char(j) {
            return false;
        }
        j = j + 1;
    }
    proof {
        assert(a@ =~= b@);
    }
    true
}

/// Takes the `tag`-tagged first line of `s` at `pos`: its payload and the
/// position just past the line.
#[verifier::loop_isolation(false)]
#[verifier::rlimit(60)]
fn take_tagged_exec<'a>(s: &'a str, pos: usize, tag: &str) -> (r: Option<(&'a str, usize)>)
    requires
        pos <= s@.len(),
    ensures
        match r {
            Option::Some(pu) => pu.1 <= s@.len() && take_tagged(tag@, s@.skip(pos as int))
                == Some((pu.0@, s@.skip(pu.1 as int))),
            Option::None => take_tagged(tag@, s@.skip(pos as int)) is None,
        },
{
    let len = s.unicode_len();
    let ghost t = s@.skip(pos as int);
    proof {
        assert(forall|j: int| 0 <= j < t.len() ==> t[j] == s@[j + pos]);
    }
    let mut k: usize = pos;
    while k < len && s.get_char(k) != '\n'
        invariant
            pos <= k <= len,
            forall|j: int| pos <= j < k ==> s@[j] != '\n',
        decreases len - k,
    {
        k = k + 1;
    }
    if k == len {
        proof {
            lemma_find_ch_absent(t, '\n');
        }
        return Option::None;
    }
    proof {
        lemma_find_ch_at(t, '\n', k - pos);
    }
    let ghost l = t.take(k - pos);
    proof {
        assert(forall|j: int| 0 <= j < l.len() ==> l[j] == s@[j + pos]);
        assert(t.skip(k - pos + 1) =~= s@.skip(k + 1));
    }
    let tlen = tag.unicode_len();
    if k - pos <= tlen {
        return Option::None;
    }
    let mut j: usize = 0;
    while j < tlen
        invariant
            j <= tlen,
            forall|q: int| 0 <= q < j ==> s@[pos + q] == tag@[q],
        decreases tlen - j,
    {
        if s.get_char(pos + j) != tag.get_char(j) {
            proof {
                assert(l.take(tlen as int)[j as int] == s@[pos + j]);
            }
            return Option::None;
        }
        j = j + 1;
    }
    proof {
        assert(l.take(tlen as int) =~= tag@);
    }
    if s.get_char(pos + tlen) != ' ' {
        proof {
            assert(l[tlen as int] == s@[pos + tlen]);
        }
        return Option::None;
    }
    let payload = s.substring_char(pos + tlen + 1, k);
    proof {
        assert(payload@ =~= l.skip(tlen + 1 as int));
    }
    Option::Some((payload, k + 1))
}

/// A bool payload.
fn parse_bool_exec(p: &str) -> (r: Option<bool>)
    ensures
        r == parse_bool(p@),
{
    let len = p.unicode_len();
    if len == 1 {
        let c = p.get_char(0);
        if c == 't' {
            assert(p@ =~= seq!['t']);
            return Option::Some(true);
        }
        if c == 'f' {
            assert(p@ =~= seq!['f']);
            return Option::Some(false);
        }
    }
    proof {
        assert(seq!['t'].len() == 1 && seq!['t'][0] == 't');
        assert(seq!['f'].len() == 1 && seq!['f'][0] == 'f');
    }
    Option::None
}

/// An optional-bool payload.
fn parse_opt_bool_exec(p: &str) -> (r: Option<Option<bool>>)
    ensures
        r == parse_opt_bool(p@),
{
    let len = p.unicode_len();
    proof {
        assert(seq!['-'].len() == 1 && seq!['-'][0] == '-');
    }
    if len == 1 && p.get_char(0) == '-' {
        assert(p@ =~= seq!['-']);
        return Option::Some(Option::None);
    }
    match parse_bool_exec(p) {
        Option::Some(b) => Option::Some(Option::Some(b)),
        Option::None => Option::None,
    }
}

/// An optional-string payload.
fn parse_opt_str_exec(p: &str) -> (r: Option<Option<String>>)
    ensures
        match r {
            Option::Some(o) => parse_opt_str(p@) == Some(
                match o {
                    Option::Some(s) => Option::Some(s@),
                    Option::None => Option::None::<Seq<char>>,
                },
            ),
            Option::None => parse_opt_str(p@) is None,
        },
{
    let len = p.unicode_len();
    proof {
        assert(seq!['-'].len() == 1 && seq!['-'][0] == '-');
    }
    if len == 1 && p.get_char(0) == '-' {
        assert(p@ =~= seq!['-']);
        return Option::Some(Option::None);
    }
    if len >= 1 && p.get_char(0) == '+' {
        let body = p.substring_char(1, len).to_owned();
        proof {
            assert(body@ =~= p@.skip(1));
        }
        return Option::Some(Option::Some(body));
    }
    Option::None
}

/// An optional-integer payload.
fn parse_opt_int_exec(p: &str) -> (r: Option<Option<i64>>)
    ensures
        match r {
            Option::Some(o) => parse_opt_int(p@) == Some(
                match o {
                    Option::Some(v) => Option::Some(v as int),
                    Option::None => Option::None::<int>,
                },
            ),
            Option::None => parse_opt_int(p@) is None,
        },
{
    let len = p.unicode_len();
    proof {
        assert(seq!['-'].len() == 1 && seq!['-'][0] == '-');
    }
    if len == 1 && p.get_char(0) == '-' {
        assert(p@ =~= seq!['-']);
        return Option::Some(Option::None);
    }
    if len >= 1 && p.get_char(0) == '+' {
        let body = p.substring_char(1, len);
        proof {
            assert(body@ =~= p@.skip(1));
        }
        return match crate::numtext::parse_i64(body) {
            Option::Some(v) => Option::Some(Option::Some(v)),
            Option::None => Option::None,
        };
    }
    Option::None
}

/// A device-index payload.
fn parse_u32_exec(p: &str) -> (r: Option<u32>)
    ensures
        match r {
            Option::Some(v) => parse_u32_payload(p@) == Some(v as int),
            Option::None => parse_u32_payload(p@) is None,
        },
{
    match crate::numtext::parse_i64(p) {
        Option::Some(v) => if 0 <= v && v <= 0xffff_ffffi64 {
            Option::Some(v as u32)
        } else {
            Option::None
        },
        Option::None => Option::None,
    }
}

/// A count payload.
fn parse_count_exec(p: &str) -> (r: Option<u64>)
    ensures
        match r {
            Option::Some(v) => parse_count(p@) == Some(v as int),
            Option::None => parse_count(p@) is None,
        },
{
    match crate::numtext::parse_i64(p) {
        Option::Some(v) => if v >= 0 {
            Option::Some(v as u64)
        } else {
            Option::None
        },
        Option::None => Option::None,
    }
}

/// A power-profile payload.
fn parse_profile_exec(p: &str) -> (r: Option<PowerProfile>)
    ensures
        r == parse_profile(p@),
{
    proof {
        reveal_strlit("auto");
        reveal_strlit("low");
        reveal_strlit("high");
        assert("auto"@ =~= seq!['a', 'u', 't', 'o']);
        assert("low"@ =~= seq!['l', 'o', 'w']);
        assert("high"@ =~= seq!['h', 'i', 'g', 'h']);
    }
    if str_eq_exec(p, "auto") {
        Option::Some(PowerProfile::Auto)
    } else if str_eq_exec(p, "low") {
        Option::Some(PowerProfile::Low)
    } else if str_eq_exec(p, "high") {
        Option::Some(PowerProfile::High)
    } else {
        Option::None
    }
}

/// A curve-point payload.
#[verifier::loop_isolation(false)]
fn parse_point_exec(p: &str) -> (r: Option<CurvePoint>)
    ensures
        r == parse_point_payload(p@),
{
    let len = p.unicode_len();
    let mut k: usize = 0;
    while k < len && p.get_char(k) != ' '
        invariant
            k <= len,
            forall|j: int| 0 <= j < k ==> p@[j] != ' ',
        decreases len - k,
    {
        k = k + 1;
    }
    if k == len {
        proof {
            lemma_find_ch_absent(p@, ' ');
        }
        return Option::None;
    }
    proof {
        lemma_find_ch_at(p@, ' ', k as int);
    }
    let left = p.substring_char(0, k);
    let right = p.substring_char(k + 1, len);
    proof {
        assert(left@ =~= p@.take(k as int));
        assert(right@ =~= p@.skip(k + 1));
    }
    match (crate::numtext::parse_i64(left), crate::numtext::parse_i64(right)) {
        (Option::Some(t), Option::Some(d)) => Option::Some(CurvePoint { temp: t, duty: d }),
        _ => Option::None,
    }
}

/// One entry from position `pos`: the entry and the position past it.
#[verifier::loop_isolation(false)]
#[verifier::rlimit(100)]
fn parse_entry_exec(s: &str, pos: usize) -> (r: Option<(GpuEntry, usize)>)
    requires
        pos <= s@.len(),
    ensures
        match r {
            Option::Some(gu) => gu.1 <= s@.len() && parse_entry(s@.skip(pos as int)) == Some(
                (gu.0@, s@.skip(gu.1 as int)),
            ),
            Option::None => parse_entry(s@.skip(pos as int)) is None,
        },
{
    let (p_id, pos1) = match take_tagged_exec(s, pos, "gpu") {
        Option::Some(x) => x,
        Option::None => {
            return Option::None;
        },
    };
    let id = match parse_u32_exec(p_id) {
        Option::Some(v) => v,
        Option::None => {
            return Option::None;
        },
    };
    let (pci, pos2) = match take_tagged_exec(s, pos1, "pci_id") {
        Option::Some(x) => x,
        Option::None => {
            return Option::None;
        },
    };
    let (p_cm, pos3) = match take_tagged_exec(s, pos2, "card_model") {
        Option::Some(x) => x,
        Option::None => {
            return Option::None;
        },
    };
    let card_model = match parse_opt_str_exec(p_cm) {
        Option::Some(o) => o,
        Option::None => {
            return Option::None;
        },
    };
    let (p_gm, pos4) = match take_tagged_exec(s, pos3, "gpu_model") {
        Option::Some(x) => x,
        Option::None => {
            return Option::None;
        },
    };
    let gpu_model = match parse_opt_str_exec(p_gm) {
        Option::Some(o) => o,
        Option::None => {
            return Option::None;
        },
    };
    let (path, pos5) = match take_tagged_exec(s, pos4, "path") {
        Option::Some(x) => x,
        Option::None => {
            return Option::None;
        },
    };
    let (p_en, pos6) = match take_tagged_exec(s, pos5, "fan_control_enabled") {
        Option::Some(x) => x,
        Option::None => {
            return Option::None;
        },
    };
    let enabled = match parse_bool_exec(p_en) {
        Option::Some(b) => b,
        Option::None => {
            return Option::None;
        },
    };
    let (p_pc, pos7) = match take_tagged_exec(s, pos6, "power_cap") {
        Option::Some(x) => x,
        Option::None => {
            return Option::None;
        },
    };
    let power_cap = match crate::numtext::parse_i64(p_pc) {
        Option::Some(v) => v,
        Option::None => {
            return Option::None;
        },
    };
    let (p_pp, pos8) = match take_tagged_exec(s, pos7, "power_profile") {
        Option::Some(x) => x,
        Option::None => {
            return Option::None;
        },
    };
    let profile = match parse_profile_exec(p_pp) {
        Option::Some(v) => v,
        Option::None => {
            return Option::None;
        },
    };
    let (p_gc, pos9) = match take_tagged_exec(s, pos8, "gpu_max_clock") {
        Option::Some(x) => x,
        Option::None => {
            return Option::None;
        },
    };
    let gpu_max_clock = match crate::numtext::parse_i64(p_gc) {
        Option::Some(v) => v,
        Option::None => {
            return Option::None;
        },
    };
    let (p_gv, pos10) = match take_tagged_exec(s, pos9, "gpu_max_voltage") {
        Option::Some(x) => x,
        Option::None => {
            return Option::None;
        },
    };
    let gpu_max_voltage = match parse_opt_int_exec(p_gv) {
        Option::Some(o) => o,
        Option::None => {
            return Option::None;
        },
    };
    let (p_vc, pos11) = match take_tagged_exec(s, pos10, "vram_max_clock") {
        Option::Some(x) => x,
        Option::None => {
            return Option::None;
        },
    };
    let vram_max_clock = match crate::numtext::parse_i64(p_vc) {
        Option::Some(v) => v,
        Option::None => {
            return Option::None;
        },
    };
    let (p_n, pos12) = match take_tagged_exec(s, pos11, "points") {
        Option::Some(x) => x,
        Option::None => {
            return Option::None;
        },
    };
    let n = match parse_count_exec(p_n) {
        Option::Some(v) => v,
        Option::None => {
            return Option::None;
        },
    };
    let ghost pts_start = s@.skip(pos12 as int);
    let mut pts: Vec<CurvePoint> = Vec::new();
    let mut cur: usize = pos12;
    let mut i: u64 = 0;
    assert(pts@ =~= Seq::<CurvePoint>::empty());
    while i < n
        invariant
            i <= n,
            cur <= s@.len(),
            pts@.len() == i,
            parse_points(pts_start, n as int) == match parse_points(
                s@.skip(cur as int),
                n - i,
            ) {
                Option::Some((ps, rem)) => Option::Some((pts@ + ps, rem)),
                Option::None => Option::None::<(Seq<CurvePoint>, Seq<char>)>,
            },
        decreases n - i,
    {
        let (p_pt, next) = match take_tagged_exec(s, cur, "point") {
            Option::Some(x) => x,
            Option::None => {
                return Option::None;
            },
        };
        let pt = match parse_point_exec(p_pt) {
            Option::Some(v) => v,
            Option::None => {
                return Option::None;
            },
        };
        proof {
            let before = parse_points(s@.skip(cur as int), n - i);
            let after = parse_points(s@.skip(next as int), n - i - 1);
            match after {
                Option::Some((ps, rem)) => {
                    assert(before == Option::Some((seq![pt] + ps, rem)));
                    assert(pts@ + (seq![pt] + ps) =~= pts@.push(pt) + ps);
                },
                Option::None => {},
            }
        }
        pts.push(pt);
        cur = next;
        i = i + 1;
    }
    proof {
        assert(parse_points(s@.skip(cur as int), 0) == Option::Some(
            (Seq::<CurvePoint>::empty(), s@.skip(cur as int)),
        ));
        assert(pts@ + Seq::<CurvePoint>::empty() =~= pts@);
        assert(parse_points(pts_start, n as int) == Option::Some((pts@, s@.skip(cur as int))));
    }
    let entry = GpuEntry {
        id,
        identifier: GpuIdentifier {
            pci_id: pci.to_owned(),
            card_model,
            gpu_model,
            path: path.to_owned(),
        },
        settings: GpuConfig {
            fan_control_enabled: enabled,
            fan_curve: pts,
            power_cap,
            power_profile: profile,
            gpu_max_clock,
            gpu_max_voltage,
            vram_max_clock,
        },
    };
    proof {
        let expect = parse_entry(s@.skip(pos as int));
        assert(expect matches Some(pr) && pr.0 =~~= entry@ && pr.1 == s@.skip(cur as int));
    }
    Option::Some((entry, cur))
}

impl Config {
    /// Parses a persisted document back into a configuration.  A text
    /// that is not a configuration document is a `ParseError`; a file
    /// that could not be read at all never reaches this function (the
    /// rim reports its own `IoError`, or treats a missing file as an
    /// empty default configuration).
    #[verifier::loop_isolation(false)]
    #[verifier::rlimit(100)]
    pub fn load(text: &str) -> (r: Result<Config, ConfigError>)
        ensures
            match parse_config(text@) {
                Option::Some(m) => r matches Ok(c) && c@ == m,
                Option::None => r == Result::<Config, ConfigError>::Err(ConfigError::ParseError),
            },
    {
        let (group, pos1) = match take_tagged_exec(text, 0, "group") {
            Option::Some(x) => x,
            Option::None => {
                proof {
                    assert(text@.skip(0) =~= text@);
                }
                return Result::Err(ConfigError::ParseError);
            },
        };
        proof {
            assert(text@.skip(0) =~= text@);
        }
        let (config_path, pos2) = match take_tagged_exec(text, pos1, "config_path") {
            Option::Some(x) => x,
            Option::None => {
                return Result::Err(ConfigError::ParseError);
            },
        };
        let (p_au, pos3) = match take_tagged_exec(text, pos2, "allow_online_update") {
            Option::Some(x) => x,
            Option::None => {
                return Result::Err(ConfigError::ParseError);
            },
        };
        let allow = match parse_opt_bool_exec(p_au) {
            Option::Some(o) => o,
            Option::None => {
                return Result::Err(ConfigError::ParseError);
            },
        };
        let (p_n, pos4) = match take_tagged_exec(text, pos3, "devices") {
            Option::Some(x) => x,
            Option::None => {
                return Result::Err(ConfigError::ParseError);
            },
        };
        let n = match parse_count_exec(p_n) {
            Option::Some(v) => v,
            Option::None => {
                return Result::Err(ConfigError::ParseError);
            },
        };
        let ghost entries_start = text@.skip(pos4 as int);
        let mut entries: Vec<GpuEntry> = Vec::new();
        let mut cur: usize = pos4;
        let mut i: u64 = 0;
        while i < n
            invariant
                i <= n,
                cur <= text@.len(),
                entries@.len() == i,
                parse_entries(entries_start, n as int) == match parse_entries(
                    text@.skip(cur as int),
                    n - i,
                ) {
                    Option::Some((es, rem)) => Option::Some(
                        (Seq::new(i as nat, |k: int| entries@[k]@) + es, rem),
                    ),
                    Option::None => Option::None::<(Seq<EntryV>, Seq<char>)>,
                },
            decreases n - i,
        {
            let (entry, next) = match parse_entry_exec(text, cur) {
                Option::Some(x) => x,
                Option::None => {
                    return Result::Err(ConfigError::ParseError);
                },
            };
            proof {
                let evs = Seq::new(i as nat, |k: int| entries@[k]@);
                let after = parse_entries(text@.skip(next as int), n - i - 1);
                match after {
                    Option::Some((es, rem)) => {
                        assert(parse_entries(text@.skip(cur as int), n - i) == Option::Some(
                            (seq![entry@] + es, rem),
                        ));
                        assert(evs + (seq![entry@] + es) =~= evs.push(entry@) + es);
                        assert(evs.push(entry@) =~= Seq::new(
                            (i + 1) as nat,
                            |k: int| entries@.push(entry)[k]@,
                        ));
                    },
                    Option::None => {},
                }
            }
            entries.push(entry);
            cur = next;
            i = i + 1;
        }
        if cur != text.unicode_len() {
            proof {
                assert(text@.skip(cur as int).len() == text@.len() - cur);
            }
            return Result::Err(ConfigError::ParseError);
        }
        proof {
            let evs = Seq::new(n as nat, |k: int| entries@[k]@);
            assert(parse_entries(text@.skip(cur as int), 0) == Option::Some(
                (Seq::<EntryV>::empty(), text@.skip(cur as int)),
            ));
            assert(evs + Seq::<EntryV>::empty() =~= evs);
            assert(parse_entries(entries_start, n as int) == Option::Some(
                (evs, text@.skip(cur as int)),
            ));
            assert(text@.skip(cur as int).len() == 0);
        }
        let c = Config {
            gpu_configs: entries,
            allow_online_update: allow,
            config_path: config_path.to_owned(),
            group: group.to_owned(),
        };
        proof {
            let m = parse_config(text@)->Some_0;
            assert(c@ =~~= m);
        }
        Result::Ok(c)
    }
}

} // verus!
