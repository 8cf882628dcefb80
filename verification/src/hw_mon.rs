//! One physical device's monitor: sensor reads, the two control surfaces
//! (power cap, fan curve/enable), and the per-tick fan-control decision.
//!
//! The monitor owns no file handles.  Every sensor read takes the text of
//! the corresponding control file (`None` when the file could not be read)
//! and every mutation that touches hardware takes, or hands back, the
//! outcome of the one write involved; the unverified rim of the daemon does
//! the reading and writing.  The monitor is a single-owner actor: commands
//! and loop ticks are steps on one sequential timeline, so a tick sees each
//! curve replacement entirely or not at all, and the enabled flag decides
//! alone whether a loop worker is alive.

use vstd::prelude::*;

use crate::curve::{CurvePoint, compute_pwm, curve_wf, tick_pwm};
use crate::numtext::{parse_i64, parse_int, trim, trim_str, trunc_div, div_trunc};

verus! {

/// What a hardware operation can report.
#[derive(Clone, Copy, PartialEq, Eq, Structural, Debug)]
pub enum HWMonError {
    /// The underlying control-file write was rejected.
    PermissionDenied,
    /// The requested value lies outside what the device reports possible.
    InvalidValue,
    /// The device lacks the sensor the operation needs.
    Unsupported,
    /// The device exposes no monitoring directory at all.
    NoHWMon,
}

/// The value a control file holds: its text, trimmed of surrounding
/// whitespace and read as a decimal integer.  A file that is absent, holds
/// no integer, or holds one outside the 64-bit range reads as `None` —
/// absence of a metric is a normal outcome, never an error.
pub open spec fn file_value(content: Option<Seq<char>>) -> Option<int> {
    match content {
        Option::None => Option::None,
        Option::Some(s) => match parse_int(trim(s)) {
            Option::Some(v) => if i64::MIN <= v <= i64::MAX {
                Option::Some(v)
            } else {
                Option::None
            },
            Option::None => Option::None,
        },
    }
}

/// A raw reading scaled down by `d`, truncating toward zero: how raw
/// micro-units become whole MHz, Watts or degrees.
pub open spec fn file_value_scaled(content: Option<Seq<char>>, d: int) -> Option<int> {
    match file_value(content) {
        Option::Some(v) => Option::Some(trunc_div(v, d)),
        Option::None => Option::None,
    }
}

/// The view of an optional borrowed file text.
pub open spec fn content_view(content: Option<&str>) -> Option<Seq<char>> {
    match content {
        Option::Some(s) => Option::Some(s@),
        Option::None => Option::None,
    }
}

/// Reads a control file's text as a plain integer.
fn read_file_value(content: Option<&str>) -> (r: Option<i64>)
    ensures
        match r {
            Option::Some(v) => file_value(content_view(content)) == Option::Some(v as int),
            Option::None => file_value(content_view(content)) is None,
        },
{
    match content {
        Option::Some(s) => parse_i64(trim_str(s)),
        Option::None => Option::None,
    }
}

/// Reads a control file's text as an integer and scales it down by `d`,
/// truncating toward zero.
fn read_file_scaled(content: Option<&str>, d: u64) -> (r: Option<i64>)
    requires
        d >= 1,
    ensures
        match r {
            Option::Some(v) => file_value_scaled(content_view(content), d as int) == Option::Some(
                v as int,
            ),
            Option::None => file_value_scaled(content_view(content), d as int) is None,
        },
{
    match read_file_value(content) {
        Option::Some(v) => Option::Some(div_trunc(v, d)),
        Option::None => Option::None,
    }
}

/// One device's monitor: the control-file directory it stands for, the
/// enabled flag shared between command handlers and the loop worker, and
/// the live fan curve the loop reads every tick.
pub struct HWMon {
    /// The device's control-file directory (informational; the rim that
    /// owns the files keys its reads and writes off it).
    pub hwmon_path: String,
    /// Whether fan control is enabled: exactly then is a loop worker alive.
    pub fan_control: bool,
    /// The live fan curve, replaced wholesale by `set_fan_curve`.
    pub fan_curve: Vec<CurvePoint>,
}

/// How many loop workers serve this device.  On the monitor's sequential
/// timeline a worker is alive exactly while the enabled flag is set, so
/// there is never more than one.
pub open spec fn active_workers(m: HWMon) -> int {
    if m.fan_control {
        1
    } else {
        0
    }
}

/// What `start_fan_control` does to the monitor: already enabled, it is a
/// no-op success; otherwise it succeeds and sets the flag exactly when the
/// switch of the device to manual fan mode (`ok`) went through.
pub open spec fn start_spec(m: HWMon, ok: bool) -> (HWMon, Result<(), HWMonError>) {
    if m.fan_control {
        (m, Result::Ok(()))
    } else if ok {
        (HWMon { fan_control: true, ..m }, Result::Ok(()))
    } else {
        (m, Result::Err(HWMonError::PermissionDenied))
    }
}

/// What `stop_fan_control` does: it clears the flag exactly when the
/// switch back to automatic fan mode (`ok`) went through.
pub open spec fn stop_spec(m: HWMon, ok: bool) -> (HWMon, Result<(), HWMonError>) {
    if ok {
        (HWMon { fan_control: false, ..m }, Result::Ok(()))
    } else {
        (m, Result::Err(HWMonError::PermissionDenied))
    }
}

impl HWMon {
    /// A monitor for the device whose control files live under
    /// `hwmon_path`, with fan control off.  Persisted settings are
    /// replayed by the caller through `start_fan_control` and
    /// `set_power_cap`, which need the hardware outcomes.
    pub fn new(hwmon_path: &String, fan_curve: Vec<CurvePoint>) -> (m: HWMon)
        ensures
            m.hwmon_path@ == hwmon_path@,
            m.fan_control == false,
            m.fan_curve@ == fan_curve@,
    {
        HWMon { hwmon_path: hwmon_path.clone(), fan_control: false, fan_curve }
    }

    /// The fan's maximum speed: the value of `fan1_max`, verbatim.
    pub fn get_fan_max_speed(&self, content: Option<&str>) -> (r: Option<i64>)
        ensures
            match r {
                Option::Some(v) => file_value(content_view(content)) == Option::Some(v as int),
                Option::None => file_value(content_view(content)) is None,
            },
    {
        read_file_value(content)
    }

    /// The fan's current speed: the value of `fan1_input`, verbatim.
    pub fn get_fan_speed(&self, content: Option<&str>) -> (r: Option<i64>)
        ensures
            match r {
                Option::Some(v) => file_value(content_view(content)) == Option::Some(v as int),
                Option::None => file_value(content_view(content)) is None,
            },
    {
        read_file_value(content)
    }

    /// The memory clock in MHz: the value of `freq2_input` divided by 10^6.
    pub fn get_mem_freq(&self, content: Option<&str>) -> (r: Option<i64>)
        ensures
            match r {
                Option::Some(v) => file_value_scaled(content_view(content), 1_000_000)
                    == Option::Some(v as int),
                Option::None => file_value_scaled(content_view(content), 1_000_000) is None,
            },
    {
        read_file_scaled(content, 1_000_000)
    }

    /// The core clock in MHz: the value of `freq1_input` divided by 10^6.
    pub fn get_gpu_freq(&self, content: Option<&str>) -> (r: Option<i64>)
        ensures
            match r {
                Option::Some(v) => file_value_scaled(content_view(content), 1_000_000)
                    == Option::Some(v as int),
                Option::None => file_value_scaled(content_view(content), 1_000_000) is None,
            },
    {
        read_file_scaled(content, 1_000_000)
    }

    /// The temperature in whole degrees Celsius: the value of
    /// `temp1_input` divided by 1000.
    pub fn get_gpu_temp(&self, content: Option<&str>) -> (r: Option<i64>)
        ensures
            match r {
                Option::Some(v) => file_value_scaled(content_view(content), 1000) == Option::Some(
                    v as int,
                ),
                Option::None => file_value_scaled(content_view(content), 1000) is None,
            },
    {
        read_file_scaled(content, 1000)
    }

    /// The voltage: the value of `in0_input`, verbatim.
    pub fn get_voltage(&self, content: Option<&str>) -> (r: Option<i64>)
        ensures
            match r {
                Option::Some(v) => file_value(content_view(content)) == Option::Some(v as int),
                Option::None => file_value(content_view(content)) is None,
            },
    {
        read_file_value(content)
    }

    /// The highest settable power cap in Watts: the value of
    /// `power1_cap_max` divided by 10^6.
    pub fn get_power_cap_max(&self, content: Option<&str>) -> (r: Option<i64>)
        ensures
            match r {
                Option::Some(v) => file_value_scaled(content_view(content), 1_000_000)
                    == Option::Some(v as int),
                Option::None => file_value_scaled(content_view(content), 1_000_000) is None,
            },
    {
        read_file_scaled(content, 1_000_000)
    }

    /// The current power cap in Watts: the value of `power1_cap` divided
    /// by 10^6.
    pub fn get_power_cap(&self, content: Option<&str>) -> (r: Option<i64>)
        ensures
            match r {
                Option::Some(v) => file_value_scaled(content_view(content), 1_000_000)
                    == Option::Some(v as int),
                Option::None => file_value_scaled(content_view(content), 1_000_000) is None,
            },
    {
        read_file_scaled(content, 1_000_000)
    }

    /// The average power draw in Watts: the value of `power1_average`
    /// divided by 10^6.
    pub fn get_power_avg(&self, content: Option<&str>) -> (r: Option<i64>)
        ensures
            match r {
                Option::Some(v) => file_value_scaled(content_view(content), 1_000_000)
                    == Option::Some(v as int),
                Option::None => file_value_scaled(content_view(content), 1_000_000) is None,
            },
    {
        read_file_scaled(content, 1_000_000)
    }

    /// Validates a requested power cap of `cap` Watts against the text of
    /// `power1_cap_max` and converts it to the raw value to write into
    /// `power1_cap`.  With no readable maximum the device does not support
    /// capping; a cap above the maximum is invalid.  The caller performs
    /// the returned raw write and reports its outcome through
    /// `write_outcome`.  The one demand on the caller is the machine
    /// limit: the raw value, a million times the cap, must fit in 64
    /// bits (a cap above the maximum is caught before converting).
    pub fn set_power_cap(&self, cap: i64, cap_max_content: Option<&str>) -> (r: Result<
        i64,
        HWMonError,
    >)
        requires
            cap >= -9_223_372_036_854i64,
    ensures
            file_value_scaled(content_view(cap_max_content), 1_000_000) is None ==> r
                == Result::<i64, HWMonError>::Err(HWMonError::Unsupported),
            match file_value_scaled(content_view(cap_max_content), 1_000_000) {
                Option::Some(m) => if cap > m {
                    r == Result::<i64, HWMonError>::Err(HWMonError::InvalidValue)
                } else {
                    r matches Result::Ok(raw) && raw as int == cap * 1_000_000
                },
                Option::None => true,
            },
    {
        let max = match self.get_power_cap_max(cap_max_content) {
            Option::Some(m) => m,
            Option::None => {
                return Result::Err(HWMonError::Unsupported);
            },
        };
        if cap > max {
            return Result::Err(HWMonError::InvalidValue);
        }
        proof {
            let raw = file_value(content_view(cap_max_content))->Some_0;
            assert(max as int == trunc_div(raw, 1_000_000));
            assert(cap * 1_000_000 >= -9_223_372_036_854_000_000i64) by (nonlinear_arith)
                requires
                    cap >= -9_223_372_036_854i64,
            ;
            if cap > 0 {
                assert(cap * 1_000_000 <= max * 1_000_000) by (nonlinear_arith)
                    requires
                        0 < cap <= max,
                ;
                vstd::arithmetic::div_mod::lemma_fundamental_div_mod(raw, 1_000_000);
                vstd::arithmetic::div_mod::lemma_mod_bound(raw, 1_000_000);
                assert(max * 1_000_000 <= raw) by (nonlinear_arith)
                    requires
                        max as int == raw / 1_000_000,
                        raw == 1_000_000 * (raw / 1_000_000) + raw % 1_000_000,
                        raw % 1_000_000 >= 0,
                        max >= 1,
                ;
            } else {
                assert(cap * 1_000_000 <= 0) by (nonlinear_arith)
                    requires
                        cap <= 0,
                ;
            }
        }
        Result::Ok(cap * 1_000_000)
    }

    /// Replaces the live fan curve wholesale.  The next loop tick sees the
    /// new curve; no validation of its shape is performed beyond the
    /// ordering invariant every curve carries.
    pub fn set_fan_curve(&mut self, curve: Vec<CurvePoint>)
        ensures
            final(self).fan_curve@ == curve@,
            final(self).fan_control == old(self).fan_control,
            final(self).hwmon_path@ == old(self).hwmon_path@,
    {
        self.fan_curve = curve;
    }

    /// Starts fan control.  Idempotent: when the flag is already set this
    /// is a success with no effect, whatever `mode_write_ok` says.
    /// Otherwise the caller has attempted to write `"1"` (manual mode)
    /// into `pwm1_enable` and passes the outcome: on success the flag is
    /// set and the loop worker begins; on failure nothing changes.
    pub fn start_fan_control(&mut self, mode_write_ok: bool) -> (r: Result<(), HWMonError>)
        ensures
            (*final(self), r) == start_spec(*old(self), mode_write_ok),
            old(self).fan_control ==> r is Ok && *final(self) == *old(self),
            !old(self).fan_control && mode_write_ok ==> r is Ok && final(self).fan_control,
            !old(self).fan_control && !mode_write_ok ==> r == Result::<(), HWMonError>::Err(
                HWMonError::PermissionDenied,
            ) && *final(self) == *old(self),
            final(self).fan_curve@ == old(self).fan_curve@,
            final(self).hwmon_path@ == old(self).hwmon_path@,
    {
        if self.fan_control {
            return Result::Ok(());
        }
        if mode_write_ok {
            self.fan_control = true;
            Result::Ok(())
        } else {
            Result::Err(HWMonError::PermissionDenied)
        }
    }

    /// Stops fan control.  The caller has attempted to write `"2"`
    /// (automatic mode) into `pwm1_enable` and passes the outcome: on
    /// success the flag is cleared and the worker exits; on failure
    /// nothing changes.
    pub fn stop_fan_control(&mut self, mode_write_ok: bool) -> (r: Result<(), HWMonError>)
        ensures
            (*final(self), r) == stop_spec(*old(self), mode_write_ok),
            mode_write_ok ==> r is Ok && !final(self).fan_control,
            !mode_write_ok ==> r == Result::<(), HWMonError>::Err(HWMonError::PermissionDenied)
                && *final(self) == *old(self),
            final(self).fan_curve@ == old(self).fan_curve@,
            final(self).hwmon_path@ == old(self).hwmon_path@,
    {
        if mode_write_ok {
            self.fan_control = false;
            Result::Ok(())
        } else {
            Result::Err(HWMonError::PermissionDenied)
        }
    }

    /// A snapshot of the enabled flag and the full current curve.
    pub fn get_fan_control(&self) -> (r: (bool, Vec<CurvePoint>))
        ensures
            r.0 == self.fan_control,
            r.1@ == self.fan_curve@,
    {
        let mut copy: Vec<CurvePoint> = Vec::new();
        let mut i: usize = 0;
        while i < self.fan_curve.len()
            invariant
                i <= self.fan_curve@.len(),
                copy@ == self.fan_curve@.take(i as int),
            decreases self.fan_curve@.len() - i,
        {
            copy.push(self.fan_curve[i]);
            proof {
                assert(copy@ =~= self.fan_curve@.take(i + 1));
            }
            i = i + 1;
        }
        proof {
            assert(copy@ =~= self.fan_curve@);
        }
        (self.fan_control, copy)
    }

    /// One control-loop tick: given the text of `temp1_input` (or `None`
    /// when it could not be read — then the tick is skipped and retried
    /// next interval), the duty value to write into `pwm1`, or `None` when
    /// the temperature falls outside every curve segment and the previous
    /// duty value is left standing.
    pub fn control_tick(&self, temp_content: Option<&str>) -> (w: Option<u8>)
        requires
            curve_wf(self.fan_curve@),
        ensures
            file_value_scaled(content_view(temp_content), 1000) is None ==> w is None,
            match file_value_scaled(content_view(temp_content), 1000) {
                Option::Some(t) => match w {
                    Option::Some(p) => tick_pwm(self.fan_curve@, t) == Option::Some(p as int),
                    Option::None => tick_pwm(self.fan_curve@, t) is None,
                },
                Option::None => w is None,
            },
    {
        match self.get_gpu_temp(temp_content) {
            Option::Some(t) => compute_pwm(&self.fan_curve, t),
            Option::None => Option::None,
        }
    }
}

/// Maps the outcome of a hardware control-file write: a rejected write is
/// a permission error, as the files are writable only with privilege.
pub fn write_outcome(ok: bool) -> (r: Result<(), HWMonError>)
    ensures
        ok ==> r is Ok,
        !ok ==> r == Result::<(), HWMonError>::Err(HWMonError::PermissionDenied),
{
    if ok {
        Result::Ok(())
    } else {
        Result::Err(HWMonError::PermissionDenied)
    }
}

/// Starting fan control twice in a row leaves exactly one active loop
/// worker: the second start is a no-op success on an already enabled
/// monitor.
pub proof fn lemma_start_twice_one_worker(m: HWMon, ok1: bool, ok2: bool)
    ensures
        ({
            let (m1, r1) = start_spec(m, ok1);
            r1 is Ok ==> {
                &&& active_workers(m1) == 1
                &&& start_spec(m1, ok2) == (m1, Result::<(), HWMonError>::Ok(()))
                &&& active_workers(start_spec(m1, ok2).0) == 1
            }
        }),
{
}

/// A stop followed at once by a start never leaves two concurrent loop
/// workers: on the actor's sequential timeline every reachable monitor
/// state carries at most one worker, and after a successful stop-start
/// pair exactly one.
pub proof fn lemma_stop_start_single_worker(m: HWMon, ok_stop: bool, ok_start: bool)
    ensures
        active_workers(m) <= 1,
        ({
            let (m1, r1) = stop_spec(m, ok_stop);
            let (m2, r2) = start_spec(m1, ok_start);
            &&& active_workers(m1) <= 1
            &&& active_workers(m2) <= 1
            &&& (r1 is Ok && r2 is Ok) ==> active_workers(m2) == 1
        }),
{
}

} // verus!
