//! The command layer's decisions: which commands exist, which device each
//! one names, and how a named device index resolves to a stored entry.
//!
//! The rim owns the listening channel and the per-device monitors; it
//! restricts connections to the configured privilege group, resolves a
//! command's device index through `lookup_device`, and performs the
//! hardware reads and writes the per-device operations of `hw_mon` decide.

use vstd::prelude::*;

use crate::config::{Config, find_id, GpuEntry};
use crate::curve::CurvePoint;

verus! {

/// The command set clients may issue, each naming a device by its locally
/// assigned index (except the listing).
#[derive(Debug)]
pub enum Command {
    ListDevices,
    GetDeviceInfo(u32),
    GetDeviceStats(u32),
    GetFanControl(u32),
    SetFanCurve(u32, Vec<CurvePoint>),
    StartFanControl(u32),
    StopFanControl(u32),
    SetPowerCap(u32, i64),
}

/// What dispatching a command can report on its own: the named device
/// index is unknown.
#[derive(Clone, Copy, PartialEq, Eq, Structural, Debug)]
pub enum DispatchError {
    NotFound,
}

/// The device index a command names, `None` for the listing.
pub open spec fn names_device(cmd: Command) -> Option<u32> {
    match cmd {
        Command::ListDevices => Option::None,
        Command::GetDeviceInfo(id) => Option::Some(id),
        Command::GetDeviceStats(id) => Option::Some(id),
        Command::GetFanControl(id) => Option::Some(id),
        Command::SetFanCurve(id, _) => Option::Some(id),
        Command::StartFanControl(id) => Option::Some(id),
        Command::StopFanControl(id) => Option::Some(id),
        Command::SetPowerCap(id, _) => Option::Some(id),
    }
}

/// The device index a command names.
pub fn command_device(cmd: &Command) -> (r: Option<u32>)
    ensures
        r == names_device(*cmd),
{
    match cmd {
        Command::ListDevices => Option::None,
        Command::GetDeviceInfo(id) => Option::Some(*id),
        Command::GetDeviceStats(id) => Option::Some(*id),
        Command::GetFanControl(id) => Option::Some(*id),
        Command::SetFanCurve(id, _) => Option::Some(*id),
        Command::StartFanControl(id) => Option::Some(*id),
        Command::StopFanControl(id) => Option::Some(*id),
        Command::SetPowerCap(id, _) => Option::Some(*id),
    }
}

/// A found entry index lies in bounds and carries the index looked for.
pub proof fn lemma_find_id_bounds(entries: Seq<GpuEntry>, id: u32)
    requires
        find_id(entries, id) is Some,
    ensures
        0 <= find_id(entries, id)->Some_0 < entries.len(),
        entries[find_id(entries, id)->Some_0].id == id,
    decreases entries.len(),
{
    if entries[0].id != id {
        lemma_find_id_bounds(entries.skip(1), id);
        assert(entries.skip(1)[find_id(entries.skip(1), id)->Some_0] == entries[find_id(
            entries,
            id,
        )->Some_0]);
    }
}

/// Resolves a device index named in a command to the position of its
/// entry in the configuration.  An unknown index is the dispatch error
/// `NotFound`; the caller surfaces it to the client, never a crash.
#[verifier::loop_isolation(false)]
pub fn lookup_device(config: &Config, id: u32) -> (r: Result<usize, DispatchError>)
    ensures
        match find_id(config.gpu_configs@, id) {
            Option::Some(k) => r matches Ok(i) && i == k && config.gpu_configs@[k].id == id,
            Option::None => r == Result::<usize, DispatchError>::Err(DispatchError::NotFound),
        },
{
    let n = config.gpu_configs.len();
    let mut i: usize = 0;
    proof {
        assert(config.gpu_configs@.skip(0) =~= config.gpu_configs@);
        if find_id(config.gpu_configs@, id) is Some {
            lemma_find_id_bounds(config.gpu_configs@, id);
        }
    }
    while i < n
        invariant
            i <= n,
            match find_id(config.gpu_configs@, id) {
                Option::Some(k) => i <= k && find_id(config.gpu_configs@.skip(i as int), id)
                    == Option::Some(k - i),
                Option::None => find_id(config.gpu_configs@.skip(i as int), id) is None,
            },
        decreases n - i,
    {
        proof {
            let rest = config.gpu_configs@.skip(i as int);
            assert(rest[0] == config.gpu_configs@[i as int]);
            assert(rest.skip(1) =~= config.gpu_configs@.skip(i + 1));
            if config.gpu_configs@[i as int].id != id && find_id(rest.skip(1), id) is Some {
                lemma_find_id_bounds(rest.skip(1), id);
            }
        }
        if config.gpu_configs[i].id == id {
            return Result::Ok(i);
        }
        i = i + 1;
    }
    proof {
        assert(find_id(config.gpu_configs@.skip(n as int), id) is None);
    }
    Result::Err(DispatchError::NotFound)
}

} // verus!
