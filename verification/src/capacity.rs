//! How many cache blocks fit into the memory that is left once the model is
//! resident.

use vstd::prelude::*;

verus! {

/// Device budget, in bytes, assumed when no accelerator is present: 512 MiB.
pub const DEFAULT_DEVICE_BUDGET: u64 = 536870912;

/// Upper bound, in bytes, on the host-side staging cache: 2 GiB.
pub const HOST_BUDGET_CAP: u64 = 2147483648;

/// Capacities of the two caches, each counted in cache blocks.
#[derive(Clone, Copy, Debug, PartialEq, Eq, Structural)]
pub struct CacheSize {
    /// Blocks held in host memory.
    pub cpu: u64,
    /// Blocks held in device memory.
    pub gpu: u64,
}

/// What is known of device memory when the cache is sized.
#[derive(Clone, Copy, Debug, PartialEq, Eq, Structural)]
pub enum DeviceProbe {
    /// No accelerator: the model runs on the host.
    Absent,
    /// An accelerator, after one profiling pass of the model.
    Measured {
        /// Bytes of device memory the engine may use: total memory times the
        /// configured utilization fraction, rounded toward zero.
        usable: i64,
        /// Peak bytes allocated on the device during the profiling pass.
        peak: u64,
    },
}

/// The model and its activations already take more device memory than the
/// engine may use.
#[derive(Clone, Copy, Debug, PartialEq, Eq, Structural)]
pub struct CapacityError {
    /// Bytes of device memory the engine may use.
    pub usable: i64,
    /// Peak bytes allocated during the profiling pass.
    pub peak: u64,
}

impl CapacityError {
    /// Bytes by which the measured peak exceeds the usable memory.
    pub open spec fn spec_shortfall(self) -> int {
        self.peak - self.usable
    }

    /// Bytes by which the measured peak exceeds the usable memory.
    pub fn shortfall(&self) -> (bytes: i128)
        ensures
            bytes == self.spec_shortfall(),
    {
        let peak: i128 = self.peak as i128;
        let usable: i128 = self.usable as i128;
        peak - usable
    }
}

/// Bytes left for the device cache, or `None` where the profiled peak exceeds
/// the usable memory.
pub open spec fn device_budget(probe: DeviceProbe) -> Option<int> {
    match probe {
        DeviceProbe::Absent => Some(DEFAULT_DEVICE_BUDGET as int),
        DeviceProbe::Measured { usable, peak } => if usable - peak >= 0 {
            Some(usable - peak)
        } else {
            None
        },
    }
}

/// Bytes for the host cache that backs a device cache of `device` bytes.
pub open spec fn host_budget(device: int) -> int {
    if device < HOST_BUDGET_CAP { device } else { HOST_BUDGET_CAP as int }
}

/// Whole blocks of `block_bytes` bytes that fit into `budget` bytes.
pub open spec fn blocks_in(budget: int, block_bytes: int) -> int {
    budget / block_bytes
}

/// Whether sizing the cache needs a profiling pass: it does as soon as the
/// device reports any memory.
pub fn needs_profile_run(device_memory: u64) -> (run: bool)
    ensures
        run == (device_memory > 0),
{
    device_memory > 0
}

/// Bytes left for the device cache.
pub fn remaining_device_bytes(probe: DeviceProbe) -> (r: Result<u64, CapacityError>)
    ensures
        match r {
            Ok(bytes) => device_budget(probe) == Some(bytes as int),
            Err(e) => device_budget(probe) is None && probe == (DeviceProbe::Measured {
                usable: e.usable,
                peak: e.peak,
            }) && e.spec_shortfall() > 0,
        },
{
    match probe {
        DeviceProbe::Absent => Ok(DEFAULT_DEVICE_BUDGET),
        DeviceProbe::Measured { usable, peak } => {
            if usable < 0 || (usable as u64) < peak {
                Err(CapacityError { usable, peak })
            } else {
                Ok(usable as u64 - peak)
            }
        },
    }
}

/// Bytes for the host cache that backs a device cache of `device` bytes: as
/// many, up to the cap.
pub fn host_cache_bytes(device: u64) -> (bytes: u64)
    ensures
        bytes == host_budget(device as int),
{
    if device < HOST_BUDGET_CAP {
        device
    } else {
        HOST_BUDGET_CAP
    }
}

/// Sizes both caches from the memory left on the device and the bytes one
/// cache block takes.
pub fn profile_model(probe: DeviceProbe, block_bytes: u64) -> (r: Result<CacheSize, CapacityError>)
    requires
        block_bytes > 0,
    ensures
        match r {
            Ok(size) => {
                &&& device_budget(probe) matches Some(budget)
                &&& size.gpu == blocks_in(budget, block_bytes as int)
                &&& size.cpu == blocks_in(host_budget(budget), block_bytes as int)
                &&& size.cpu <= size.gpu
                &&& size.cpu <= blocks_in(HOST_BUDGET_CAP as int, block_bytes as int)
            },
            Err(e) => device_budget(probe) is None && probe == (DeviceProbe::Measured {
                usable: e.usable,
                peak: e.peak,
            }) && e.spec_shortfall() > 0,
        },
{
    let gpu_cache_size: u64 = match remaining_device_bytes(probe) {
        Ok(bytes) => bytes,
        Err(e) => { return Err(e); },
    };
    let cpu_cache_size: u64 = host_cache_bytes(gpu_cache_size);
    proof {
        lemma_host_blocks_bounded(gpu_cache_size as int, block_bytes as int);
    }
    Ok(CacheSize { cpu: cpu_cache_size / block_bytes, gpu: gpu_cache_size / block_bytes })
}

/// What the sizes of the caches mean in tokens.
#[derive(Clone, Copy, Debug, PartialEq, Eq, Structural)]
pub struct CacheReport {
    /// Tokens whose keys and values fit into the device cache.
    pub gpu_tokens: u128,
    /// Tokens whose keys and values fit into the host cache.
    pub cpu_tokens: u128,
    /// Bytes of cache that one token takes.
    pub token_bytes: u64,
}

/// Restates the sizes of the caches in tokens, for a cache whose blocks take
/// `block_bytes` bytes and hold `block_size` tokens each.
pub fn cache_report(size: CacheSize, block_bytes: u64, block_size: u64) -> (report: CacheReport)
    requires
        block_size > 0,
    ensures
        report.gpu_tokens == size.gpu * block_size,
        report.cpu_tokens == size.cpu * block_size,
        report.token_bytes == block_bytes / block_size,
{
    let per_block: u128 = block_size as u128;
    let gpu: u128 = size.gpu as u128;
    let cpu: u128 = size.cpu as u128;
    assert(gpu * per_block <= u128::MAX && cpu * per_block <= u128::MAX) by (nonlinear_arith)
        requires
            gpu <= u64::MAX,
            cpu <= u64::MAX,
            per_block <= u64::MAX,
    ;
    CacheReport {
        gpu_tokens: gpu * per_block,
        cpu_tokens: cpu * per_block,
        token_bytes: block_bytes / block_size,
    }
}

/// The host cache never holds more blocks than the device cache it backs, nor
/// more than fit under the host cap.
pub proof fn lemma_host_blocks_bounded(device: int, block_bytes: int)
    requires
        device >= 0,
        block_bytes > 0,
    ensures
        0 <= blocks_in(host_budget(device), block_bytes) <= blocks_in(device, block_bytes),
        blocks_in(host_budget(device), block_bytes) <= blocks_in(
            HOST_BUDGET_CAP as int,
            block_bytes,
        ),
{
    let host = host_budget(device);
    vstd::arithmetic::div_mod::lemma_div_is_ordered(host, device, block_bytes);
    vstd::arithmetic::div_mod::lemma_div_is_ordered(host, HOST_BUDGET_CAP as int, block_bytes);
    vstd::arithmetic::div_mod::lemma_div_pos_is_pos(host, block_bytes);
}

} // verus!
