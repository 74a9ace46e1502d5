use model_loading::capacity::{
    cache_report, host_cache_bytes, needs_profile_run, CacheReport, profile_model, remaining_device_bytes, CacheSize, CapacityError,
    DeviceProbe, DEFAULT_DEVICE_BUDGET, HOST_BUDGET_CAP,
};

const MIB: u64 = 1 << 20;
const GIB: u64 = 1 << 30;

#[test]
fn budgets_are_512_mib_and_2_gib() {
    assert_eq!(DEFAULT_DEVICE_BUDGET, 512 * MIB);
    assert_eq!(HOST_BUDGET_CAP, 2 * GIB);
}

#[test]
fn profiling_is_needed_only_with_device_memory() {
    assert!(!needs_profile_run(0));
    assert!(needs_profile_run(1));
    assert!(needs_profile_run(24 * GIB));
}

#[test]
fn host_only_uses_the_default_budget() {
    let size = profile_model(DeviceProbe::Absent, MIB).unwrap();
    assert_eq!(size, CacheSize { cpu: 512, gpu: 512 });
}

#[test]
fn device_blocks_are_the_floor_of_remaining_over_block_size() {
    // 16 GiB at a fraction of 0.9 is 15461882265 usable bytes.
    let usable: i64 = 15_461_882_265;
    let peak: u64 = 5 * GIB;
    let block: u64 = 3 * MIB;
    let size = profile_model(DeviceProbe::Measured { usable, peak }, block).unwrap();
    let remaining = usable as u64 - peak;
    assert_eq!(remaining, 10_093_173_145);
    assert_eq!(size.gpu, 3208);
    assert_eq!(size.gpu, remaining / block);
    assert_eq!(size.cpu, 682);
    assert_eq!(size.cpu, HOST_BUDGET_CAP / block);
}

#[test]
fn host_cache_follows_a_small_device_cache() {
    let probe = DeviceProbe::Measured { usable: (3 * GIB) as i64, peak: 2 * GIB + 5 };
    let size = profile_model(probe, 1000).unwrap();
    assert_eq!(size.gpu, (GIB - 5) / 1000);
    assert_eq!(size.cpu, size.gpu);
}

#[test]
fn host_cache_never_exceeds_device_cache_or_cap() {
    let blocks = [1u64, 7, 4096, 3 * MIB, GIB, 5 * GIB];
    let probes = [
        DeviceProbe::Absent,
        DeviceProbe::Measured { usable: 0, peak: 0 },
        DeviceProbe::Measured { usable: (2 * GIB) as i64, peak: 1 },
        DeviceProbe::Measured { usable: (80 * GIB) as i64, peak: 13 * GIB + 17 },
        DeviceProbe::Measured { usable: i64::MAX, peak: 0 },
    ];
    for probe in probes {
        for block in blocks {
            let size = profile_model(probe, block).unwrap();
            assert!(size.cpu <= size.gpu);
            assert!(size.cpu <= HOST_BUDGET_CAP / block);
        }
    }
}

#[test]
fn nothing_left_gives_empty_caches() {
    let probe = DeviceProbe::Measured { usable: 4096, peak: 4096 };
    assert_eq!(remaining_device_bytes(probe), Ok(0));
    assert_eq!(profile_model(probe, 16), Ok(CacheSize { cpu: 0, gpu: 0 }));
}

#[test]
fn peak_above_usable_memory_fails() {
    let probe = DeviceProbe::Measured { usable: 1000, peak: 1001 };
    let err = profile_model(probe, 16).unwrap_err();
    assert_eq!(err, CapacityError { usable: 1000, peak: 1001 });
    assert_eq!(err.shortfall(), 1);
    assert_eq!(remaining_device_bytes(probe), Err(err));
}

#[test]
fn negative_usable_memory_fails() {
    let probe = DeviceProbe::Measured { usable: -5, peak: 0 };
    let err = profile_model(probe, 1).unwrap_err();
    assert_eq!(err.shortfall(), 5);
    let probe = DeviceProbe::Measured { usable: i64::MIN, peak: u64::MAX };
    let err = profile_model(probe, 1).unwrap_err();
    assert_eq!(err.shortfall(), u64::MAX as i128 - i64::MIN as i128);
}

#[test]
fn report_counts_tokens() {
    let size = CacheSize { cpu: 682, gpu: 3208 };
    let report = cache_report(size, 3 * MIB, 16);
    assert_eq!(
        report,
        CacheReport { gpu_tokens: 51328, cpu_tokens: 10912, token_bytes: 196608 }
    );
    let report = cache_report(CacheSize { cpu: 1, gpu: u64::MAX }, 10, u64::MAX);
    assert_eq!(report.gpu_tokens, u64::MAX as u128 * u64::MAX as u128);
    assert_eq!(report.cpu_tokens, u64::MAX as u128);
    assert_eq!(report.token_bytes, 0);
}

#[test]
fn host_budget_is_capped() {
    assert_eq!(host_cache_bytes(0), 0);
    assert_eq!(host_cache_bytes(512 * MIB), 512 * MIB);
    assert_eq!(host_cache_bytes(2 * GIB - 1), 2 * GIB - 1);
    assert_eq!(host_cache_bytes(2 * GIB), 2 * GIB);
    assert_eq!(host_cache_bytes(u64::MAX), 2 * GIB);
}
