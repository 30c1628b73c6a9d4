use optimod::hardware::cgroup::parse_cpu_quota;
use optimod::hardware::cpuinfo::parse_cpuinfo;
use optimod::hardware::drm::parse_drm_accelerator;
use optimod::hardware::format::format_bytes;
use optimod::hardware::meminfo::parse_meminfo;
use optimod::hardware::mountinfo::parse_mountinfo;
use optimod::hardware::os_release::parse_os_release;
use optimod::hardware::{CgroupMemory, CpuQuota};

const X86_CPUINFO: &str = r#"
processor   : 0
physical id : 0
core id     : 0
model name  : Tiny Test CPU
flags       : fpu sse4_2 avx avx2 fma

processor   : 1
physical id : 0
core id     : 0
model name  : Tiny Test CPU
flags       : fpu sse4_2 avx avx2 fma

processor   : 2
physical id : 0
core id     : 1
model name  : Tiny Test CPU
flags       : fpu sse4_2 avx avx2 fma

processor   : 3
physical id : 0
core id     : 1
model name  : Tiny Test CPU
flags       : fpu sse4_2 avx avx2 fma
"#;

const MEMINFO: &str = r#"
MemTotal:       16000 kB
MemFree:         1000 kB
MemAvailable:    8000 kB
SwapTotal:       4000 kB
SwapFree:        3000 kB
"#;

fn quota_cpus(quota: Option<CpuQuota>) -> Option<f64> {
    quota.map(|q| q.quota as f64 / q.period as f64)
}

#[test]
fn cpuinfo_reports_topology_and_relevant_inference_features() {
    let quota = CpuQuota { quota: 150_000, period: 100_000 };
    let cpu = parse_cpuinfo(X86_CPUINFO, 2, Some(quota), Some(1)).unwrap();

    assert_eq!(cpu.model, "Tiny Test CPU");
    assert_eq!(cpu.physical_cores, Some(2));
    assert_eq!(cpu.logical_cpus, 4);
    assert_eq!(cpu.available_parallelism, 2);
    assert_eq!(quota_cpus(cpu.cgroup_quota), Some(1.5));
    assert_eq!(cpu.numa_nodes, Some(1));
    assert_eq!(cpu.features, ["avx", "avx2", "fma", "sse4_2"]);
}

#[test]
fn cpuinfo_prefers_arm_hardware_name_over_numeric_processor_id() {
    let value = "processor : 0\nFeatures : fp asimd dotprod\n\n\
                 processor : 1\nFeatures : fp asimd dotprod\n\n\
                 Hardware : Tiny ARM Board\n";
    let cpu = parse_cpuinfo(value, 2, None, None).unwrap();

    assert_eq!(cpu.model, "Tiny ARM Board");
    assert_eq!(cpu.logical_cpus, 2);
    assert_eq!(cpu.features, ["asimd", "dotprod"]);
}

#[test]
fn cpu_quota_parser_handles_limits_and_unlimited_groups() {
    assert_eq!(quota_cpus(parse_cpu_quota("150000 100000\n").unwrap()), Some(1.5));
    assert_eq!(parse_cpu_quota("max 100000\n").unwrap(), None);
    assert!(parse_cpu_quota("150000 0\n").is_err());
}

#[test]
fn meminfo_applies_cgroup_limit_to_effective_memory() {
    let cgroup = CgroupMemory {
        limit_bytes: 8 * 1024 * 1024,
        used_bytes: 2 * 1024 * 1024,
    };
    let memory = parse_meminfo(MEMINFO, Some(cgroup)).unwrap();

    assert_eq!(memory.host_total_bytes, 16_000 * 1024);
    assert_eq!(memory.host_available_bytes, 8_000 * 1024);
    assert_eq!(memory.effective_total_bytes, 8 * 1024 * 1024);
    assert_eq!(memory.effective_available_bytes, 6 * 1024 * 1024);
    assert_eq!(memory.swap_total_bytes, 4_000 * 1024);
    assert_eq!(memory.swap_available_bytes, 3_000 * 1024);
}

#[test]
fn os_release_prefers_pretty_name() {
    let value = "NAME=Tiny Linux\nPRETTY_NAME=\"Tiny Linux 1\"\n";
    assert_eq!(parse_os_release(value), Some("Tiny Linux 1".to_owned()));
}

#[test]
fn mountinfo_selects_deepest_mount_and_decodes_spaces() {
    let value = "36 25 8:1 / / rw,relatime - ext4 /dev/sda1 rw\n\
                 40 36 8:2 / /home/yaya\\040data rw,relatime - xfs /dev/sdb2 rw\n";
    let mount = parse_mountinfo("/home/yaya data/models/qwen.gguf", value).unwrap();

    assert_eq!(mount.mount_point, "/home/yaya data");
    assert_eq!(mount.major_minor, "8:2");
    assert_eq!(mount.filesystem, "xfs");
    assert_eq!(mount.device, "/dev/sdb2");
}

#[test]
fn drm_metadata_identifies_vendor_and_available_memory() {
    let accelerator = parse_drm_accelerator(
        "0x10de\n",
        "0x1eb8\n",
        "DRIVER=nvidia\nPCI_ID=10DE:1EB8\n",
        Some("1000\n"),
        Some("250\n"),
    )
    .unwrap()
    .unwrap();

    assert_eq!(accelerator.backend, "nvidia");
    assert!(accelerator.name.contains("nvidia"));
    assert_eq!(accelerator.vendor_id.as_deref(), Some("0x10de"));
    assert_eq!(accelerator.device_id.as_deref(), Some("0x1eb8"));
    assert_eq!(accelerator.memory_total_bytes, Some(1000));
    assert_eq!(accelerator.memory_available_bytes, Some(750));
}

#[test]
fn drm_metadata_ignores_unknown_display_only_vendor() {
    let accelerator = parse_drm_accelerator(
        "0x1234\n",
        "0x1111\n",
        "DRIVER=bochs-drm\nPCI_ID=1234:1111\n",
        None,
        None,
    )
    .unwrap();

    assert!(accelerator.is_none());
}

#[test]
fn byte_formatter_uses_binary_units() {
    assert_eq!(format_bytes(0), "0 B");
    assert_eq!(format_bytes(1024), "1.0 KiB");
    assert_eq!(format_bytes(1536), "1.5 KiB");
}

fn float_format_bytes(bytes: u64) -> String {
    if bytes == 0 {
        return "0 B".to_owned();
    }
    if bytes < 1024 {
        return format!("{bytes} B");
    }
    let units = ["B", "KiB", "MiB", "GiB", "TiB", "PiB"];
    let mut value = bytes as f64;
    let mut unit = 0_usize;
    while value >= 1024.0 && unit < units.len() - 1 {
        value /= 1024.0;
        unit += 1;
    }
    format!("{value:.1} {}", units[unit])
}

#[test]
fn byte_formatter_matches_floating_point_rendering() {
    let mut samples: Vec<u64> = Vec::new();
    for b in 0..5000u64 {
        samples.push(b);
    }
    for k in 1..7u32 {
        let unit = 1u64 << (10 * k).min(63);
        for n in [1u64, 2, 5, 9, 10, 99, 100, 1000, 1023, 1024, 4095] {
            for t in 0..40u64 {
                let base = n.saturating_mul(unit);
                let frac = unit / 40 * t;
                samples.push(base.saturating_add(frac));
                samples.push(base.saturating_add(frac).saturating_sub(1));
                samples.push(base.saturating_add(frac / 2));
                samples.push(base.saturating_add(unit / 20 + unit / 40 * t));
            }
        }
    }
    for e in 52..64u32 {
        for d in 0..5000u64 {
            samples.push((1u64 << e).wrapping_add(d));
            samples.push((1u64 << e).wrapping_sub(d));
            samples.push((3u64 << (e - 1)).wrapping_add(d * 1021));
        }
    }
    samples.push(u64::MAX);
    samples.push(u64::MAX - 1);
    samples.push(u64::MAX - 1024);
    let mut state: u64 = 0x9e3779b97f4a7c15;
    for _ in 0..200000 {
        state ^= state << 13;
        state ^= state >> 7;
        state ^= state << 17;
        samples.push(state >> (state % 64));
    }
    for b in samples {
        assert_eq!(format_bytes(b), float_format_bytes(b), "bytes = {b}");
    }
}
