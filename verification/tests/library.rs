use optimod::cli::{not_implemented_message, run, Action, Cli, Command, InspectArgs, ModelArgs};
use optimod::cli::{BenchmarkArgs, ModelCommand, Profile, RecommendArgs, ReportArgs};
use optimod::hardware::cgroup::{
    cgroup_directory_candidate, parse_cpu_quota, read_cgroup_cpu_quota, read_cgroup_memory,
    CgroupFile, CgroupMemoryFiles, FileRead,
};
use optimod::hardware::cpuinfo::{is_inference_feature, parse_cpuinfo};
use optimod::hardware::drm::parse_drm_accelerator;
use optimod::hardware::format::format_bytes;
use optimod::hardware::inspect::{
    inspect, operating_system_name, HostInputs, InspectionError, InspectionReport, StorageProbe,
    INSPECTION_SCHEMA_VERSION,
};
use optimod::hardware::keyvalue::{field_value, non_empty_field, parse_key_value_lines};
use optimod::hardware::meminfo::{parse_kib, parse_kib_field, parse_meminfo};
use optimod::hardware::mountinfo::{decode_mount_field, parse_mountinfo};
use optimod::hardware::os_release::{parse_os_release, unquote_os_release};
use optimod::hardware::quota::quota_cpus_text;
use optimod::hardware::render::render_human;
use optimod::hardware::storage::{locate_mount, storage_snapshot, FsStats};
use optimod::hardware::sysfs::{
    all_ascii_digits, count_numa_nodes, discover_accelerators, into_u64, is_drm_card,
    parallelism_or_one, rotational_flag, rotational_step, DrmEntry, DrmListing, RotationalStep,
};
use optimod::hardware::{
    AcceleratorSnapshot, CgroupMemory, CpuQuota, CpuSnapshot, HostSnapshot, MemorySnapshot,
    StorageSnapshot,
};

fn s(v: &str) -> String {
    v.to_owned()
}

fn pairs(v: &[(&str, &str)]) -> Vec<(String, String)> {
    v.iter().map(|(k, x)| (s(k), s(x))).collect()
}

// ---- key/value lines ----

#[test]
fn key_value_lines_lowercase_keys_and_trim_values() {
    let fields = parse_key_value_lines("Model Name :  Tiny CPU \nno separator\nflags: a: b\n");
    assert_eq!(fields, pairs(&[("model name", "Tiny CPU"), ("flags", "a: b")]));
}

#[test]
fn key_value_lookup_takes_the_last_duplicate() {
    let fields = parse_key_value_lines("a: 1\nA: 2\n");
    assert_eq!(field_value(&fields, "a"), Some(&s("2")));
    assert_eq!(field_value(&fields, "b"), None);
}

#[test]
fn non_empty_field_skips_empty_values() {
    let fields = parse_key_value_lines("model name:\nhardware: Board\n");
    assert_eq!(non_empty_field(&fields, "model name"), None);
    assert_eq!(non_empty_field(&fields, "hardware"), Some(s("Board")));
    assert_eq!(non_empty_field(&fields, "missing"), None);
}

// ---- KiB amounts and /proc/meminfo ----

#[test]
fn kib_amounts_accept_any_case_of_the_unit() {
    assert_eq!(parse_kib("12 kB", "X"), Ok(12 * 1024));
    assert_eq!(parse_kib("12 KB", "X"), Ok(12 * 1024));
    assert_eq!(parse_kib("12", "X"), Ok(12 * 1024));
    assert_eq!(parse_kib("12 kb extra", "X"), Ok(12 * 1024));
    assert_eq!(parse_kib("+12 kB", "X"), Ok(12 * 1024));
    assert_eq!(parse_kib("\u{a0}12\u{2003}kB\n", "X"), Ok(12 * 1024));
    assert_eq!(parse_kib("0 kB", "X"), Ok(0));
}

#[test]
fn kib_amount_errors_name_the_field() {
    assert_eq!(parse_kib("  ", "MemTotal"), Err(s("MemTotal is empty")));
    assert_eq!(parse_kib("12 MB", "MemTotal"), Err(s("MemTotal has unsupported unit MB")));
    assert_eq!(
        parse_kib("x kB", "MemTotal"),
        Err(s("MemTotal is not an integer: invalid digit found in string"))
    );
    assert_eq!(
        parse_kib("99999999999999999999 kB", "MemTotal"),
        Err(s("MemTotal is not an integer: number too large to fit in target type"))
    );
    assert_eq!(parse_kib("18014398509481984 kB", "MemTotal"), Err(s("MemTotal overflows bytes")));
    assert_eq!(parse_kib("18014398509481983 kB", "MemTotal"), Ok(18014398509481983 * 1024));
}

#[test]
fn kib_field_reports_a_missing_key() {
    let fields = parse_key_value_lines("MemTotal: 4 kB\n");
    assert_eq!(parse_kib_field(&fields, "memtotal"), Ok(4096));
    assert_eq!(parse_kib_field(&fields, "memfree"), Err(s("memfree is missing")));
}

#[test]
fn meminfo_requires_total_and_available_memory() {
    assert_eq!(parse_meminfo("MemFree: 1 kB\n", None), Err(s("memtotal is missing")));
    assert_eq!(
        parse_meminfo("MemTotal: 1 kB\n", None),
        Err(s("MemAvailable and MemFree are missing"))
    );
    assert_eq!(
        parse_meminfo("MemTotal: 1 kB\nMemAvailable: x\n", None),
        Err(s("MemAvailable is not an integer: invalid digit found in string"))
    );
    assert_eq!(
        parse_meminfo("MemTotal: 1 kB\nMemFree: 1 kB\nSwapTotal: 1 MB\n", None),
        Err(s("SwapTotal has unsupported unit MB"))
    );
}

#[test]
fn meminfo_falls_back_to_free_memory_and_zero_swap() {
    let memory = parse_meminfo("MemTotal: 10 kB\nMemFree: 4 kB\n", None).unwrap();
    assert_eq!(
        memory,
        MemorySnapshot {
            host_total_bytes: 10 * 1024,
            host_available_bytes: 4 * 1024,
            effective_total_bytes: 10 * 1024,
            effective_available_bytes: 4 * 1024,
            swap_total_bytes: 0,
            swap_available_bytes: 0,
            cgroup_limit_bytes: None,
            cgroup_used_bytes: None,
        }
    );
}

#[test]
fn meminfo_prefers_available_over_free_memory() {
    let memory = parse_meminfo("MemTotal: 10 kB\nMemFree: 4 kB\nMemAvailable: 6 kB\n", None).unwrap();
    assert_eq!(memory.host_available_bytes, 6 * 1024);
}

#[test]
fn effective_memory_never_exceeds_the_group_limit_or_what_it_has_left() {
    let over = CgroupMemory { limit_bytes: 2048, used_bytes: 4096 };
    let memory = parse_meminfo("MemTotal: 10 kB\nMemAvailable: 6 kB\n", Some(over)).unwrap();
    assert_eq!(memory.effective_total_bytes, 2048);
    assert_eq!(memory.effective_available_bytes, 0);
    assert_eq!(memory.cgroup_limit_bytes, Some(2048));
    assert_eq!(memory.cgroup_used_bytes, Some(4096));

    let loose = CgroupMemory { limit_bytes: u64::MAX, used_bytes: 0 };
    let memory = parse_meminfo("MemTotal: 10 kB\nMemAvailable: 6 kB\n", Some(loose)).unwrap();
    assert_eq!(memory.effective_total_bytes, 10 * 1024);
    assert_eq!(memory.effective_available_bytes, 6 * 1024);
    assert!(memory.effective_total_bytes <= memory.host_total_bytes);
    assert!(memory.effective_available_bytes <= memory.host_available_bytes);
}

// ---- cpu.max ----

#[test]
fn cpu_quota_errors_are_explicit() {
    assert_eq!(parse_cpu_quota(""), Err(s("cpu.max quota is missing")));
    assert_eq!(parse_cpu_quota("max\n"), Err(s("cpu.max period is missing")));
    assert_eq!(
        parse_cpu_quota("max x\n"),
        Err(s("cpu.max period is invalid: invalid digit found in string"))
    );
    assert_eq!(parse_cpu_quota("1 2 3\n"), Err(s("cpu.max has extra fields")));
    assert_eq!(parse_cpu_quota("1 0\n"), Err(s("cpu.max period cannot be zero")));
    assert_eq!(parse_cpu_quota("0 100\n"), Err(s("cpu.max quota cannot be zero")));
    assert_eq!(
        parse_cpu_quota("x 100\n"),
        Err(s("cpu.max quota is invalid: invalid digit found in string"))
    );
    assert_eq!(
        parse_cpu_quota("max 2 3\n"),
        Err(s("cpu.max has extra fields"))
    );
}

#[test]
fn cpu_quota_keeps_quota_and_period() {
    assert_eq!(
        parse_cpu_quota("50000 100000\n"),
        Ok(Some(CpuQuota { quota: 50000, period: 100000 }))
    );
}

#[test]
fn cgroup_cpu_quota_reading_warns_about_bad_files() {
    let mut warnings = Vec::new();
    assert_eq!(read_cgroup_cpu_quota(None, &mut warnings), None);
    let missing = CgroupFile { path: s("/sys/fs/cgroup/a/cpu.max"), read: FileRead::Missing };
    assert_eq!(read_cgroup_cpu_quota(Some(missing), &mut warnings), None);
    assert!(warnings.is_empty());

    let failed = CgroupFile { path: s("/g/cpu.max"), read: FileRead::Failed(s("denied")) };
    assert_eq!(read_cgroup_cpu_quota(Some(failed), &mut warnings), None);
    let bad = CgroupFile { path: s("/g/cpu.max"), read: FileRead::Text(s("1 0\n")) };
    assert_eq!(read_cgroup_cpu_quota(Some(bad), &mut warnings), None);
    let good = CgroupFile { path: s("/g/cpu.max"), read: FileRead::Text(s("200000 100000\n")) };
    assert_eq!(
        read_cgroup_cpu_quota(Some(good), &mut warnings),
        Some(CpuQuota { quota: 200000, period: 100000 })
    );
    assert_eq!(
        warnings,
        vec![
            s("could not read /g/cpu.max: denied"),
            s("ignored /g/cpu.max: cpu.max period cannot be zero"),
        ]
    );
}

fn memory_files(limit: FileRead, used: FileRead) -> CgroupMemoryFiles {
    CgroupMemoryFiles {
        limit: CgroupFile { path: s("/g/memory.max"), read: limit },
        used: CgroupFile { path: s("/g/memory.current"), read: used },
    }
}

#[test]
fn cgroup_memory_reading_follows_limit_then_usage() {
    let mut warnings = Vec::new();
    let files = memory_files(FileRead::Text(s("8192\n")), FileRead::Text(s(" 1024 \n")));
    assert_eq!(
        read_cgroup_memory(Some(files), &mut warnings),
        Some(CgroupMemory { limit_bytes: 8192, used_bytes: 1024 })
    );
    let unlimited = memory_files(FileRead::Text(s("max\n")), FileRead::Failed(s("x")));
    assert_eq!(read_cgroup_memory(Some(unlimited), &mut warnings), None);
    let missing = memory_files(FileRead::Missing, FileRead::Text(s("1")));
    assert_eq!(read_cgroup_memory(Some(missing), &mut warnings), None);
    assert!(warnings.is_empty());

    let bad_limit = memory_files(FileRead::Text(s("lots")), FileRead::Text(s("1")));
    assert_eq!(read_cgroup_memory(Some(bad_limit), &mut warnings), None);
    let bad_used = memory_files(FileRead::Text(s("10")), FileRead::Failed(s("denied")));
    assert_eq!(read_cgroup_memory(Some(bad_used), &mut warnings), None);
    assert_eq!(
        warnings,
        vec![
            s("ignored /g/memory.max: invalid digit found in string"),
            s("could not read /g/memory.current: denied"),
        ]
    );
}

#[test]
fn cgroup_directory_comes_from_the_unified_hierarchy_line() {
    assert_eq!(
        cgroup_directory_candidate("12:cpu:/other\n0::/user.slice/app.scope\n"),
        Some(s("/sys/fs/cgroup/user.slice/app.scope"))
    );
    assert_eq!(cgroup_directory_candidate("0::/\n"), Some(s("/sys/fs/cgroup/")));
    assert_eq!(cgroup_directory_candidate("1:name=systemd:/x\n"), None);
}

// ---- /proc/cpuinfo ----

#[test]
fn cpuinfo_rejects_zero_parallelism_and_a_missing_model() {
    assert_eq!(
        parse_cpuinfo("model name: X\n", 0, None, None),
        Err(s("available parallelism cannot be zero"))
    );
    assert_eq!(
        parse_cpuinfo("processor: 0\nflags: avx\n", 4, None, None),
        Err(s("CPU model is missing"))
    );
}

#[test]
fn cpuinfo_uses_a_descriptive_processor_as_the_last_resort() {
    let cpu = parse_cpuinfo("processor : ARMv7 Processor rev 4 (v7l)\nFeatures : NEON vfp\n", 4, None, None)
        .unwrap();
    assert_eq!(cpu.model, "ARMv7 Processor rev 4 (v7l)");
    assert_eq!(cpu.logical_cpus, 1);
    assert_eq!(cpu.physical_cores, None);
    assert_eq!(cpu.features, ["neon"]);
}

#[test]
fn cpuinfo_falls_back_to_parallelism_without_processor_blocks() {
    let cpu = parse_cpuinfo("cpu model : MIPS 24Kc\n", 3, None, Some(2)).unwrap();
    assert_eq!(cpu.model, "MIPS 24Kc");
    assert_eq!(cpu.logical_cpus, 3);
    assert_eq!(cpu.numa_nodes, Some(2));
    assert!(cpu.features.is_empty());
}

#[test]
fn cpuinfo_features_are_sorted_lowercase_and_distinct() {
    let value = "processor: 0\nmodel name: M\nflags: SVE2 fma AVX fma\n\nprocessor: 1\nflags: avx\n";
    let cpu = parse_cpuinfo(value, 1, None, None).unwrap();
    assert_eq!(cpu.features, ["avx", "fma", "sve2"]);
    assert_eq!(cpu.logical_cpus, 2);
}

#[test]
fn cpuinfo_counts_cores_per_package() {
    let value = "processor: 0\nmodel name: M\nphysical id: 0\ncore id: 0\n\n\
                 processor: 1\nphysical id: 1\ncore id: 0\n\n\
                 processor: 2\ncore id: 0\n\n\
                 processor: 3\npackage id: 0\ncore id: 0\n";
    let cpu = parse_cpuinfo(value, 4, None, None).unwrap();
    assert_eq!(cpu.physical_cores, Some(2));
    assert_eq!(cpu.logical_cpus, 4);
}

#[test]
fn inference_features_ignore_ascii_case() {
    assert!(is_inference_feature("AVX512F"));
    assert!(is_inference_feature("sse4_2"));
    assert!(is_inference_feature("Amx_Int8"));
    assert!(!is_inference_feature("fpu"));
    assert!(!is_inference_feature("avx512"));
    assert!(!is_inference_feature(""));
}

// ---- os-release ----

#[test]
fn os_release_falls_back_to_name_and_skips_comments() {
    assert_eq!(parse_os_release("# NAME=Commented\nNAME='Tiny'\n"), Some(s("Tiny")));
    assert_eq!(parse_os_release("ID=tiny\n"), None);
    assert_eq!(parse_os_release("NAME=Tiny\nPRETTY_NAME=\"\"\n"), None);
    assert_eq!(parse_os_release("  PRETTY_NAME = Spaced Out  \n"), Some(s("Spaced Out")));
}

#[test]
fn os_release_values_are_unquoted_and_unescaped() {
    assert_eq!(unquote_os_release("\"a \\\"b\\\" c\""), "a \"b\" c");
    assert_eq!(unquote_os_release("'single'"), "single");
    assert_eq!(unquote_os_release("\"back\\\\slash\""), "back\\slash");
    assert_eq!(unquote_os_release("\"unbalanced"), "\"unbalanced");
    assert_eq!(unquote_os_release("\""), "\"");
    assert_eq!(unquote_os_release("plain"), "plain");
}

#[test]
fn operating_system_name_warns_when_unknown() {
    let mut warnings = Vec::new();
    assert_eq!(operating_system_name(&FileRead::Text(s("NAME=Tiny\n")), &mut warnings), "Tiny");
    assert_eq!(operating_system_name(&FileRead::Text(s("ID=x\n")), &mut warnings), "Linux");
    assert_eq!(operating_system_name(&FileRead::Missing, &mut warnings), "Linux");
    assert_eq!(operating_system_name(&FileRead::Failed(s("denied")), &mut warnings), "Linux");
    assert_eq!(
        warnings,
        vec![
            s("/etc/os-release has no NAME or PRETTY_NAME"),
            s("/etc/os-release is unavailable"),
            s("could not read /etc/os-release: denied"),
        ]
    );
}

// ---- mountinfo ----

#[test]
fn mount_fields_decode_three_digit_octal_escapes() {
    assert_eq!(decode_mount_field("a\\040b"), "a b");
    assert_eq!(decode_mount_field("tab\\011end"), "tab\tend");
    assert_eq!(decode_mount_field("\\400"), "\\400");
    assert_eq!(decode_mount_field("\\999"), "\\999");
    assert_eq!(decode_mount_field("\\04"), "\\04");
    assert_eq!(decode_mount_field("\\303\\251"), "\u{e9}");
    assert_eq!(decode_mount_field("\\377"), "\u{fffd}");
    assert_eq!(decode_mount_field("plain"), "plain");
    assert_eq!(decode_mount_field("caf\u{e9} \u{1f600}"), "caf\u{e9} \u{1f600}");
}

#[test]
fn mountinfo_ignores_malformed_lines_and_foreign_mounts() {
    let value = "garbage line\n\
                 1 2 8:1 / /data rw - ext4 /dev/sda1 rw\n\
                 1 2 8:3 / /datastore rw - ext4 /dev/sda3 rw\n\
                 1 2 8:4 / /data/x rw -\n";
    assert_eq!(parse_mountinfo("/srv/file", value), None);
    let mount = parse_mountinfo("/data/x/file", value).unwrap();
    assert_eq!(mount.mount_point, "/data");
    assert_eq!(mount.major_minor, "8:1");
}

#[test]
fn mountinfo_keeps_the_last_of_equally_deep_mounts() {
    let value = "1 2 8:1 / /data rw - ext4 /dev/sda1 rw\n\
                 1 2 8:2 / /data rw - xfs /dev/sdb1 rw\n";
    let mount = parse_mountinfo("/data/f", value).unwrap();
    assert_eq!(mount.device, "/dev/sdb1");
}

#[test]
fn locate_mount_warns_when_nothing_holds_the_path() {
    let mut warnings = Vec::new();
    let read = FileRead::Text(s("1 2 8:1 / / rw - ext4 /dev/sda1 rw\n"));
    let mount = locate_mount("/home/f", &read, &mut warnings).unwrap();
    assert_eq!(mount.filesystem, "ext4");
    assert!(warnings.is_empty());
    assert_eq!(locate_mount("/home/f", &FileRead::Failed(s("denied")), &mut warnings), None);
    assert_eq!(
        warnings,
        vec![
            s("could not read /proc/self/mountinfo: denied"),
            s("could not map /home/f to a mounted filesystem"),
        ]
    );
}

#[test]
fn storage_capacity_uses_the_fragment_size_and_saturates() {
    let mount = Some(optimod::hardware::mountinfo::MountInfo {
        mount_point: s("/"),
        major_minor: s("8:1"),
        filesystem: s("ext4"),
        device: s("/dev/sda1"),
    });
    let stats = FsStats { fragment_size: 0, block_size: 4096, blocks: 10, available_blocks: 5 };
    let snapshot = storage_snapshot(s("/m"), stats, &mount, Some(false));
    assert_eq!(
        snapshot,
        StorageSnapshot {
            path: s("/m"),
            filesystem: Some(s("ext4")),
            device: Some(s("/dev/sda1")),
            total_bytes: 40960,
            available_bytes: 20480,
            rotational: Some(false),
        }
    );
    let huge = FsStats {
        fragment_size: 1024,
        block_size: 4096,
        blocks: u128::MAX,
        available_blocks: 1 << 60,
    };
    let snapshot = storage_snapshot(s("/m"), huge, &None, None);
    assert_eq!(snapshot.total_bytes, u64::MAX);
    assert_eq!(snapshot.available_bytes, u64::MAX);
    assert_eq!(snapshot.filesystem, None);
}

#[test]
fn storage_without_a_mount_has_no_rotational_flag() {
    let stats = FsStats { fragment_size: 512, block_size: 4096, blocks: 2, available_blocks: 1 };
    let snapshot = storage_snapshot(s("/x"), stats, &None, Some(true));
    assert_eq!(snapshot.rotational, None);
    assert_eq!(snapshot.device, None);
    assert_eq!(snapshot.total_bytes, 1024);
}

fn kernel_escape(text: &str) -> String {
    let mut out = String::new();
    for c in text.chars() {
        match c {
            ' ' => out.push_str("\\040"),
            '\t' => out.push_str("\\011"),
            '\n' => out.push_str("\\012"),
            '\\' => out.push_str("\\134"),
            _ => out.push(c),
        }
    }
    out
}

#[test]
fn mount_fields_undo_the_kernel_escaping() {
    for text in ["/home/yaya data", "tab\there", "line\nfeed", "back\\slash\\040", "caf\u{e9} \u{1f600}", ""] {
        assert_eq!(decode_mount_field(&kernel_escape(text)), text);
    }
}

// ---- sysfs ----

#[test]
fn sysfs_names_and_flags() {
    assert!(all_ascii_digits("0123"));
    assert!(!all_ascii_digits(""));
    assert!(!all_ascii_digits("1a"));
    assert!(is_drm_card("card0"));
    assert!(!is_drm_card("card"));
    assert!(!is_drm_card("card0-DP-1"));
    assert!(!is_drm_card("renderD128"));
    assert_eq!(rotational_flag("1\n"), Some(true));
    assert_eq!(rotational_flag(" 0 "), Some(false));
    assert_eq!(rotational_flag("2"), None);
    assert_eq!(into_u64(7), 7);
    assert_eq!(into_u64(u128::MAX), u64::MAX);
}

#[test]
fn rotational_walk_moves_up_until_a_flag_or_sys() {
    let dir = "/sys/devices/pci0000:00/0000:00:17.0/ata1/host0/target0:0:0/0:0:0:0/block/sda/sda1";
    assert_eq!(
        rotational_step(dir, None),
        RotationalStep::Up(s("/sys/devices/pci0000:00/0000:00:17.0/ata1/host0/target0:0:0/0:0:0:0/block/sda"))
    );
    assert_eq!(rotational_step("/sys/block/sda", Some("1\n")), RotationalStep::Answer(Some(true)));
    assert_eq!(rotational_step("/sys/block/sda", Some("x")), RotationalStep::Answer(None));
    assert_eq!(rotational_step("/sys/devices", None), RotationalStep::Up(s("/sys")));
    assert_eq!(rotational_step("/sys", None), RotationalStep::Answer(None));
    assert_eq!(rotational_step("/dev", None), RotationalStep::Up(s("/")));
    assert_eq!(rotational_step("/", None), RotationalStep::Answer(None));
    assert_eq!(rotational_step("relative", None), RotationalStep::Answer(None));
}

#[test]
fn numa_nodes_are_the_node_directories() {
    let names = vec![s("node0"), s("node12"), s("possible"), s("node"), s("nodex")];
    assert_eq!(count_numa_nodes(&names), Some(2));
    assert_eq!(count_numa_nodes(&[s("has_cpu")]), None);
}

#[test]
fn parallelism_defaults_to_one_with_a_warning() {
    let mut warnings = Vec::new();
    assert_eq!(parallelism_or_one(Ok(8), &mut warnings), 8);
    assert_eq!(parallelism_or_one(Err(s("unsupported")), &mut warnings), 1);
    assert_eq!(warnings, vec![s("could not determine available parallelism: unsupported")]);
}

// ---- DRM ----

#[test]
fn drm_metadata_errors() {
    assert_eq!(
        parse_drm_accelerator(" \n", "0x1\n", "", None, None),
        Err(s("DRM vendor or device ID is empty"))
    );
    assert_eq!(
        parse_drm_accelerator("0x10de", "0x1", "", Some("lots"), None),
        Err(s("VRAM total is invalid: invalid digit found in string"))
    );
    assert_eq!(
        parse_drm_accelerator("0x10de", "0x1", "", Some("1"), Some("-1")),
        Err(s("VRAM usage is invalid: invalid digit found in string"))
    );
}

#[test]
fn drm_metadata_names_the_device_without_a_driver() {
    let amd = parse_drm_accelerator("0x1002\n", "0x73BF\n", "PCI_ID=1002:73BF\n", Some("10"), None)
        .unwrap()
        .unwrap();
    assert_eq!(
        amd,
        AcceleratorSnapshot {
            backend: s("amd"),
            name: s("amd GPU (0x73bf)"),
            vendor_id: Some(s("0x1002")),
            device_id: Some(s("0x73bf")),
            memory_total_bytes: Some(10),
            memory_available_bytes: None,
        }
    );
    let intel = parse_drm_accelerator("0X8086", "0x56a0", "DRIVER=i915\n", Some("5"), Some("9"))
        .unwrap()
        .unwrap();
    assert_eq!(intel.name, "intel GPU (i915)");
    assert_eq!(intel.vendor_id, Some(s("0x8086")));
    assert_eq!(intel.memory_available_bytes, Some(0));
}

fn card(name: &str, vendor: Option<&str>) -> DrmEntry {
    DrmEntry {
        name: s(name),
        vendor: vendor.map(s),
        device: Some(s("0x1\n")),
        uevent: None,
        memory_total: None,
        memory_used: None,
    }
}

#[test]
fn accelerators_come_from_known_vendor_cards() {
    let mut warnings = Vec::new();
    assert!(discover_accelerators(DrmListing::NotFound, &mut warnings).is_empty());
    assert!(warnings.is_empty());
    assert!(discover_accelerators(DrmListing::Failed(s("denied")), &mut warnings).is_empty());

    let mut bad = card("card2", Some("0x10de"));
    bad.memory_total = Some(s("x"));
    let entries = vec![
        card("card0", Some("0x10de")),
        card("card0-HDMI-A-1", Some("0x10de")),
        card("card1", None),
        card("renderD128", Some("0x10de")),
        card("card3", Some("0x1234")),
        bad,
    ];
    let found = discover_accelerators(DrmListing::Entries(entries), &mut warnings);
    assert_eq!(found.len(), 1);
    assert_eq!(found[0].name, "nvidia GPU (0x1)");
    assert_eq!(
        warnings,
        vec![
            s("could not inspect /sys/class/drm: denied"),
            s("ignored DRM card2: VRAM total is invalid: invalid digit found in string"),
        ]
    );
}

// ---- byte formatting ----

#[test]
fn byte_formatter_edges() {
    assert_eq!(format_bytes(1), "1 B");
    assert_eq!(format_bytes(1023), "1023 B");
    assert_eq!(format_bytes(1024 * 1024), "1.0 MiB");
    assert_eq!(format_bytes(1024 * 1024 - 1), "1024.0 KiB");
    assert_eq!(format_bytes(3 * 1024 * 1024 * 1024 / 2), "1.5 GiB");
    assert_eq!(format_bytes(u64::MAX), "16384.0 PiB");
}

// ---- CPU quota shares ----

#[test]
fn quota_shares_have_two_decimals() {
    assert_eq!(quota_cpus_text(150000, 100000), "1.50");
    assert_eq!(quota_cpus_text(50000, 100000), "0.50");
    assert_eq!(quota_cpus_text(1, 3), "0.33");
    assert_eq!(quota_cpus_text(2, 3), "0.67");
    assert_eq!(quota_cpus_text(0, 100000), "0.00");
    assert_eq!(quota_cpus_text(5, 0), "inf");
    assert_eq!(quota_cpus_text(0, 0), "NaN");
    assert_eq!(quota_cpus_text(u64::MAX, 1), "18446744073709551616.00");
    assert_eq!(quota_cpus_text(1, u64::MAX), "0.00");
}

#[test]
fn quota_shares_round_ties_as_floating_point_does() {
    // 0.125 and 0.375 are exact doubles: ties go to the even hundredth.
    assert_eq!(quota_cpus_text(1, 8), "0.12");
    assert_eq!(quota_cpus_text(3, 8), "0.38");
    // 0.005 is a little below its decimal, 0.015 a little above.
    assert_eq!(quota_cpus_text(1, 200), format!("{:.2}", 1f64 / 200f64));
    assert_eq!(quota_cpus_text(3, 200), format!("{:.2}", 3f64 / 200f64));
}

#[test]
fn quota_shares_match_floating_point_rendering() {
    let mut pairs: Vec<(u64, u64)> = Vec::new();
    for q in 0..300u64 {
        for p in 1..130u64 {
            pairs.push((q, p));
        }
    }
    for p in [100000u64, 50000, 1000000, 3, 7, 1 << 20, (1 << 53) + 1, u64::MAX, u64::MAX - 1] {
        for q in [1u64, 2, 5, 999, 150000, 1 << 52, (1 << 53) + 1, (1 << 60) + 3, u64::MAX] {
            pairs.push((q, p));
            pairs.push((p, q));
        }
    }
    let mut state: u64 = 0x2545f4914f6cdd1d;
    for _ in 0..300000 {
        state ^= state << 13;
        state ^= state >> 7;
        state ^= state << 17;
        let q = state >> (state % 64);
        state ^= state << 13;
        state ^= state >> 7;
        state ^= state << 17;
        let p = (state >> (state % 64)).max(1);
        pairs.push((q, p));
    }
    for (q, p) in pairs {
        assert_eq!(quota_cpus_text(q, p), format!("{:.2}", q as f64 / p as f64), "{q} / {p}");
    }
}

// ---- inspection and rendering ----

const CPUINFO: &str = "processor: 0\nmodel name: Tiny CPU\ncore id: 0\nflags: avx2\n";
const MEMINFO: &str = "MemTotal: 1048576 kB\nMemAvailable: 524288 kB\n";

fn probe() -> StorageProbe {
    StorageProbe {
        snapshot: StorageSnapshot {
            path: s("/models"),
            filesystem: Some(s("ext4")),
            device: Some(s("/dev/sda1")),
            total_bytes: 2048,
            available_bytes: 1024,
            rotational: Some(true),
        },
        warnings: vec![s("storage note")],
    }
}

fn inputs() -> HostInputs {
    HostInputs {
        os_release: FileRead::Missing,
        cgroup_cpu: Some(CgroupFile {
            path: s("/g/cpu.max"),
            read: FileRead::Text(s("150000 100000\n")),
        }),
        cgroup_memory: None,
        cpuinfo: Ok(s(CPUINFO)),
        parallelism: Err(s("unsupported")),
        numa_nodes: None,
        meminfo: Ok(s(MEMINFO)),
        drm: DrmListing::Failed(s("denied")),
        storage: Ok(probe()),
        architecture: s("x86_64"),
    }
}

#[test]
fn inspection_reports_schema_host_and_ordered_warnings() {
    let report = inspect(inputs()).unwrap();
    assert_eq!(report.schema_version, 1);
    assert_eq!(INSPECTION_SCHEMA_VERSION, 1);
    assert_eq!(report.host.operating_system, "Linux");
    assert_eq!(report.host.architecture, "x86_64");
    assert_eq!(report.host.cpu.model, "Tiny CPU");
    assert_eq!(report.host.cpu.available_parallelism, 1);
    assert_eq!(report.host.cpu.cgroup_quota, Some(CpuQuota { quota: 150000, period: 100000 }));
    assert_eq!(report.host.memory.host_total_bytes, 1024 * 1024 * 1024);
    assert!(report.host.accelerators.is_empty());
    assert_eq!(report.host.storage.path, "/models");
    assert_eq!(
        report.warnings,
        vec![
            s("/etc/os-release is unavailable"),
            s("could not determine available parallelism: unsupported"),
            s("could not inspect /sys/class/drm: denied"),
            s("storage note"),
        ]
    );
}

#[test]
fn inspection_fails_on_unreadable_or_invalid_required_files() {
    let mut i = inputs();
    i.cpuinfo = Err(s("denied"));
    let e = inspect(i).unwrap_err();
    assert_eq!(
        e,
        InspectionError::Io { action: s("read"), path: s("/proc/cpuinfo"), detail: s("denied") }
    );
    assert_eq!(e.message(), "could not read /proc/cpuinfo: denied");

    let mut i = inputs();
    i.cpuinfo = Ok(s("flags: avx\n"));
    let e = inspect(i).unwrap_err();
    assert_eq!(e.message(), "invalid /proc/cpuinfo: CPU model is missing");

    let mut i = inputs();
    i.meminfo = Err(s("gone"));
    assert_eq!(inspect(i).unwrap_err().message(), "could not read /proc/meminfo: gone");

    let mut i = inputs();
    i.meminfo = Ok(s("MemFree: 1 kB\n"));
    assert_eq!(inspect(i).unwrap_err().message(), "invalid /proc/meminfo: memtotal is missing");

    let mut i = inputs();
    i.storage = Err(InspectionError::io("resolve", "/nope", s("No such file or directory")));
    assert_eq!(
        inspect(i).unwrap_err().message(),
        "could not resolve /nope: No such file or directory"
    );

    let e = InspectionError::invalid("storage path", s("path contains an interior NUL byte"));
    assert_eq!(e.message(), "invalid storage path: path contains an interior NUL byte");
}

fn report() -> InspectionReport {
    InspectionReport {
        schema_version: 1,
        host: HostSnapshot {
            operating_system: s("Tiny Linux"),
            architecture: s("aarch64"),
            cpu: CpuSnapshot {
                model: s("Tiny CPU"),
                physical_cores: Some(2),
                logical_cpus: 4,
                available_parallelism: 4,
                cgroup_quota: Some(CpuQuota { quota: 150000, period: 100000 }),
                features: vec![s("asimd"), s("dotprod")],
                numa_nodes: Some(1),
            },
            memory: MemorySnapshot {
                host_total_bytes: 2048,
                host_available_bytes: 1024,
                effective_total_bytes: 2048,
                effective_available_bytes: 512,
                swap_total_bytes: 0,
                swap_available_bytes: 0,
                cgroup_limit_bytes: Some(4096),
                cgroup_used_bytes: Some(3584),
            },
            accelerators: vec![AcceleratorSnapshot {
                backend: s("nvidia"),
                name: s("nvidia GPU (nvidia)"),
                vendor_id: Some(s("0x10de")),
                device_id: Some(s("0x1eb8")),
                memory_total_bytes: Some(1536),
                memory_available_bytes: None,
            }],
            storage: StorageSnapshot {
                path: s("/models"),
                filesystem: Some(s("ext4")),
                device: None,
                total_bytes: 1024,
                available_bytes: 0,
                rotational: Some(false),
            },
        },
        warnings: vec![s("first"), s("second")],
    }
}

#[test]
fn human_rendering_lists_every_resource_group() {
    let text = render_human(&report());
    let expected = "OptiMod host inspection (schema 1)\n\
                    Operating system: Tiny Linux\n\
                    Architecture: aarch64\n\
                    \n\
                    CPU\n  Model: Tiny CPU\n  Logical CPUs: 4\n  Available parallelism: 4\n\
                    \x20 Physical cores: 2\n  Cgroup CPU quota: 1.50 CPUs\n  NUMA nodes: 1\n\
                    \x20 Inference features: asimd, dotprod\n\
                    \n\
                    Memory\n  Host total: 2.0 KiB\n  Host available: 1.0 KiB\n\
                    \x20 Effective total: 2.0 KiB\n  Effective available: 512 B\n\
                    \x20 Swap: 0 B total, 0 B available\n  Cgroup limit: 4.0 KiB\n\
                    \n\
                    Accelerators\n  nvidia GPU (nvidia) [nvidia]: 1.5 KiB total\n\
                    \n\
                    Storage\n  Path: /models\n  Filesystem: ext4\n\
                    \x20 Capacity: 1.0 KiB total, 0 B available\n  Rotational: no\n\
                    \n\
                    Warnings\n  - first\n  - second\n";
    assert_eq!(text, expected);
    for heading in ["Operating system", "CPU", "Memory", "Accelerators", "Storage"] {
        assert!(text.contains(heading));
    }
}

#[test]
fn human_rendering_of_a_bare_host() {
    let mut r = report();
    r.host.cpu.physical_cores = None;
    r.host.cpu.cgroup_quota = None;
    r.host.cpu.numa_nodes = None;
    r.host.cpu.features = Vec::new();
    r.host.memory.cgroup_limit_bytes = None;
    r.host.accelerators = Vec::new();
    r.host.storage.filesystem = None;
    r.host.storage.rotational = None;
    r.warnings = Vec::new();
    let text = render_human(&r);
    assert!(text.contains("  Inference features: none detected\n"));
    assert!(text.contains("\nAccelerators\n  None detected through Linux DRM\n"));
    assert!(!text.contains("Physical cores"));
    assert!(!text.contains("Cgroup"));
    assert!(!text.contains("Rotational"));
    assert!(!text.contains("Warnings"));
    assert!(text.ends_with("  Capacity: 1.0 KiB total, 0 B available\n"));
}

// ---- command line ----

#[test]
fn only_inspect_runs_and_the_rest_are_named_as_unfinished() {
    let inspect_cli = Cli { command: Command::Inspect(InspectArgs { path: s("/m"), json: true }) };
    assert_eq!(run(&inspect_cli), Action::Inspect { path: s("/m"), json: true });

    let model = Cli {
        command: Command::Model(ModelArgs {
            command: ModelCommand::Inspect { model: s("qwen.gguf") },
        }),
    };
    assert_eq!(run(&model), Action::NotImplemented(s("model inspect")));
    let recommend = Cli {
        command: Command::Recommend(RecommendArgs {
            model: s("qwen.gguf"),
            profile: Profile::Balanced,
            context_tokens: None,
            concurrency: 1,
            llama_cpp: None,
        }),
    };
    assert_eq!(run(&recommend), Action::NotImplemented(s("recommend")));
    let benchmark = Cli {
        command: Command::Benchmark(BenchmarkArgs { model: s("m"), runs: 3, llama_bench: None }),
    };
    assert_eq!(run(&benchmark), Action::NotImplemented(s("benchmark")));
    let report = Cli { command: Command::Report(ReportArgs { json: false }) };
    assert_eq!(run(&report), Action::NotImplemented(s("report")));
}

#[test]
fn unfinished_command_message_is_explicit() {
    let message = not_implemented_message("model inspect");
    assert_eq!(message, "model inspect is not implemented yet");
    assert!(message.contains("not implemented"));
}

#[test]
fn splitting_on_an_empty_pattern_splits_before_the_text() {
    let text: Vec<char> = "a - b".chars().collect();
    assert_eq!(optimod::text::find_seq(&text, &[]), Some(0));
    assert_eq!(optimod::text::split_once_chars(&text, &[]), Some((Vec::new(), text.clone())));
    let sep: Vec<char> = " - ".chars().collect();
    assert_eq!(
        optimod::text::split_once_chars(&text, &sep),
        Some((vec!['a'], vec!['b']))
    );
}
