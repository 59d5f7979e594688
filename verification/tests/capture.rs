use lazarus::capture::bootloader::{
    boot_mode, disk_of_partition, esp_from_mounts, is_kernel_file, read_bios, root_device,
    secure_boot_text, uuid_link, BootMode, BootloaderConfig, BOOT_CODE_LEN,
};
use lazarus::capture::disk_layout::{
    detect_table_kind, gpt_table, is_no_disk, mbr_table, parse_sfdisk_dump, parse_sgdisk_print,
    read_disk, DiskFiles, PartitionTable, TableKind,
};
use lazarus::capture::network::{
    config_file_choice, interface_kind, parse_ip_route_json, parse_resolv_conf, read_interface,
    read_routes, DirChoice, InterfaceFiles, NetworkConfig,
};
use lazarus::capture::packages::{
    detect_manager, list_command, parse_apk_info, parse_dpkg_query, parse_pacman_q, parse_rpm_qa,
    read_packages, ManagerTraces, PackageManager, PackageManifest,
};
use lazarus::capture::persist::{
    frame, sharded_key, strip_header, BufferedKind, FingerprintPersister, MAGIC_FINGERPRINT,
    MAGIC_SENSITIVE_BLOB,
};
use lazarus::capture::secrets::{keeps_key_file, stored_keys, SshHostKeysRef};
use lazarus::capture::system::{
    assemble_fingerprint, detect_init_system, keep_wanted, machine_id, parse_cpuinfo,
    parse_os_release, parse_proc_mounts, parse_systemctl_enabled, read_firmware, read_memory,
    variable_set, CaptureOpts, CaptureWarning, Collectors, CpuInfo, FirmwareInfo, HostBasics, KernelInfo,
};
use lazarus::capture::users::{read_users, shadow_blob, UserDatabaseRef};
use lazarus::capture::util::{tar_command, tool_output, CaptureError, ToolEnd};
use lazarus::commands::system_snapshot::{
    build_capture_opts, component_count, fingerprint_sidecar, SystemSnapshotArgs,
};
use lazarus::encryption::key_manager::KeyManager;
use lazarus::error::LazarusError;
use lazarus::snapshot::dedup::DedupTable;

fn snapshot_args(skip: [bool; 7], tool_timeout: u64) -> SystemSnapshotArgs {
    SystemSnapshotArgs {
        repository: String::new(),
        password: String::new(),
        tag: None,
        dry_run: false,
        print: false,
        tool_timeout,
        skip_packages: skip[0],
        skip_network: skip[1],
        skip_users: skip[2],
        skip_ssh: skip[3],
        skip_bootloader: skip[4],
        skip_lvm: skip[5],
        skip_mdadm: skip[6],
    }
}

#[test]
fn capture_opts_skip_flags() {
    let args = snapshot_args([true, false, true, false, true, false, true], 30);
    let opts = build_capture_opts(&args);
    assert!(!opts.include_packages);
    assert!(opts.include_network);
    assert!(!opts.include_users);
    assert!(opts.include_ssh_keys);
    assert!(!opts.include_bootloader);
    assert!(opts.include_lvm);
    assert!(!opts.include_mdadm);
    assert_eq!(opts.tool_timeout, 30);
}

#[test]
fn capture_opts_defaults() {
    let opts = build_capture_opts(&snapshot_args([false; 7], 60));
    assert!(opts.include_packages);
    assert!(opts.include_network);
    assert!(opts.include_users);
    assert!(opts.include_ssh_keys);
    assert!(opts.include_bootloader);
}

// --- Boot loader -----------------------------------------------------------------------------

#[test]
fn boot_mode_default_is_unknown() {
    assert_eq!(BootMode::default(), BootMode::Unknown);
}

#[test]
fn disk_of_partition_strips_digits() {
    assert_eq!(disk_of_partition("/dev/sda1"), "/dev/sda");
    assert_eq!(disk_of_partition("/dev/nvme0n1p3"), "/dev/nvme0n1");
    assert_eq!(disk_of_partition("/dev/mmcblk0p2"), "/dev/mmcblk0");
}

#[test]
fn boot_files_are_told_apart() {
    assert_eq!(boot_mode(true), BootMode::Uefi);
    assert_eq!(boot_mode(false), BootMode::Bios);
    assert!(is_kernel_file("vmlinuz-6.1.0"));
    assert!(!is_kernel_file("grub"));
    assert_eq!(secure_boot_text("SecureBoot-8be4df61", Some(&[6, 0, 0, 0, 1])), "enabled");
    assert_eq!(secure_boot_text("SecureBoot-8be4df61", Some(&[6, 0, 0, 0, 0])), "disabled");
}

#[test]
fn the_root_device_comes_from_the_command_line() {
    let cmdline = "BOOT_IMAGE=/vmlinuz root=/dev/sda2 ro quiet";
    assert_eq!(root_device(cmdline).as_deref(), Some("/dev/sda2"));
    assert!(root_device("ro quiet").is_none());
    assert_eq!(
        uuid_link("UUID=1234-abcd").as_deref(),
        Some("/dev/disk/by-uuid/1234-abcd")
    );
    assert!(uuid_link("/dev/sda2").is_none());
}

#[test]
fn the_esp_is_found_among_the_mounts() {
    let mounts = "/dev/sda2 / ext4 rw 0 0\n/dev/sda1 /boot/efi vfat rw 0 0\n";
    let (device, _uuid) = esp_from_mounts(mounts);
    assert_eq!(device, "/dev/sda1");
    assert_eq!(esp_from_mounts("").0, "");
}

// --- Disks -----------------------------------------------------------------------------------

#[test]
fn detects_gpt_via_protective_mbr() {
    let mut s = [0u8; 512];
    s[510] = 0x55;
    s[511] = 0xAA;
    s[0x1BE + 4] = 0xEE;
    assert_eq!(detect_table_kind(&s), TableKind::Gpt);
}

#[test]
fn detects_mbr() {
    let mut s = [0u8; 512];
    s[510] = 0x55;
    s[511] = 0xAA;
    s[0x1BE + 4] = 0x83;
    assert_eq!(detect_table_kind(&s), TableKind::Mbr);
}

#[test]
fn detects_blank() {
    let s = [0u8; 512];
    assert_eq!(detect_table_kind(&s), TableKind::NoTable);
}

const SGDISK: &str = "\
Disk /dev/sda: 1953525168 sectors, 931.5 GiB
Disk identifier (GUID): C0FFEE01-AAAA-BBBB-CCCC-1234567890AB
Partition table holds up to 128 entries

Number  Start (sector)    End (sector)  Size       Code  Name
   1            2048         1050623   512.0 MiB   EF00  EFI System
   2         1050624      1953525134   931.0 GiB   8300  Linux filesystem
";

const SFDISK: &str = "\
label: dos
label-id: 0xdeadbeef
device: /dev/sda
unit: sectors

/dev/sda1 : start=        2048, size=     1050624, type=83, bootable
/dev/sda2 : start=     1052672, size=    20971520, type=82
";

#[test]
fn parses_sgdisk_print_output() {
    let (guid, parts) = parse_sgdisk_print(SGDISK).expect("parse");
    assert_eq!(guid, "C0FFEE01-AAAA-BBBB-CCCC-1234567890AB");
    assert_eq!(parts.len(), 2);
    assert_eq!(parts[0].start_lba, 2048);
    assert_eq!(parts[0].end_lba, 1050623);
    assert!(parts[0].name.contains("EFI System"));
    assert_eq!(parts[1].number, 2);
}

#[test]
fn parses_sfdisk_dump_output() {
    let parts = parse_sfdisk_dump(SFDISK).expect("parse");
    assert_eq!(parts.len(), 2);
    assert_eq!(parts[0].number, 1);
    assert_eq!(parts[0].start_lba, 2048);
    assert_eq!(parts[0].size_lba, 1050624);
    assert_eq!(parts[0].partition_type, 0x83);
    assert!(parts[0].bootable);
    assert!(!parts[1].bootable);
}

#[test]
fn tables_keep_the_raw_dump() {
    let (table, warnings) = gpt_table("/dev/sda", vec![1, 2, 3], SGDISK);
    assert!(warnings.is_empty());
    match table {
        PartitionTable::Gpt { disk_guid, partitions, raw_dump } => {
            assert_eq!(disk_guid, "C0FFEE01-AAAA-BBBB-CCCC-1234567890AB");
            assert_eq!(partitions.len(), 2);
            assert_eq!(raw_dump, vec![1, 2, 3]);
        }
        _ => panic!("expected a GPT"),
    }
    let (table, _) = mbr_table("/dev/sda", &[7u8; 512], vec![9], SFDISK);
    match table {
        PartitionTable::Mbr { partitions, raw_dump, boot_code } => {
            assert_eq!(partitions.len(), 2);
            assert_eq!(raw_dump, vec![9]);
            assert_eq!(boot_code, vec![7u8; 446]);
        }
        _ => panic!("expected an MBR"),
    }
}

#[test]
fn disks_are_read_from_sysfs() {
    let files = DiskFiles {
        size: Some("2048\n"),
        logical_block_size: Some("512\n"),
        physical_block_size: Some("4096\n"),
        rotational: Some("1\n"),
        model: Some("  ACME 1000 \n"),
        serial: None,
    };
    let disk = read_disk("/dev/sda", &files, None, None, PartitionTable::NoTable);
    assert_eq!(disk.size_bytes, 2048 * 512);
    assert_eq!(disk.logical_block_size, 512);
    assert_eq!(disk.physical_block_size, 4096);
    assert!(disk.rotational);
    assert_eq!(disk.model, "ACME 1000");
    assert!(is_no_disk("loop0"));
    assert!(!is_no_disk("sda"));
}

// --- Network ---------------------------------------------------------------------------------

#[test]
fn parses_resolv_conf() {
    let s = "\
# generated by net-tools\n\
nameserver 1.1.1.1\n\
nameserver 8.8.8.8\n\
search example.com lan\n\
";
    let cfg = parse_resolv_conf(s);
    assert_eq!(cfg.nameservers, vec!["1.1.1.1", "8.8.8.8"]);
    assert_eq!(cfg.search, vec!["example.com", "lan"]);
}

#[test]
fn interfaces_are_read_from_sysfs() {
    let files = InterfaceFiles {
        address: Some("52:54:00:12:34:56\n"),
        mtu: Some("9000\n"),
        operstate: Some("up\n"),
        uevent: Some("DEVTYPE=wlan\nINTERFACE=wlp3s0\n"),
    };
    let nic = read_interface("wlp3s0", &files, Some("iwlwifi".to_string()), None);
    assert_eq!(nic.mac, "52:54:00:12:34:56");
    assert_eq!(nic.mtu, 9000);
    assert_eq!(nic.state, "up");
    assert_eq!(nic.kind, "wlan");
    assert_eq!(nic.driver.as_deref(), Some("iwlwifi"));
    assert_eq!(interface_kind("lo", None), "loopback");
}

#[test]
fn routes_are_read_from_their_listing() {
    let listing = "[{\"dst\":\"default\",\"gateway\":\"10.0.0.1\",\"dev\":\"eth0\",\"metric\":100},\
                   {\"dst\":\"fe80::/64\",\"dev\":\"eth1\",\"family\":\"inet6\",\"metric\":-1},7]";
    let routes = parse_ip_route_json(listing).unwrap();
    assert_eq!(routes.len(), 3);
    assert_eq!(routes[0].dst, "default");
    assert_eq!(routes[0].gw.as_deref(), Some("10.0.0.1"));
    assert_eq!(routes[0].dev, "eth0");
    assert_eq!(routes[0].metric, Some(100));
    assert_eq!(routes[0].family, 2);
    assert_eq!(routes[1].family, 10);
    assert!(routes[1].gw.is_none());
    assert!(routes[1].metric.is_none());
    assert_eq!(routes[2].dst, "");
    assert!(parse_ip_route_json("{}").unwrap().is_empty());
    assert!(parse_ip_route_json("nonsense").unwrap_err().starts_with("ip route JSON: "));
}

#[test]
fn routes_take_the_first_field_of_a_name() {
    let field = |name: &str, text: &str| (name.to_string(), Some(text.to_string()), None);
    let record = vec![field("dev", "eth0"), field("dev", "eth1")];
    let routes = read_routes(&Some(vec![Some(record), Some(Vec::new()), None]));
    assert_eq!(routes.len(), 3);
    assert_eq!(routes[0].dev, "eth0");
    assert_eq!(routes[1].dev, "");
    assert_eq!((routes[2].dst.as_str(), routes[2].family), ("", 2));
}

#[test]
fn a_listing_that_is_no_array_has_no_routes() {
    assert!(read_routes(&None).is_empty());
    for text in ["{\"dst\":\"default\"}", "7", "null", "\"text\"", "[]"] {
        assert!(parse_ip_route_json(text).unwrap().is_empty());
    }
}

#[test]
fn boot_code_is_captured_whole_or_not_at_all() {
    let disk = || Some("/dev/sda".to_string());
    let sector: Vec<u8> = (0..BOOT_CODE_LEN + 3).map(|i| (i % 251) as u8).collect();
    let (whole, none) = read_bios(disk(), Ok(sector.clone()), None, None, Vec::new());
    assert_eq!(whole.mbr_boot_code, sector[..BOOT_CODE_LEN]);
    assert!(none.is_none());
    let (short, warning) = read_bios(disk(), Ok(vec![1u8; 445]), None, None, Vec::new());
    assert!(short.mbr_boot_code.is_empty());
    assert_eq!(
        warning.unwrap().message,
        "could not read MBR boot code from /dev/sda: only 445 byte(s)"
    );
    let (unread, warning) =
        read_bios(disk(), Err("denied".to_string()), Some("cfg".to_string()), None, Vec::new());
    assert!(unread.mbr_boot_code.is_empty());
    assert_eq!(unread.grub_cfg.as_deref(), Some("cfg"));
    assert_eq!(warning.unwrap().remediation.as_deref(), Some("re-run as root"));
}

#[test]
fn large_configuration_files_are_left_out() {
    assert!(matches!(config_file_choice("/etc/x", true, 10), DirChoice::Keep));
    assert!(matches!(config_file_choice("/etc/x", false, 10), DirChoice::Skip));
    assert!(matches!(config_file_choice("/etc/x", true, 1048577), DirChoice::TooLarge(_)));
}

// --- Packages --------------------------------------------------------------------------------

#[test]
fn parses_dpkg_query() {
    let s = "\
bash\t5.1-6ubuntu1\tamd64\tinstalled\n\
coreutils\t8.32-4.1ubuntu1\tamd64\tinstalled\n\
old-pkg\t1.0\tamd64\tdeinstall\n\
";
    let pkgs = parse_dpkg_query(s);
    assert_eq!(pkgs.len(), 2);
    assert_eq!(pkgs[0].name, "bash");
    assert_eq!(pkgs[0].architecture.as_deref(), Some("amd64"));
}

#[test]
fn parses_rpm_qa() {
    let s = "\
bash\t5.1.8-9.el9\tx86_64\n\
coreutils\t8.32-35.el9\tx86_64\n\
";
    let pkgs = parse_rpm_qa(s);
    assert_eq!(pkgs.len(), 2);
    assert_eq!(pkgs[1].name, "coreutils");
    assert_eq!(pkgs[1].version, "8.32-35.el9");
}

#[test]
fn parses_pacman_q() {
    let s = "\
bash 5.2.026-1\n\
coreutils 9.5-1\n\
";
    let pkgs = parse_pacman_q(s);
    assert_eq!(pkgs.len(), 2);
    assert_eq!(pkgs[0].version, "5.2.026-1");
}

#[test]
fn parses_apk_info() {
    let s = "\
busybox-1.36.1-r29\n\
musl-1.2.5-r0\n\
";
    let pkgs = parse_apk_info(s);
    assert_eq!(pkgs.len(), 2);
    assert_eq!(pkgs[0].name, "busybox");
    assert_eq!(pkgs[0].version, "1.36.1-r29");
    assert_eq!(pkgs[1].name, "musl");
}

#[test]
fn the_package_manager_is_told_by_its_traces() {
    let none = ManagerTraces {
        dpkg_status: false,
        rpm_packages: false,
        rpm_sqlite: false,
        pacman_local: false,
        apk_installed: false,
    };
    assert_eq!(detect_manager(none), PackageManager::Unknown);
    assert_eq!(detect_manager(ManagerTraces { rpm_sqlite: true, ..none }), PackageManager::Rpm);
    assert_eq!(
        detect_manager(ManagerTraces { dpkg_status: true, apk_installed: true, ..none }),
        PackageManager::Dpkg
    );
    assert_eq!(list_command(PackageManager::Pacman).unwrap().program, "pacman");
    assert!(list_command(PackageManager::Unknown).is_none());
    let (packages, warning) = read_packages(PackageManager::Rpm, Err("rpm failed".to_string()));
    assert!(packages.is_empty());
    assert!(warning.is_some());
}

// --- Storing ---------------------------------------------------------------------------------

fn keys() -> KeyManager {
    KeyManager::from_keys([3u8; 32], [4u8; 32])
}

fn bytes_of(hex: &str) -> [u8; 32] {
    let mut out = [0u8; 32];
    for i in 0..32 {
        out[i] = u8::from_str_radix(&hex[i * 2..i * 2 + 2], 16).unwrap();
    }
    out
}

#[test]
fn fingerprint_roundtrip() {
    let mut persister = FingerprintPersister::new("snap-1", false);
    let (hash, write) = persister.persist_fingerprint(&keys(), b"host abc123").unwrap();
    let write = write.unwrap();
    assert_eq!(hash.len(), 64);
    let got = FingerprintPersister::load_fingerprint(&keys(), &write.data).unwrap();
    assert_eq!(got, b"host abc123");
}

#[test]
fn dry_run_does_not_touch_backend() {
    let mut persister = FingerprintPersister::new("snap-1", true);
    let (hash, write) = persister.persist_fingerprint(&keys(), b"host").unwrap();
    assert_eq!(hash.len(), 64);
    assert!(write.is_none());
    assert_eq!(persister.buffered.len(), 1);
    assert_eq!(persister.buffered[0].hex, hash);
    assert_eq!(persister.buffered[0].kind, BufferedKind::DataKey);
}

#[test]
fn tamper_detection() {
    let mut persister = FingerprintPersister::new("snap-1", false);
    let (_, write) = persister.persist_fingerprint(&keys(), b"host").unwrap();
    let mut bad = write.unwrap().data;
    let last = bad.len() - 1;
    bad[last] ^= 0xFF;
    assert!(FingerprintPersister::load_fingerprint(&keys(), &bad).is_err());
}

#[test]
fn storage_uses_sharded_key() {
    let mut persister = FingerprintPersister::new("snap-1", false);
    let (hash, write) = persister.persist_fingerprint(&keys(), b"host").unwrap();
    let sharded = sharded_key(&hash);
    assert_ne!(sharded, hash);
    assert_eq!(write.unwrap().key, sharded);
    assert!(sharded.starts_with(&format!("{}/", &hash[..2])));
}

#[test]
fn fingerprint_chunk_survives_partial_prune() {
    let mut dedup = DedupTable::new();
    let mut p1 = FingerprintPersister::new("snap-1", false);
    let (hash, _) = p1.persist_fingerprint(&keys(), b"host m1").unwrap();
    p1.register_ref(&mut dedup, &bytes_of(&hash));
    let mut p2 = FingerprintPersister::new("snap-2", false);
    let (hash2, _) = p2.persist_fingerprint(&keys(), b"host m1").unwrap();
    p2.register_ref(&mut dedup, &bytes_of(&hash2));
    assert_eq!(hash, hash2);
    assert_eq!(dedup.refcount(&bytes_of(&hash)), 2);
    assert!(dedup.remove_snapshot_references("snap-1").is_empty());
    let freed = dedup.remove_snapshot_references("snap-2");
    assert_eq!(freed, vec![bytes_of(&hash)]);
}

#[test]
fn secrets_are_stored_under_the_metadata_key() {
    let mut persister = FingerprintPersister::new("snap-1", false);
    let (_, write) = persister.persist_blob_metadata_key(&keys(), b"shadow").unwrap();
    let data = write.unwrap().data;
    let got = FingerprintPersister::load_blob_metadata_key(&keys(), &data).unwrap();
    assert_eq!(got, b"shadow");
    assert!(matches!(
        FingerprintPersister::load_fingerprint(&keys(), &data),
        Err(LazarusError::EncryptionError(_))
    ));
    assert!(matches!(
        FingerprintPersister::load_blob_metadata_key(&keys(), &data[..5]),
        Err(LazarusError::Storage(m)) if m == "sensitive blob chunk too short to contain nonce"
    ));
}

#[test]
fn plain_blobs_have_no_header() {
    let mut persister = FingerprintPersister::new("snap-1", false);
    let (hash, write) = persister.persist_blob_data_key(&keys(), b"archive").unwrap();
    assert_eq!(hash, blake3::hash(b"archive").to_hex().to_string());
    let data = write.unwrap().data;
    let fault = FingerprintPersister::load_fingerprint(&keys(), &data).unwrap_err();
    assert!(matches!(fault, LazarusError::VerificationFailed(_)));
}

#[test]
fn headers_are_checked() {
    let buf = frame(&MAGIC_FINGERPRINT, b"body");
    assert_eq!(&buf[..8], b"LZFP\x01\x00\x00\x00");
    assert_eq!(strip_header(&buf, &MAGIC_FINGERPRINT, "fingerprint").unwrap(), b"body");
    let short = strip_header(&buf[..7], &MAGIC_FINGERPRINT, "fingerprint").unwrap_err();
    assert_eq!(
        short.describe(),
        "Verification failed: fingerprint blob shorter than header"
    );
    let wrong = strip_header(&buf, &MAGIC_SENSITIVE_BLOB, "blob").unwrap_err();
    assert!(wrong.describe().contains(
        "blob magic mismatch: got [76, 90, 70, 80], expected [76, 90, 66, 80]"
    ));
    let mut newer = buf.clone();
    newer[4] = 2;
    let newer = strip_header(&newer, &MAGIC_FINGERPRINT, "fingerprint").unwrap_err();
    assert!(newer.describe().contains("fingerprint version 2 newer than supported 1"));
}

// --- The system ------------------------------------------------------------------------------

#[test]
fn parses_os_release() {
    let s = r#"
NAME="Ubuntu"
ID=ubuntu
VERSION_ID="22.04"
PRETTY_NAME="Ubuntu 22.04.3 LTS"
"#;
    let (id, ver) = parse_os_release(s);
    assert_eq!(id, "ubuntu");
    assert_eq!(ver, "22.04");
}

#[test]
fn parses_minimal_cpuinfo() {
    let s = "\
processor\t: 0\n\
vendor_id\t: GenuineIntel\n\
model name\t: Imaginary CPU @ 2.0GHz\n\
physical id\t: 0\n\
flags\t\t: fpu vme de pse tsc\n\
\n\
processor\t: 1\n\
vendor_id\t: GenuineIntel\n\
model name\t: Imaginary CPU @ 2.0GHz\n\
physical id\t: 0\n\
flags\t\t: fpu vme de pse tsc\n\
";
    let cpu = parse_cpuinfo(s);
    assert_eq!(cpu.vendor, "GenuineIntel");
    assert_eq!(cpu.physical_cores, 1);
    assert_eq!(cpu.logical_cores, 2);
    assert!(cpu.flags.iter().any(|f| f == "fpu"));
}

#[test]
fn parses_proc_mounts() {
    let s = "\
/dev/sda1 / ext4 rw,relatime 0 0\n\
proc /proc proc rw 0 0\n\
";
    let mounts = parse_proc_mounts(s);
    assert_eq!(mounts.len(), 2);
    assert_eq!(mounts[0].device, "/dev/sda1");
    assert_eq!(mounts[0].mountpoint.as_deref(), Some("/"));
    assert_eq!(mounts[0].fstype, "ext4");
}

#[test]
fn parses_systemctl_enabled_listing() {
    let s = "\
ssh.service                 enabled\n\
cron.service                enabled\n\
";
    let svcs = parse_systemctl_enabled(s);
    assert_eq!(svcs.len(), 2);
    assert_eq!(svcs[0].name, "ssh.service");
    assert_eq!(svcs[0].state, "enabled");
}

#[test]
fn memory_is_read_in_bytes() {
    let (bytes, warning) = read_memory(Some("MemTotal:       16 kB\nMemFree: 1 kB\n"));
    assert_eq!(bytes, 16 * 1024);
    assert!(warning.is_none());
    let (bytes, warning) = read_memory(None);
    assert_eq!(bytes, 0);
    assert!(warning.is_some());
}

#[test]
fn host_facts_have_fallbacks() {
    assert_eq!(detect_init_system(true, None), "systemd");
    assert_eq!(machine_id(None, Some("abc\n")).as_deref(), Some("abc"));
    assert!(machine_id(None, None).is_none());
    assert!(variable_set(&[6, 0, 0, 0, 1]));
    assert!(!variable_set(&[6, 0, 0, 0, 0]));
    let fw = read_firmware(true, Some(&[6, 0, 0, 0, 1]), Some("ACME\n"), None, None);
    assert!(fw.uefi && fw.secure_boot);
    assert_eq!(fw.vendor.as_deref(), Some("ACME"));
}

fn kernel() -> KernelInfo {
    KernelInfo {
        release: String::new(),
        version: String::new(),
        arch: String::new(),
        cmdline: String::new(),
        distro_id: String::new(),
        distro_version: String::new(),
        init_system: String::new(),
    }
}

fn basics() -> HostBasics {
    HostBasics {
        captured_at_epoch_s: 1234,
        captured_by: "test".to_string(),
        hostname: "host".to_string(),
        fqdn: None,
        machine_id: Some("abc123".to_string()),
        kernel: kernel(),
        cpu: CpuInfo::default(),
        memory_bytes: 0,
        filesystems: Vec::new(),
        fstab: String::new(),
        crypttab: None,
        services: Vec::new(),
        firmware: FirmwareInfo {
            vendor: None,
            version: None,
            release_date: None,
            uefi: false,
            secure_boot: false,
        },
        warnings: vec![CaptureWarning::new("cpu", "first")],
    }
}

fn collectors() -> Collectors {
    Collectors {
        disks: Ok((Vec::new(), vec![CaptureWarning::new("disks", "second")])),
        network: Ok((NetworkConfig::default(), Vec::new())),
        packages: Ok((PackageManifest::default(), Vec::new())),
        bootloader: Ok((BootloaderConfig::default(), Vec::new())),
        users: Ok((UserDatabaseRef::empty(), Vec::new())),
        ssh_host_keys: Ok((SshHostKeysRef::empty(), Vec::new())),
        lvm: Ok((None, Vec::new())),
        mdadm: Ok((None, vec![CaptureWarning::new("mdadm", "third")])),
    }
}

#[test]
fn fingerprints_gather_all_warnings_in_order() {
    let fp = assemble_fingerprint(basics(), collectors()).unwrap();
    assert_eq!(fp.version, 1);
    assert_eq!(fp.hostname, "host");
    let messages: Vec<&str> = fp.warnings.iter().map(|w| w.message.as_str()).collect();
    assert_eq!(messages, vec!["first", "second", "third"]);
    assert_eq!(component_count(&fp), 1);
}

#[test]
fn a_failed_collector_fails_the_fingerprint() {
    let mut c = collectors();
    c.lvm = Err(LazarusError::Storage("later".to_string()));
    c.network = Err(LazarusError::Storage("sooner".to_string()));
    let e = assemble_fingerprint(basics(), c).unwrap_err();
    assert_eq!(e.describe(), "Storage backend error: sooner");
}

#[test]
fn sidecars_name_the_fingerprint() {
    let meta = fingerprint_sidecar("host", "ab12", Some("nightly"));
    assert_eq!(meta.system_fingerprint_chunk.as_deref(), Some("ab12"));
    assert_eq!(meta.system_fingerprint_format_version, Some(1));
    assert_eq!(meta.hostname.as_deref(), Some("host"));
}

#[test]
fn users_keep_what_could_be_read() {
    let blob = shadow_blob(&Ok("root:*:".to_string()), &Err("denied".to_string())).unwrap();
    assert_eq!(blob.shadow, "root:*:");
    assert_eq!(blob.gshadow, "");
    let (users, warnings) = read_users(
        Ok("root:x:0".to_string()),
        Err("denied".to_string()),
        None,
        Some(Ok("hash".to_string())),
    );
    assert_eq!(users.passwd, "root:x:0");
    assert_eq!(users.group, "");
    assert_eq!(users.shadow_blob_chunk.as_deref(), Some("hash"));
    assert_eq!(warnings.len(), 1);
}

#[test]
fn host_keys_are_picked_by_name() {
    assert!(keeps_key_file("ssh_host_ed25519_key", true, 400));
    assert!(!keeps_key_file("sshd_config", true, 400));
    assert!(!keeps_key_file("ssh_host_ed25519_key", true, 262145));
    let (keys, warning) = stored_keys(Some(Ok("hash".to_string())));
    assert_eq!(keys.blob_chunk.as_deref(), Some("hash"));
    assert!(warning.is_none());
    let (keys, warning) = stored_keys(Some(Err("no".to_string())));
    assert!(keys.blob_chunk.is_none());
    assert!(warning.is_some());
}

#[test]
fn tools_report_how_they_ended() {
    let ok = ToolEnd::Exited {
        success: true,
        code: Some(0),
        stdout: b"out".to_vec(),
        stderr: String::new(),
    };
    assert_eq!(tool_output("lsblk", ok).unwrap(), b"out");
    assert!(tool_output("lsblk", ToolEnd::TimedOut).is_err());
    assert!(tool_output("lsblk", ToolEnd::NotSpawned("gone".to_string())).is_err());
    assert!(tar_command("/boot/efi", false).is_err());
    assert_eq!(tar_command("/boot/efi", true).unwrap().program, "tar");
    let e = CaptureError::Parse { component: "disk".to_string(), message: "bad".to_string() };
    assert!(e.into_error().describe().contains("disk"));
}

#[test]
fn unwanted_parts_are_left_out_with_their_warnings() {
    let full = || Collectors {
        network: Ok((
            NetworkConfig { hostname: "h".to_string(), ..NetworkConfig::default() },
            vec![CaptureWarning::new("network", "n")],
        )),
        users: Err(LazarusError::Storage("users".to_string())),
        lvm: Ok((Some("vg".to_string()), vec![CaptureWarning::new("lvm", "l")])),
        ..collectors()
    };
    let all = keep_wanted(&CaptureOpts::default(), full());
    let (network, warnings) = all.network.unwrap();
    assert_eq!((network.hostname.as_str(), warnings.len()), ("h", 1));
    assert!(all.users.is_err());
    let some = CaptureOpts {
        include_network: false,
        include_users: false,
        include_lvm: false,
        include_mdadm: false,
        ..CaptureOpts::default()
    };
    let kept = keep_wanted(&some, full());
    let fp = assemble_fingerprint(basics(), kept).unwrap();
    assert_eq!(fp.network.hostname, "");
    assert_eq!(fp.users.passwd, "");
    assert_eq!(fp.lvm, None);
    let warned: Vec<&str> = fp.warnings.iter().map(|w| w.component.as_str()).collect();
    assert_eq!(warned, vec!["cpu", "disks"]);
}
