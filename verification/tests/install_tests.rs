use wifl::install::{
    install_begin, install_layout, install_step, parse_disks, parse_images, part,
    windows_boot_entries, DiskInfo, ImageInfo, InstallFailure, InstallPhase, InstallStep,
    NodeRole, NtfsDriver, MOUNT_POINT, NODE_RETRIES, PARTITION_TABLE,
};

#[test]
fn partition_names() {
    assert_eq!(part("sda", 1), "/dev/sda1");
    assert_eq!(part("sdb", 3), "/dev/sdb3");
    assert_eq!(part("nvme0n1", 1), "/dev/nvme0n1p1");
    assert_eq!(part("mmcblk0", 2), "/dev/mmcblk0p2");
    assert_eq!(part("sda", 200), "/dev/sda200");
}

#[test]
fn layout_of_a_disk() {
    let l = install_layout("nvme0n1");
    assert_eq!(l.disk_dev, "/dev/nvme0n1");
    assert_eq!(l.bridge_part, "/dev/nvme0n1p1");
    assert_eq!(l.reserved_part, "/dev/nvme0n1p2");
    assert_eq!(l.windows_part, "/dev/nvme0n1p3");
    assert_eq!(MOUNT_POINT, "/mnt/windows");
    assert_eq!(PARTITION_TABLE.lines().count(), 3);
}

#[test]
fn disks_with_single_spaces() {
    let d = parse_disks("sda 931.5G Samsung SSD 860  \nnvme0n1 476.9G\nmmcblk0\n\n");
    assert_eq!(d.len(), 3);
    assert_eq!(d[0].name, "sda");
    assert_eq!(d[0].size, "931.5G");
    assert_eq!(d[0].model, "Samsung SSD 860");
    assert_eq!(d[1].name, "nvme0n1");
    assert_eq!(d[1].size, "476.9G");
    assert_eq!(d[1].model, "");
    assert_eq!(d[2].name, "mmcblk0");
    assert_eq!(d[2].size, "?");
}

#[test]
fn disks_with_aligned_columns() {
    // Only the first two whitespace characters cut the line; empty pieces
    // are dropped, so the rest of an aligned line becomes the size.
    let d = parse_disks("sda   931.5G Samsung\r\n");
    assert_eq!(d.len(), 1);
    assert_eq!(d[0].name, "sda");
    assert_eq!(d[0].size, " 931.5G Samsung");
    assert_eq!(d[0].model, "");
}

#[test]
fn disk_and_image_labels() {
    let d = DiskInfo { name: "sda".into(), size: "1T".into(), model: "Disk".into() };
    assert_eq!(d.label(), "/dev/sda  1T  Disk");
    let i = ImageInfo { index: 6, name: "Windows 11 Pro".into() };
    assert_eq!(i.label(), "[6]  Windows 11 Pro");
}

const WIM_INFO: &str = "WIM Information:\n----------------\nImage Count:    4\n\nAvailable Images:\n-----------------\nIndex:                  1\nName:                   Windows Setup Media\nDescription:            x\n\nIndex:                  2\nName:                   Microsoft Windows PE (amd64)\n\nIndex:                  3\nName:                   Windows 11 Home\n\nIndex:                  4\nName:                   Windows 11 Pro\n";

#[test]
fn images_skip_setup_and_pe() {
    let imgs = parse_images(WIM_INFO);
    assert_eq!(imgs.len(), 2);
    assert_eq!(imgs[0].index, 3);
    assert_eq!(imgs[0].name, "Windows 11 Home");
    assert_eq!(imgs[1].index, 4);
    assert_eq!(imgs[1].name, "Windows 11 Pro");
}

#[test]
fn images_need_index_and_name() {
    // An index without a name is dropped.
    let imgs = parse_images("Index: 1\nIndex: 2\nName: Two\n");
    assert_eq!(imgs.len(), 1);
    assert_eq!(imgs[0].index, 2);
    assert_eq!(imgs[0].name, "Two");
    // A name read before an index goes with that index; an index that is
    // not a number leaves the next name without one.
    let imgs = parse_images("Name: Early\nIndex: 1\nIndex: 2\nName: Second\nIndex: x\nName: Bad\n");
    assert_eq!(imgs.len(), 2);
    assert_eq!(imgs[0].index, 1);
    assert_eq!(imgs[0].name, "Early");
    assert_eq!(imgs[1].index, 2);
    assert_eq!(imgs[1].name, "Second");
    let first = parse_images("Name: Early\nIndex: 7\n");
    assert_eq!(first.len(), 1);
    assert_eq!(first[0].index, 7);
    assert_eq!(first[0].name, "Early");
}

#[test]
fn windows_boot_entries_found() {
    let text = "BootCurrent: 0001\nTimeout: 1 seconds\nBootOrder: 0001,0000\nBoot0000* Windows Boot Manager\tHD(1,GPT)\nBoot0001* UEFI: USB\nBoot000A  WINDOWS (UEFI:NTFS)\nNote: windows here\n";
    assert_eq!(windows_boot_entries(text), vec!["0000", "000A"]);
    assert!(windows_boot_entries("Boot0002* Linux\n").is_empty());
}

fn run(outcomes: &[bool]) -> InstallPhase {
    let mut p = install_begin();
    for ok in outcomes {
        p = install_step(p, *ok);
    }
    p
}

#[test]
fn install_stops_without_hivex() {
    assert_eq!(run(&[false]), InstallPhase::Failed(InstallFailure::HivexMissing));
    assert_eq!(run(&[false, true, true]), InstallPhase::Failed(InstallFailure::HivexMissing));
}

#[test]
fn install_stops_without_bundled_image() {
    assert_eq!(run(&[true, false]), InstallPhase::Failed(InstallFailure::ImageMissing));
}

#[test]
fn install_partitions_after_checks() {
    assert_eq!(run(&[true, true]), InstallPhase::Running(InstallStep::ClearMounts));
    assert_eq!(run(&[true, true, false]), InstallPhase::Running(InstallStep::Partition));
    assert_eq!(run(&[true, true, true, false]), InstallPhase::Failed(InstallFailure::PartitionFailed));
}

#[test]
fn install_waits_for_device_nodes() {
    let mut outs = vec![true, true, true, true, true, true];
    assert_eq!(
        run(&outs),
        InstallPhase::Running(InstallStep::CheckNode { role: NodeRole::Bridge, retries: NODE_RETRIES })
    );
    // Missing every time: 15 waits, then failure.
    for _ in 0..NODE_RETRIES {
        outs.push(false);
        outs.push(true);
    }
    assert_eq!(
        run(&outs),
        InstallPhase::Running(InstallStep::CheckNode { role: NodeRole::Bridge, retries: 0 })
    );
    outs.push(false);
    assert_eq!(run(&outs), InstallPhase::Failed(InstallFailure::NodeMissing(NodeRole::Bridge)));
}

#[test]
fn install_happy_path() {
    let mut p = install_begin();
    let mut steps = 0;
    while let InstallPhase::Running(s) = p {
        // Everything succeeds, except that ntfs3 cannot mount and no stale
        // EFI file is found.
        let ok = !matches!(s, InstallStep::Mount(NtfsDriver::Ntfs3) | InstallStep::CheckStaleEfi);
        p = install_step(p, ok);
        steps += 1;
        assert!(steps < 100);
    }
    assert_eq!(p, InstallPhase::Done);
    assert_eq!(steps, 26);
}

#[test]
fn install_mount_falls_back_then_fails() {
    let mut p = install_begin();
    while p != InstallPhase::Running(InstallStep::Mount(NtfsDriver::Ntfs3)) {
        p = install_step(p, true);
    }
    p = install_step(p, false);
    assert_eq!(p, InstallPhase::Running(InstallStep::Mount(NtfsDriver::Ntfs3g)));
    p = install_step(p, false);
    assert_eq!(p, InstallPhase::Failed(InstallFailure::MountFailed));
    assert_eq!(install_step(p, true), p);
}

use wifl::install::{remove_entry_run, step_runs, Program, ToolRun};

fn runs(step: InstallStep) -> Vec<ToolRun> {
    step_runs(step, &install_layout("sdb"), "/home/u/Documents/ESDs/x.esd", 6, "/tmp/bridge.img", "bootaa64.efi")
}

fn args(r: &ToolRun) -> Vec<&str> {
    r.args.iter().map(|s| s.as_str()).collect()
}

#[test]
fn partition_command() {
    let r = runs(InstallStep::Partition);
    assert_eq!(r.len(), 1);
    assert_eq!(r[0].program, Program::Sfdisk);
    assert_eq!(
        args(&r[0]),
        vec!["--label", "gpt", "--wipe", "always", "--wipe-partitions", "always", "/dev/sdb"]
    );
    assert_eq!(r[0].input.as_deref(), Some(PARTITION_TABLE));
    assert!(r[0].input.as_deref().unwrap().contains("name=\"Windows\""));
    assert!(runs(InstallStep::FormatWindows)[0].input.is_none());
}

#[test]
fn bridge_format_and_apply_commands() {
    let r = runs(InstallStep::WriteBridge);
    assert_eq!(r[0].program, Program::Dd);
    assert_eq!(
        args(&r[0]),
        vec!["if=/tmp/bridge.img", "of=/dev/sdb1", "bs=4M", "conv=fdatasync", "status=none"]
    );
    let r = runs(InstallStep::FormatWindows);
    assert_eq!(r[0].program, Program::Mkntfs);
    assert_eq!(args(&r[0]), vec!["-f", "-L", "Windows", "/dev/sdb3"]);
    let r = runs(InstallStep::ApplyImage);
    assert_eq!(r[0].program, Program::Wimlib);
    assert_eq!(args(&r[0]), vec!["apply", "/home/u/Documents/ESDs/x.esd", "6", "/dev/sdb3"]);
    let r = runs(InstallStep::Mount(NtfsDriver::Ntfs3g));
    assert_eq!(args(&r[0]), vec!["-t", "ntfs-3g", "/dev/sdb3", "/mnt/windows"]);
}

#[test]
fn clear_mounts_releases_disk_and_partitions() {
    let r = runs(InstallStep::ClearMounts);
    assert_eq!(r.len(), 13);
    assert_eq!(r[0].program, Program::Umount);
    assert_eq!(args(&r[0]), vec!["-Rl", "/mnt/windows"]);
    assert_eq!(args(&r[1]), vec!["-km", "/dev/sdb"]);
    assert_eq!(r[3].program, Program::Swapoff);
    assert_eq!(args(&r[12]), vec!["/dev/sdb3"]);
}

#[test]
fn boot_entry_commands() {
    let r = runs(InstallStep::CreateBootEntry);
    assert_eq!(
        args(&r[0]),
        vec![
            "--create", "--disk", "/dev/sdb", "--part", "1", "--label", "Windows (UEFI:NTFS)",
            "--loader", "\\EFI\\Boot\\bootaa64.efi"
        ]
    );
    assert_eq!(args(&remove_entry_run("000A")), vec!["-b", "000A", "-B"]);
    assert!(runs(InstallStep::CheckBootManager).is_empty());
    assert_eq!(runs(InstallStep::FlushAndUnmount).len(), 4);
}

#[test]
fn commands_name_only_the_chosen_disk() {
    let allowed = ["/dev/nvme0n1", "/dev/nvme0n1p1", "/dev/nvme0n1p2", "/dev/nvme0n1p3"];
    let l = install_layout("nvme0n1");
    let mut p = install_begin();
    let mut steps = vec![InstallStep::Mount(NtfsDriver::Ntfs3)];
    while let InstallPhase::Running(s) = p {
        steps.push(s);
        p = install_step(p, true);
    }
    for s in steps {
        for r in step_runs(s, &l, "/srv/x.esd", 1, "/tmp/i.img", "bootaa64.efi") {
            for a in &r.args {
                if a.starts_with("/dev/") {
                    assert!(allowed.contains(&a.as_str()), "{:?} names {}", s, a);
                }
                if a.starts_with("of=/dev/") {
                    assert_eq!(a, "of=/dev/nvme0n1p1");
                }
            }
        }
    }
}
