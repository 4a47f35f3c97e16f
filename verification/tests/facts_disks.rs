use rastfetch::disks::{select_disks, DiskChoice, DiskData};
use rastfetch::facts::{
    fetch_bios, fetch_chassis, fetch_cpu, fetch_editor, fetch_kernel, fetch_kernel_fallback,
    fetch_os, fetch_platform, fetch_separator, fetch_shell, fetch_title, fetch_uptime,
    fetch_terminal_emulator, get_os_id,
};
use rastfetch::text::{parse_u32, split_whitespace_vec, str_contains, str_starts_with};
use rastfetch::theme::{default_palette, os_logo_name, os_palette, Color};

fn disk(fs: &str, mp: &str) -> DiskData {
    DiskData { file_system: fs.to_string(), mount_point: mp.to_string() }
}

#[test]
fn title_line_wraps_names_in_markup() {
    let line = fetch_title(&Some("user".to_string()), &Some("host".to_string()));
    assert_eq!(line, "\n$1user$2@$1host$2");
    let line = fetch_title(&None, &Some("host".to_string()));
    assert_eq!(line, "\n$1Unknown$2@$1host$2");
}

#[test]
fn separator_line_is_fixed() {
    assert_eq!(fetch_separator(), "$2-----------$1");
}

#[test]
fn os_line_carries_the_distro() {
    assert_eq!(fetch_os("Fedora Linux 41"), "$3OS:$2 Fedora Linux 41");
}

#[test]
fn uptime_line_uses_the_time_format() {
    assert_eq!(fetch_uptime(3661), "$3Uptime:$2 $21$3h$2 $21$3m$2 $21$3s$2");
}

#[test]
fn kernel_line_takes_first_and_third_word() {
    let content = "Linux version 6.1.0-x (gcc version 12) #1 SMP";
    assert_eq!(fetch_kernel(content), "$3Kernel:$2 Linux v6.1.0-x");
    assert_eq!(fetch_kernel_fallback("6.1.0-x"), "$3Kernel:$2 6.1.0-x");
}

#[test]
fn shell_line_shows_the_basename() {
    assert_eq!(fetch_shell(&Some("/usr/bin/zsh".to_string())), "$3Shell:$2 zsh");
    assert_eq!(fetch_shell(&Some("bash".to_string())), "$3Shell:$2 bash");
    assert_eq!(fetch_shell(&Some("/usr/bin/".to_string())), "$3Shell:$2 ");
    assert_eq!(fetch_shell(&None), "$3Shell:$2 Unknown");
}

#[test]
fn editor_line_shows_the_basename_or_unknown() {
    assert_eq!(fetch_editor(&Some("/usr/bin/nvim".to_string())), "$3Editor:$2 nvim");
    assert_eq!(fetch_editor(&None), "$3Editor:$2 Unknown");
}

#[test]
fn platform_line_carries_the_platform() {
    assert_eq!(fetch_platform("Linux"), "$3Platform: $2Linux");
}

#[test]
fn cpu_line_lists_brand_cores_and_frequency() {
    let line = fetch_cpu("AMD Ryzen", "cpu0", 16, 3400);
    assert_eq!(line, "$3CPU: $2AMD Ryzen cpu0 16$3core $23400$3Hz$2");
}

#[test]
fn bios_line_names_the_firmware_type() {
    assert_eq!(fetch_bios(true, "1.2", "3"), "$3BIOS (UEFI): $21.2 3$1");
    assert_eq!(fetch_bios(false, "F.42", "7"), "$3BIOS (Legacy): $2F.42 7$1");
}

#[test]
fn chassis_line_translates_the_code() {
    assert_eq!(fetch_chassis("9"), "$3Chassis: $2Laptop");
    assert_eq!(fetch_chassis("3"), "$3Chassis: $2Desktop");
    assert_eq!(fetch_chassis("99"), "$3Chassis: $2Unknown chassis code");
}

#[test]
fn terminal_line_prefers_marker_variables() {
    let line = fetch_terminal_emulator(true, false, false, false, &None, &None);
    assert_eq!(line, "$3Terminal: $2alacritty");
    let line = fetch_terminal_emulator(false, false, true, false, &None, &None);
    assert_eq!(line, "$3Terminal: $2gnome-terminal");
}

#[test]
fn terminal_line_appends_program_and_term() {
    let line = fetch_terminal_emulator(
        false,
        false,
        false,
        false,
        &Some("vscode".to_string()),
        &Some("xterm-kitty".to_string()),
    );
    assert_eq!(line, "$3Terminal: $2vscodekitty");
    let line = fetch_terminal_emulator(
        false,
        false,
        false,
        false,
        &Some("foot".to_string()),
        &None,
    );
    assert_eq!(line, "$3Terminal: $2foot");
    let line = fetch_terminal_emulator(false, false, false, false, &None, &Some(
        "linux".to_string(),
    ));
    assert_eq!(line, "$3Terminal: $2tty");
}

#[test]
fn os_id_comes_from_the_first_id_line() {
    let lines = vec![
        "NAME=\"Fedora Linux\"".to_string(),
        "VERSION_ID=41".to_string(),
        "ID=\"fedora\"".to_string(),
        "ID=other".to_string(),
    ];
    assert_eq!(get_os_id(&lines), Some("fedora".to_string()));
    assert_eq!(get_os_id(&vec!["NAME=x".to_string()]), None);
    assert_eq!(get_os_id(&vec!["ID=arch".to_string()]), Some("arch".to_string()));
}

#[test]
fn palettes_follow_the_os_identifier() {
    let fedora = os_palette("fedora").unwrap();
    assert_eq!(
        fedora,
        vec![Color::Ansi256(12), Color::White, Color::Blue, Color::Green]
    );
    assert_eq!(os_palette("plan9"), None);
    assert_eq!(default_palette(), vec![Color::White]);
}

#[test]
fn logo_names_follow_the_os_identifier() {
    assert_eq!(os_logo_name("Darwin"), Some("macos".to_string()));
    assert_eq!(os_logo_name("bazzite"), Some("bazzite_full".to_string()));
    assert_eq!(os_logo_name("plan9"), None);
}

#[test]
fn text_helpers_behave() {
    assert_eq!(
        split_whitespace_vec("  a  bb\tccc \n"),
        vec!["a", "bb", "ccc"]
    );
    assert!(str_starts_with("subvolid=256", "subvolid="));
    assert!(!str_starts_with("subvol=256", "subvolid="));
    assert!(str_contains("rw,subvolid=5,subvol=/root", "subvolid=5"));
    assert!(!str_contains("rw,subvol=/root", "subvolid=5"));
    assert_eq!(parse_u32("256"), Some(256));
    assert_eq!(parse_u32("0"), Some(0));
    assert_eq!(parse_u32(""), None);
    assert_eq!(parse_u32("12a"), None);
    assert_eq!(parse_u32("99999999999"), None);
}

#[test]
fn root_btrfs_disk_wins_outright() {
    let disks = vec![disk("vfat", "/boot/efi"), disk("btrfs", "/"), disk("ext4", "/data")];
    let choice = select_disks(&disks, &None);
    assert_eq!(choice, DiskChoice::Single(1));
}

#[test]
fn btrfs_base_subvolume_is_recognized_in_the_mount_table() {
    let disks = vec![disk("btrfs", "/home")];
    let mounts = Some(vec![
        "/dev/sda1 / ext4 rw,relatime 0 0".to_string(),
        "/dev/sda2 /home btrfs rw,subvolid=5,subvol=/ 0 0".to_string(),
    ]);
    assert_eq!(select_disks(&disks, &mounts), DiskChoice::Single(0));
}

#[test]
fn smallest_subvolume_id_wins_among_btrfs_disks() {
    let disks = vec![disk("btrfs", "/a"), disk("btrfs", "/b")];
    let mounts = Some(vec![
        "/dev/sda1 /a btrfs subvolid=257 0 0".to_string(),
        "/dev/sda1 /b btrfs subvolid=256 0 0".to_string(),
    ]);
    assert_eq!(select_disks(&disks, &mounts), DiskChoice::Single(1));
}

#[test]
fn plain_disks_are_listed_when_no_btrfs_qualifies() {
    let disks = vec![
        disk("vfat", "/boot/efi"),
        disk("ext4", "/"),
        disk("overlay", "/var/lib/x"),
        disk("xfs", "/data"),
    ];
    assert_eq!(select_disks(&disks, &None), DiskChoice::Several(vec![1, 3]));
}

#[test]
fn nothing_usable_yields_unknown() {
    let disks = vec![disk("vfat", "/boot/efi"), disk("ext4", "/boot")];
    assert_eq!(select_disks(&disks, &None), DiskChoice::Unknown);
    let no_disks: Vec<DiskData> = Vec::new();
    assert_eq!(select_disks(&no_disks, &None), DiskChoice::Unknown);
}

#[test]
fn btrfs_without_mount_table_falls_through() {
    let disks = vec![disk("btrfs", "/home"), disk("ext4", "/data")];
    assert_eq!(select_disks(&disks, &None), DiskChoice::Several(vec![1]));
}
