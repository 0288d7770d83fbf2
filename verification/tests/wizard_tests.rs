use wifl::api::{catalog_url, CATALOG_URL, VERSIONS_URL};
use wifl::catalog::{EsdFile, Release, WindowsVersion};
use wifl::tools::{path_candidates, Tools};
use wifl::wizard::{
    all_dates_split, architectures, build_labels, confirm_choices, date_splits_exec,
    edition_candidates, esd_dir, fmt_date, language_choices, language_labels, parse_invocation,
    passwd_home, uid_is_root, version_labels, Invocation,
};

fn esd(arch: &str, code: &str, lang: &str, name: &str) -> EsdFile {
    EsdFile {
        filename: name.to_string(),
        language_code: code.to_string(),
        language: lang.to_string(),
        editions: Vec::new(),
        architecture: arch.to_string(),
        size: 1,
        sha256: String::new(),
        url: format!("http://x/{}", name),
    }
}

fn catalog() -> Vec<EsdFile> {
    vec![
        esd("x64", "en-us", "English (United States)", "a"),
        esd("ARM64", "de-de", "German", "b"),
        esd("x64", "de-de", "German", "c"),
        esd("x64", "en-us", "English (United States)", "d"),
        esd("ARM64", "en-us", "English (United States)", "e"),
        esd("x64", "cs-cz", "Czech", "f"),
        esd("x64", "en-gb", "English (United Kingdom)", "g"),
        esd("x86", "de-de", "German", "h"),
    ]
}

#[test]
fn architectures_sorted_once_each() {
    assert_eq!(architectures(&catalog()), vec!["ARM64", "x64", "x86"]);
    assert!(architectures(&[]).is_empty());
}

#[test]
fn languages_first_per_code_sorted_by_name() {
    let cat = catalog();
    let r = language_choices(&cat, "x64");
    assert_eq!(r, vec![5, 6, 0, 2]);
    let labels = language_labels(&cat, &r);
    assert_eq!(labels[0], "Czech  (cs-cz)");
    assert_eq!(labels[1], "English (United Kingdom)  (en-gb)");
    assert_eq!(labels[2], "English (United States)  (en-us)");
    assert_eq!(labels[3], "German  (de-de)");
    assert_eq!(language_choices(&cat, "ARM64"), vec![4, 1]);
    assert!(language_choices(&cat, "riscv").is_empty());
}

#[test]
fn languages_with_equal_names_keep_catalogue_order() {
    let cat = vec![
        esd("x64", "b", "Same", "1"),
        esd("x64", "a", "Same", "2"),
        esd("x64", "c", "Alpha", "3"),
    ];
    assert_eq!(language_choices(&cat, "x64"), vec![2, 0, 1]);
}

#[test]
fn edition_candidates_in_catalogue_order() {
    let cat = catalog();
    assert_eq!(edition_candidates(&cat, "x64", "en-us"), vec![0, 3]);
    assert_eq!(edition_candidates(&cat, "x86", "de-de"), vec![7]);
    assert!(edition_candidates(&cat, "x86", "en-us").is_empty());
}

#[test]
fn version_and_build_labels() {
    let v = vec![
        WindowsVersion { number: "11".into(), releases: Vec::new() },
        WindowsVersion { number: "10".into(), releases: Vec::new() },
    ];
    assert_eq!(version_labels(&v), vec!["Windows 11", "Windows 10"]);
    let r = vec![
        Release { build: "22631.2861".into(), date: "20231212".into() },
        Release { build: "22000.1".into(), date: "soon".into() },
    ];
    assert!(all_dates_split(&r));
    assert_eq!(
        build_labels(&r),
        vec!["build 22631.2861   (2023-12-12)", "build 22000.1   (soon)"]
    );
}

#[test]
fn dates() {
    assert_eq!(fmt_date("20231212"), "2023-12-12");
    assert_eq!(fmt_date("2023121"), "2023121");
    assert_eq!(fmt_date(""), "");
    assert_eq!(fmt_date("2023\u{e9}12"), "2023-\u{e9}-12");
    assert!(date_splits_exec("20231212"));
    assert!(!date_splits_exec("202\u{e9}123"));
    let r = vec![Release { build: "1".into(), date: "202\u{e9}123".into() }];
    assert!(!all_dates_split(&r));
}

#[test]
fn confirmation_answers() {
    assert_eq!(
        confirm_choices("nvme0n1"),
        vec!["yes — erase /dev/nvme0n1 and install", "no  — abort"]
    );
}

const PASSWD: &str = "root:x:0:0:root:/root:/bin/bash\nbob:x:1001:1001:Bob::/bin/sh\nalice:x:1000:1000:Alice:/home/alice:/bin/zsh\nbob:x:1002:1002:Bob:/home/bob2:/bin/sh\n";

#[test]
fn passwd_lookup() {
    assert_eq!(passwd_home(PASSWD, "alice").as_deref(), Some("/home/alice"));
    assert_eq!(passwd_home(PASSWD, "bob").as_deref(), Some("/home/bob2"));
    assert_eq!(passwd_home(PASSWD, "carol"), None);
    assert_eq!(passwd_home("alice:x:1", "alice"), None);
}

#[test]
fn esd_directory() {
    assert_eq!(esd_dir(Some("alice"), Some(PASSWD), Some("/root")), "/home/alice/Documents/ESDs");
    assert_eq!(esd_dir(Some("root"), Some(PASSWD), Some("/root")), "/root/Documents/ESDs");
    assert_eq!(esd_dir(Some(""), Some(PASSWD), Some("/h")), "/h/Documents/ESDs");
    assert_eq!(esd_dir(Some("carol"), Some(PASSWD), Some("/h/")), "/h/Documents/ESDs");
    assert_eq!(esd_dir(Some("alice"), None, None), "/root/Documents/ESDs");
    assert_eq!(esd_dir(None, None, Some("")), "Documents/ESDs");
}

#[test]
fn command_line() {
    assert!(matches!(parse_invocation(None), Invocation::Install));
    assert!(matches!(parse_invocation(Some("update")), Invocation::Update));
    assert!(matches!(parse_invocation(Some("--version")), Invocation::Version));
    assert!(matches!(parse_invocation(Some("-v")), Invocation::Version));
    assert!(matches!(parse_invocation(Some("version")), Invocation::Version));
    match parse_invocation(Some("Update")) {
        Invocation::Unknown(s) => assert_eq!(s, "Update"),
        other => panic!("unexpected {:?}", other),
    }
}

#[test]
fn root_check() {
    assert!(uid_is_root("0\n"));
    assert!(uid_is_root("  0  "));
    assert!(!uid_is_root("1000\n"));
    assert!(!uid_is_root(""));
}

#[test]
fn catalogue_addresses() {
    assert_eq!(
        catalog_url("22631.2861"),
        "https://worproject.com/dldserv/esd/getcatalog.php?build=22631.2861"
    );
    assert_eq!(VERSIONS_URL, "https://worproject.com/dldserv/esd/getversions.php");
    assert!(catalog_url("1").starts_with(CATALOG_URL));
}

#[test]
fn tool_search_path() {
    assert_eq!(
        path_candidates("/usr/bin:/bin/::/opt/x", "sfdisk"),
        vec!["/usr/bin/sfdisk", "/bin/sfdisk", "sfdisk", "/opt/x/sfdisk"]
    );
    assert_eq!(path_candidates("", "lsblk"), vec!["lsblk"]);
    let mut t = Tools {
        wimlib: "/usr/bin/wimlib-imagex".into(),
        sfdisk: "/usr/sbin/sfdisk".into(),
        mkntfs: "/usr/sbin/mkntfs".into(),
        partprobe: "/usr/sbin/partprobe".into(),
        efibootmgr: "/usr/bin/efibootmgr".into(),
        lsblk: "/usr/bin/lsblk".into(),
        fuser: "/usr/bin/fuser".into(),
        bridge_image: vec![0xEB, 0x3C, 0x90],
    };
    assert_eq!(t.uefi_ntfs_img(), &[0xEB, 0x3C, 0x90]);
    t.bridge_image.clear();
    assert!(t.uefi_ntfs_img().is_empty());
}
