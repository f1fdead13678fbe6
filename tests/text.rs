use oukaro::{
    is_mounted, is_mounted_in, overlay_options, package_dir, package_path_from_capture,
    parse_package_path, target_path, Role,
};

#[test]
fn package_path_from_pm_output() {
    assert_eq!(
        parse_package_path("package:/data/app/~~k1/com.a-1/base.apk\n"),
        Some("/data/app/~~k1/com.a-1/".to_string())
    );
}

#[test]
fn package_path_only_from_first_line() {
    assert_eq!(
        parse_package_path("package:/data/app/x/base.apk\npackage:/data/app/x/split.apk\n"),
        Some("/data/app/x/".to_string())
    );
}

#[test]
fn package_path_trailing_space_and_cr() {
    assert_eq!(
        parse_package_path("package:/data/app/y/base.apk \r\n"),
        Some("/data/app/y/".to_string())
    );
}

#[test]
fn package_not_installed() {
    assert_eq!(parse_package_path(""), None);
    assert_eq!(parse_package_path("Error: package com.q not found\n"), None);
    assert_eq!(parse_package_path(" package:/data/app/z/base.apk"), None);
    assert_eq!(parse_package_path("package:base.apkbase.apk"), None);
}

#[test]
fn capture_is_trimmed() {
    assert_eq!(package_dir("/d/base.apkbase.apk\t "), "/d/");
    assert_eq!(package_dir("/d/other.apk"), "/d/other.apk");
    assert_eq!(package_path_from_capture(None), None);
    assert_eq!(package_path_from_capture(Some("  ".to_string())), None);
    assert_eq!(package_path_from_capture(Some("/e/base.apk".to_string())), Some("/e/".to_string()));
}

#[test]
fn targets_and_options() {
    assert_eq!(target_path(Role::SystemApp, "com.a"), "/system/app/com.a");
    assert_eq!(target_path(Role::PrivilegedApp, "com.b"), "/system/priv-app/com.b");
    assert_eq!(overlay_options("/l", "/u", "/w"), "lowerdir=/l,upperdir=/u,workdir=/w");
}

const TABLE: &str = "/dev/block/dm-0 / ext4 ro,seclabel 0 0\n\
overlay /system/app/com.a overlay rw,lowerdir=/x 0 0\n\
/system/priv-app/com.c /data tmpfs rw 0 0\n";

#[test]
fn mount_table_lookup() {
    assert!(is_mounted_in(TABLE, "/system/app/com.a"));
    assert!(is_mounted_in(TABLE, "/"));
    assert!(!is_mounted_in(TABLE, "/system/app/com"));
    assert!(!is_mounted_in(TABLE, "/system/priv-app/com.c"));
    assert!(!is_mounted_in("", "/"));
    assert!(is_mounted(TABLE, Role::SystemApp, "com.a"));
    assert!(!is_mounted(TABLE, Role::PrivilegedApp, "com.a"));
}
