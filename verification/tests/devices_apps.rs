use sharkmanager::apps::{app_key, merge_apps, offerable_apps, open_with_menu, own_app, CachedApp};
use sharkmanager::devices::devices_in;

fn pair(a: &str, b: &str) -> (String, String) {
    (a.to_string(), b.to_string())
}

fn app(key: &str, name: &str) -> CachedApp {
    CachedApp { key: key.to_string(), name: name.to_string() }
}

fn keys(v: &[CachedApp]) -> Vec<String> {
    v.iter().map(|a| a.key.clone()).collect()
}

const MOUNTS: &str = "sysfs /sys sysfs rw,nosuid 0 0
/dev/nvme0n1p2 / ext4 rw,relatime 0 0
/dev/nvme0n1p1 /boot vfat rw 0 0
/dev/sdb1 /run/media/me/USB\\040STICK vfat rw 0 0
/dev/sdc1 /mnt/backup ext4 rw 0 0
/dev/sdc1 /mnt/backup ext4 rw 0 0
/dev/sda3 /nix/store ext4 ro 0 0
/dev/loop0 /snap/core/1 squashfs ro 0 0
tmpfs /tmp tmpfs rw 0 0
/dev/sdd1\t/media/Alpha ext4 rw 0 0
/dev/sde1 /mnt/.. ext4 rw 0 0
/dev/sda3 /home ext4 rw 0 0
/dev/sdf1 /media2/x ext4 rw 0 0
";

#[test]
fn devices_from_mount_table() {
    let found = devices_in(MOUNTS);
    assert_eq!(
        found,
        vec![
            pair("Alpha", "/media/Alpha"),
            pair("USB\\040STICK", "/run/media/me/USB\\040STICK"),
            pair("backup", "/mnt/backup"),
            pair("sde1", "/mnt/.."),
        ]
    );
}

#[test]
fn devices_same_name_sorted_by_mount_point() {
    let table = "/dev/sdb1 /media/b/disk x\n/dev/sda1 /media/a/disk x\n/dev/sdc1 /media/a/disk/ x\n";
    // "/media/a/disk/" names the same place as "/media/a/disk" and directly follows it
    assert_eq!(
        devices_in(table),
        vec![pair("disk", "/media/a/disk"), pair("disk", "/media/b/disk")]
    );
    assert!(devices_in("").is_empty());
    assert!(devices_in("short\n\n   \n").is_empty());
}

#[test]
fn application_keys() {
    assert_eq!(app_key(Some("firefox.desktop".to_string()), Some("firefox".to_string())), "firefox.desktop");
    assert_eq!(app_key(None, Some("/usr/bin/viewer".to_string())), "/usr/bin/viewer");
    assert_eq!(app_key(None, None), "");
    assert!(own_app(&"sharkmanager.desktop".to_string()));
    assert!(own_app(&"io.sharkmanager.SharkManager.desktop".to_string()));
    assert!(!own_app(&"org.gnome.Nautilus.desktop".to_string()));
}

#[test]
fn own_entries_are_not_offered() {
    let all = vec![
        app("gimp.desktop", "GIMP"),
        app("sharkmanager.desktop", "SharkManager"),
        app("io.sharkmanager.SharkManager.desktop", "SharkManager"),
        app("vlc.desktop", "VLC"),
    ];
    assert_eq!(keys(&offerable_apps(&all)), vec!["gimp.desktop", "vlc.desktop"]);
}

#[test]
fn recommended_first_each_key_once() {
    let rec = vec![app("a", "A"), app("b", "B"), app("a", "A again")];
    let all = vec![app("b", "B"), app("c", "C"), app("a", "A"), app("d", "D")];
    let (apps, n) = merge_apps(&rec, &all).unwrap();
    assert_eq!(keys(&apps), vec!["a", "b", "c", "d"]);
    assert_eq!(n, 2);
    assert_eq!(apps[0].name, "A");
    assert!(merge_apps(&Vec::new(), &Vec::new()).is_none());
    let (only_all, n0) = merge_apps(&Vec::new(), &all).unwrap();
    assert_eq!(keys(&only_all), vec!["b", "c", "a", "d"]);
    assert_eq!(n0, 0);
}

#[test]
fn open_with_menu_marks_the_default() {
    let apps = vec![app("a", "Alpha"), app("b", "Beta"), app("c", "Gamma")];
    let menu = open_with_menu(&apps, 2, &Some("b".to_string()));
    assert_eq!(menu.recommended, vec![pair("Alpha", "a"), pair("\u{2713} Beta", "b")]);
    assert_eq!(menu.other, vec![pair("Gamma", "c")]);
    let plain = open_with_menu(&apps, 0, &None);
    assert!(plain.recommended.is_empty());
    assert_eq!(plain.other.len(), 3);
    assert_eq!(plain.other[1], pair("Beta", "b"));
}

#[test]
fn a_mount_point_is_listed_once_even_under_other_labels() {
    let table = "/dev/aaa /mnt/.. x\n/dev/mmm /media/mid x\n/dev/zzz /mnt/../ x\n";
    assert_eq!(devices_in(table), vec![pair("aaa", "/mnt/.."), pair("mid", "/media/mid")]);
}
