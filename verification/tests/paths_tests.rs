use proxychains_changer::paths::{backup_file, BACKUP_FOLDER, CONFIG_FILE, CUSTOM_PROXY_FILE};

#[test]
fn the_fixed_paths() {
    assert_eq!(BACKUP_FOLDER, "/opt/proxychainsbackup/");
    assert_eq!(CONFIG_FILE, "/etc/proxychains.conf");
    assert_eq!(CUSTOM_PROXY_FILE, "/opt/proxychainsbackup/custom.lst");
}

#[test]
fn the_backup_lies_in_its_folder() {
    assert_eq!(backup_file(BACKUP_FOLDER), "/opt/proxychainsbackup//proxychains.conf");
    assert_eq!(backup_file("/tmp/b"), "/tmp/b/proxychains.conf");
    assert_eq!(backup_file(""), "/proxychains.conf");
}
