use quickcommand::safety::is_destructive;

#[test]
fn detects_destructive_commands() {
    assert!(is_destructive("rm -rf /tmp/test"));
    assert!(is_destructive("kill 1234"));
    assert!(is_destructive("dd if=/dev/zero of=/tmp/out"));
    assert!(!is_destructive("ls -la"));
}

#[test]
fn destructive_detection_ignores_ascii_case() {
    assert!(is_destructive("SHUTDOWN -h now"));
    assert!(is_destructive("echo hi > /dev/sda"));
    assert!(is_destructive("Mkfs.ext4 /dev/sdb1"));
    assert!(!is_destructive("echo killer"));
    assert!(!is_destructive(""));
}
