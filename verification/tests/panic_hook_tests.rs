use ratect_core::panic_hook::report_message;

#[test]
fn report_message_names_the_binary_version_and_issue_tracker() {
    let message = report_message("ratect-compat", "0.30.0", "linux", "x86_64", true);
    assert!(message.contains("ratect-compat"));
    assert!(message.contains("0.30.0"));
    assert!(message.contains("https://github.com/or1can/ratect/issues/new"));
    assert!(message.contains("not something you did wrong"));
}

#[test]
fn report_message_includes_the_current_platform() {
    let message = report_message("ratect", "0.9.0", "linux", "x86_64", true);
    assert!(message.contains("linux"));
    assert!(message.contains("x86_64"));
    assert!(message.contains("Platform: linux x86_64"));
}

#[test]
fn report_message_suggests_a_backtrace_when_not_already_enabled() {
    let message = report_message("ratect", "0.9.0", "linux", "x86_64", false);
    assert!(message.contains("RUST_BACKTRACE=1"));
}

#[test]
fn report_message_omits_the_backtrace_suggestion_when_already_enabled() {
    let message = report_message("ratect", "0.9.0", "linux", "x86_64", true);
    assert!(!message.contains("RUST_BACKTRACE=1"));
}

#[test]
fn report_message_reads_in_full() {
    assert_eq!(
        report_message("ratect", "1.2.3", "macos", "aarch64", true),
        "\nThis is a bug in ratect (1.2.3), not something you did wrong. Please report it: https://github.com/or1can/ratect/issues/new\nPlatform: macos aarch64"
    );
}
