//! What a panic tells the user: that this is a bug, not their mistake, and
//! the two things a good bug report needs that Rust's own default hook does
//! not give: where to file it, and what platform it happened on. The
//! backtrace hint only appears when `RUST_BACKTRACE` is not already enabled.

use vstd::prelude::*;

verus! {

/// The report a panic in `binary_name` at `version` prints on platform
/// `os`/`arch`, with the backtrace hint unless one is already enabled.
pub open spec fn report_text(
    binary_name: Seq<char>,
    version: Seq<char>,
    os: Seq<char>,
    arch: Seq<char>,
    backtrace_enabled: bool,
) -> Seq<char> {
    "\nThis is a bug in "@ + binary_name + " ("@ + version
        + "), not something you did wrong. Please report it: https://github.com/or1can/ratect/issues/new\nPlatform: "@
        + os + " "@ + arch + if backtrace_enabled {
        ""@
    } else {
        "\nRe-run with RUST_BACKTRACE=1 set to include a full backtrace in your report."@
    }
}

/// The report printed after the default hook's own output, for
/// `binary_name` at `version` on platform `os`/`arch`.
pub fn report_message(binary_name: &str, version: &str, os: &str, arch: &str, backtrace_enabled: bool) -> (message:
    String)
    ensures
        message@ == report_text(binary_name@, version@, os@, arch@, backtrace_enabled),
{
    let mut message = String::new();
    message.append("\nThis is a bug in ");
    message.append(binary_name);
    message.append(" (");
    message.append(version);
    message.append(
        "), not something you did wrong. Please report it: https://github.com/or1can/ratect/issues/new\nPlatform: ",
    );
    message.append(os);
    message.append(" ");
    message.append(arch);
    if !backtrace_enabled {
        message.append("\nRe-run with RUST_BACKTRACE=1 set to include a full backtrace in your report.");
    } else {
        message.append("");
    }
    message
}

} // verus!
