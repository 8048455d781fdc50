//! The decisions behind each command, free of the I/O around them: which
//! exit code a bad archive path earns, what an upload's outcome does to the
//! stored records, what the configuration display shows, and the rotation
//! step of the progress indicator.

use vstd::prelude::*;

use crate::config::{spec_remember, try_remember_packet, Configuration};
use crate::packet::{has_archive_ext, is_archive_name, spec_packet_of_path};

verus! {

/// How an upload ended: the registry accepted it (a 2xx status), the
/// registry answered with a failure status, or the transport failed before
/// any answer came.
#[derive(Debug, Clone, Copy, PartialEq, Eq, Structural)]
pub enum UploadOutcome {
    Accepted,
    Refused,
    TransportFailed,
}

/// The exit code a single-upload path argument earns before any upload:
/// 1 when the file is missing, 2 when it is not a regular file, 3 when it
/// lacks the archive extension, and 0 when it passes. Whether the path
/// exists and names a regular file is the caller's finding; the extension
/// is judged here.
pub fn validate_archive_path(present: bool, regular: bool, path: &str) -> (code: i32)
    ensures
        code == if !present {
            1int
        } else if !regular {
            2int
        } else if !has_archive_ext(path@) {
            3int
        } else {
            0int
        },
{
    if !present {
        1
    } else if !regular {
        2
    } else if !is_archive_name(path) {
        3
    } else {
        0
    }
}

/// Fold an upload's outcome into the configuration: the upload succeeded
/// (`true`) exactly when the registry accepted it; a failure status and a
/// transport failure both report `false`, and neither is fatal. The
/// archive's version is remembered only on acceptance, and only when the
/// caller did not ask to overlook the record — and then exactly as
/// `spec_remember` says. On any other outcome the configuration is
/// untouched.
pub fn settle_upload(
    path: &str,
    overlook: bool,
    outcome: UploadOutcome,
    config: &mut Configuration,
) -> (sent: bool)
    requires
        outcome is Accepted && !overlook ==> spec_packet_of_path(path@) is Some,
    ensures
        sent == (outcome is Accepted),
        outcome is Accepted && !overlook ==> final(config)@.key == old(config)@.key,
        outcome is Accepted && !overlook ==> final(config)@.packets == spec_remember(
            old(config)@.packets,
            spec_packet_of_path(path@)->0,
        ),
        !(outcome is Accepted && !overlook) ==> *final(config) == *old(config),
{
    match outcome {
        UploadOutcome::Accepted => {
            if !overlook {
                try_remember_packet(path, config);
            }
            true
        },
        UploadOutcome::Refused => false,
        UploadOutcome::TransportFailed => false,
    }
}

/// What showing the configuration prints: the file's contents as they
/// were read, or a fixed line when no file exists yet.
pub fn show_config_text(contents: Option<String>) -> (r: String)
    ensures
        match contents {
            Some(s) => r@ == s@,
            None => r@ == "Not configured yet"@,
        },
{
    match contents {
        Some(s) => s,
        None => String::from_str("Not configured yet"),
    }
}

/// One step of the progress indicator: the last character moves to the
/// front, the rest shift right.
pub fn conv(ind: &mut String)
    requires
        old(ind)@.len() > 0,
    ensures
        final(ind)@ == seq![old(ind)@.last()] + old(ind)@.drop_last(),
{
    let n = ind.as_str().unicode_len();
    let tail = ind.as_str().substring_char(n - 1, n);
    let mut r = String::from_str(tail);
    r.append(ind.as_str().substring_char(0, n - 1));
    proof {
        assert(r@ =~= seq![ind@.last()] + ind@.drop_last());
    }
    *ind = r;
}

} // verus!
