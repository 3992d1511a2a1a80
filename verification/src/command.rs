//! What a finished `bluetoothctl` (or `rfkill`) run amounts to, and the
//! shell line that feeds a command to `bluetoothctl` on its standard input.
use vstd::prelude::*;
use vstd::utf8::{decode_utf8, valid_utf8};
use crate::text::{
    append_str, concat2, is_whitespace, law_trim_idempotent, starts_with, trim, trim_str,
};

verus! {

/// The text that `String::from_utf8_lossy` makes of `bytes`.
pub uninterp spec fn utf8_lossy(bytes: Seq<u8>) -> Seq<char>;

/// `String::from_utf8_lossy`: decodes `bytes` as UTF-8, putting U+FFFD in
/// place of each ill-formed sequence. Stated: the result is a function of the
/// bytes alone, and well-formed UTF-8 decodes to exactly its characters.
/// Left unsaid: which characters stand in place of ill-formed input.
#[verifier::external_body]
fn decode_lossy(bytes: &[u8]) -> (s: String)
    ensures
        s@ == utf8_lossy(bytes@),
        valid_utf8(bytes@) ==> s@ == decode_utf8(bytes@),
{
    String::from_utf8_lossy(bytes).into_owned()
}

/// The views of a result that carries strings either way.
pub open spec fn result_view(r: Result<String, String>) -> Result<Seq<char>, Seq<char>> {
    match r {
        Ok(o) => Ok(o@),
        Err(e) => Err(e@),
    }
}

/// A run that succeeded gives its trimmed standard output; one that failed
/// gives an error that quotes its trimmed standard error and its status.
pub open spec fn run_outcome(
    success: bool,
    stdout: Seq<u8>,
    stderr: Seq<u8>,
    status: Seq<char>,
) -> Result<Seq<char>, Seq<char>> {
    if success {
        Ok(trim(utf8_lossy(stdout)))
    } else {
        Err("Command failed: "@ + trim(utf8_lossy(stderr)) + " (error: "@ + status + ")"@)
    }
}

/// What a finished run amounts to, from whether its exit status was success,
/// its standard output and error, and its exit status as text.
pub fn command_outcome(success: bool, stdout: &[u8], stderr: &[u8], status: &str) -> (r: Result<
    String,
    String,
>)
    ensures
        result_view(r) == run_outcome(success, stdout@, stderr@, status@),
        success ==> r is Ok && r->Ok_0@ == trim(utf8_lossy(stdout@)),
        !success ==> r is Err && r->Err_0@ == "Command failed: "@ + trim(utf8_lossy(stderr@))
            + " (error: "@ + status@ + ")"@,
{
    if success {
        let out = decode_lossy(stdout);
        Ok(trim_str(out.as_str()))
    } else {
        let err = decode_lossy(stderr);
        let mut msg = concat2("Command failed: ", trim_str(err.as_str()).as_str());
        append_str(&mut msg, " (error: ");
        append_str(&mut msg, status);
        append_str(&mut msg, ")");
        Err(msg)
    }
}

/// The error for a run that could not be started at all.
pub fn launch_failure(error: &str) -> (r: String)
    ensures
        r@ == "Failed to execute bluetoothctl: "@ + error@,
{
    concat2("Failed to execute bluetoothctl: ", error)
}

/// The shell line that pipes `command` into `bluetoothctl`.
pub fn piped_command_line(command: &str) -> (r: String)
    ensures
        r@ == "echo '"@ + command@ + "' | bluetoothctl"@,
{
    let mut r = concat2("echo '", command);
    append_str(&mut r, "' | bluetoothctl");
    r
}

/// The line reporting an `rfkill` run that blocked (`block`) or unblocked
/// the adapter, from whether it succeeded and its standard error.
pub fn rfkill_report(block: bool, success: bool, stderr: &[u8]) -> (r: String)
    ensures
        r@ == (if success {
            if block {
                "Bluetooth adapter blocked at hardware level."@
            } else {
                "Bluetooth adapter unblocked at hardware level."@
            }
        } else {
            (if block {
                "Failed to block Bluetooth: "@
            } else {
                "Failed to unblock Bluetooth: "@
            }) + utf8_lossy(stderr@)
        }),
{
    if success {
        if block {
            "Bluetooth adapter blocked at hardware level.".to_owned()
        } else {
            "Bluetooth adapter unblocked at hardware level.".to_owned()
        }
    } else {
        let err = decode_lossy(stderr);
        if block {
            concat2("Failed to block Bluetooth: ", err.as_str())
        } else {
            concat2("Failed to unblock Bluetooth: ", err.as_str())
        }
    }
}


/// The output of a successful run is already trimmed: trimming it again
/// changes nothing, and it neither begins nor ends with whitespace.
pub proof fn law_outcome_output_is_trimmed(
    success: bool,
    stdout: Seq<u8>,
    stderr: Seq<u8>,
    status: Seq<char>,
)
    ensures
        run_outcome(success, stdout, stderr, status) matches Ok(o) ==> trim(o) == o && (o.len()
            == 0 || (!is_whitespace(o[0]) && !is_whitespace(o.last()))),
{
    law_trim_idempotent(utf8_lossy(stdout));
}


/// A run is an error exactly when its exit status is not success, whatever
/// its output holds; a successful run gives its decoded standard output
/// trimmed, untouched by standard error and status; a failed run's error
/// does not depend on what it printed to standard output, begins with
/// `Command failed: ` and ends with its status and `)`.
pub proof fn law_failed_run_is_error(
    success: bool,
    stdout: Seq<u8>,
    other_stdout: Seq<u8>,
    stderr: Seq<u8>,
    other_stderr: Seq<u8>,
    status: Seq<char>,
    other_status: Seq<char>,
)
    ensures
        run_outcome(success, stdout, stderr, status) is Err <==> !success,
        success ==> run_outcome(success, stdout, stderr, status) == Ok::<Seq<char>, Seq<char>>(
            trim(utf8_lossy(stdout)),
        ),
        success ==> run_outcome(success, stdout, stderr, status) == run_outcome(
            success,
            stdout,
            other_stderr,
            other_status,
        ),
        !success ==> run_outcome(success, stdout, stderr, status) == run_outcome(
            success,
            other_stdout,
            stderr,
            status,
        ),
        run_outcome(success, stdout, stderr, status) matches Err(e) ==> starts_with(
            e,
            "Command failed: "@,
        ) && e.len() >= status.len() + 1 && e.subrange(e.len() - status.len() - 1, e.len() as int)
            == status + ")"@,
{
    if !success {
        let e = "Command failed: "@ + trim(utf8_lossy(stderr)) + " (error: "@ + status + ")"@;
        reveal_strlit(")");
        assert(e.take("Command failed: "@.len() as int) =~= "Command failed: "@);
        assert(e.subrange(e.len() - status.len() - 1, e.len() as int) =~= status + ")"@);
    }
}

} // verus!
