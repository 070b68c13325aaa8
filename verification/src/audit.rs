//! The audit pipeline: tamper-evident, pipe-delimited records handed to a
//! background writer over a channel.
//!
//! The library formats each record and enqueues it; the single consumer
//! that appends lines to the audit file lives outside the library.

use vstd::prelude::*;

use std::sync::mpsc::Sender;

verus! {

#[verifier::external_type_specification]
#[verifier::external_body]
#[verifier::reject_recursive_types(T)]
pub struct ExSender<T>(Sender<T>);

/// Relies on `std::sync::mpsc::Sender::send`: hands the line to the
/// channel without blocking; a disconnected receiver yields an error
/// value, never a panic.
#[verifier::external_body]
fn send_line(sender: &Sender<String>, line: String) -> (r: bool) {
    sender.send(line).is_ok()
}

/// A handle on the audit log: the file it goes to and the sending half
/// of the writer's channel.
pub struct Audit {
    pub file_name: String,
    pub send_channel: Sender<String>,
}

impl Audit {
    /// Ties an audit handle to the writer listening on `sender`.
    pub fn from_sender(file_name: String, sender: Sender<String>) -> (r: Audit)
        ensures
            r.file_name@ == file_name@,
    {
        Audit { file_name, send_channel: sender }
    }

    /// Enqueues one record for the background writer.  Best-effort: a
    /// missing writer loses the record, never the service.
    pub fn send_event(&self, txt: String) {
        let _ = send_line(&self.send_channel, txt);
    }
}

/// Relies on `chrono::Local::now` and its `%Y-%m-%d|%H:%M:%S` format:
/// the current wall-clock date and time with a pipe between them.
/// Nothing can be promised of the clock's value.
#[verifier::external_body]
pub fn local_timestamp() -> (r: String) {
    chrono::Local::now().format("%Y-%m-%d|%H:%M:%S").to_string()
}

/// One audit line: timestamp, email, object type, object name, operation
/// and the verdict, pipe-delimited.  The timestamp itself carries a pipe
/// between date and time.
pub open spec fn spec_audit_record(
    ts: Seq<char>,
    email: Seq<char>,
    obj_type: Seq<char>,
    obj_name: Seq<char>,
    operation: Seq<char>,
    allowed: bool,
) -> Seq<char> {
    ts + "|"@ + email + "|"@ + obj_type + "|"@ + obj_name + "|"@ + operation + "|"@ + (if allowed {
        "ALLOWED"@
    } else {
        "DENIED"@
    })
}

/// Formats one audit record.
pub fn audit_record(
    ts: &str,
    email: &str,
    obj_type: &str,
    obj_name: &str,
    operation: &str,
    allowed: bool,
) -> (r: String)
    ensures
        r@ == spec_audit_record(ts@, email@, obj_type@, obj_name@, operation@, allowed),
{
    let mut r = ts.to_owned();
    r.append("|");
    r.append(email);
    r.append("|");
    r.append(obj_type);
    r.append("|");
    r.append(obj_name);
    r.append("|");
    r.append(operation);
    r.append("|");
    r.append(if allowed { "ALLOWED" } else { "DENIED" });
    r
}

} // verus!
