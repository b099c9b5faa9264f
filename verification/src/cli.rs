//! The decisions the command-line front end makes before and after exporting call logs.

use vstd::prelude::*;

use crate::text::{decimal, decimal_string, same_text};

verus! {

/// The file format that call logs are exported in.
#[derive(Clone, Copy, Debug, PartialEq, Eq, Structural)]
pub enum CallLogFormat {
    Csv,
    Html,
    Pdf,
}

/// Why the call-log options cannot be used.
#[derive(Clone, Copy, Debug, PartialEq, Eq, Structural)]
pub enum CallLogOptionError {
    /// A call-log format was given without asking for the call logs.
    FormatWithoutCallLogs,
}

/// The call-log format that the options select: a format given without asking for the
/// call logs is refused; otherwise `html` and `pdf` select those formats, and any other
/// value, or none, selects CSV.
pub open spec fn selected_format(value: Option<Seq<char>>, call_logs: bool) -> Result<
    CallLogFormat,
    CallLogOptionError,
> {
    match value {
        Some(v) => if !call_logs {
            Err(CallLogOptionError::FormatWithoutCallLogs)
        } else if v == "html"@ {
            Ok(CallLogFormat::Html)
        } else if v == "pdf"@ {
            Ok(CallLogFormat::Pdf)
        } else {
            Ok(CallLogFormat::Csv)
        },
        None => Ok(CallLogFormat::Csv),
    }
}

/// The character view of an optional string slice.
pub open spec fn opt_str_view(o: Option<&str>) -> Option<Seq<char>> {
    match o {
        Some(s) => Some(s@),
        None => None,
    }
}

/// Picks the call-log format from the value of the format option, if given, and whether
/// the call logs were asked for.
pub fn call_log_format(value: Option<&str>, call_logs: bool) -> (r: Result<
    CallLogFormat,
    CallLogOptionError,
>)
    ensures
        r == selected_format(opt_str_view(value), call_logs),
{
    match value {
        Some(_) if !call_logs => Err(CallLogOptionError::FormatWithoutCallLogs),
        Some(v) => {
            if same_text(v, "html") {
                Ok(CallLogFormat::Html)
            } else if same_text(v, "pdf") {
                Ok(CallLogFormat::Pdf)
            } else {
                Ok(CallLogFormat::Csv)
            }
        },
        None => Ok(CallLogFormat::Csv),
    }
}

/// The report of a finished call-log export:
/// `Exported <count> call log[s] from <source> to <path>`, plural unless exactly one.
pub open spec fn export_report(count: nat, source: Seq<char>, path: Seq<char>) -> Seq<char> {
    "Exported "@ + decimal(count) + " call log"@ + (if count == 1 {
        ""@
    } else {
        "s"@
    }) + " from "@ + source + " to "@ + path
}

/// Words the report of a finished call-log export.
pub fn call_log_export_report(count: usize, source: &str, path: &str) -> (r: String)
    ensures
        r@ == export_report(count as nat, source@, path@),
{
    let mut r = String::from_str("Exported ");
    r.append(decimal_string(count as u64).as_str());
    r.append(" call log");
    if count == 1 {
        r.append("");
    } else {
        r.append("s");
    }
    r.append(" from ");
    r.append(source);
    r.append(" to ");
    r.append(path);
    r
}

/// A format given without asking for the call logs is refused, whatever the value; the
/// options are refused in no other case; with the call logs asked for, `html` and `pdf`
/// select those formats and every other value selects CSV; with no format given, CSV is
/// selected whether or not the call logs were asked for.
pub proof fn lemma_call_log_format_choice(value: Seq<char>, call_logs: bool)
    ensures
        selected_format(Some(value), false) == Err::<CallLogFormat, CallLogOptionError>(
            CallLogOptionError::FormatWithoutCallLogs,
        ),
        selected_format(None, call_logs) == Ok::<CallLogFormat, CallLogOptionError>(
            CallLogFormat::Csv,
        ),
        selected_format(Some(value), true) is Ok,
        value == "html"@ ==> selected_format(Some(value), true) == Ok::<
            CallLogFormat,
            CallLogOptionError,
        >(CallLogFormat::Html),
        value == "pdf"@ ==> selected_format(Some(value), true) == Ok::<
            CallLogFormat,
            CallLogOptionError,
        >(CallLogFormat::Pdf),
        value != "html"@ && value != "pdf"@ ==> selected_format(Some(value), true) == Ok::<
            CallLogFormat,
            CallLogOptionError,
        >(CallLogFormat::Csv),
{
    reveal_strlit("html");
    reveal_strlit("pdf");
    assert("html"@.len() != "pdf"@.len());
}

/// The report counts in the singular ("call log") for exactly one exported entry and in
/// the plural ("call logs") for every other count, zero included.
pub proof fn lemma_export_report_wording(count: nat, source: Seq<char>, path: Seq<char>)
    ensures
        count == 1 ==> export_report(count, source, path) == "Exported "@ + decimal(count)
            + " call log from "@ + source + " to "@ + path,
        count != 1 ==> export_report(count, source, path) == "Exported "@ + decimal(count)
            + " call logs from "@ + source + " to "@ + path,
{
    reveal_strlit("");
    reveal_strlit("s");
    reveal_strlit(" call log");
    reveal_strlit(" from ");
    reveal_strlit(" call log from ");
    reveal_strlit(" call logs from ");
    let head = "Exported "@ + decimal(count);
    let tail = " to "@ + path;
    if count == 1 {
        assert(" call log"@ + ""@ + " from "@ =~= " call log from "@);
        assert(export_report(count, source, path) =~= head + (" call log"@ + ""@ + " from "@)
            + source + tail);
        assert(head + " call log from "@ + source + " to "@ + path =~= head + " call log from "@
            + source + tail);
    } else {
        assert(" call log"@ + "s"@ + " from "@ =~= " call logs from "@);
        assert(export_report(count, source, path) =~= head + (" call log"@ + "s"@ + " from "@)
            + source + tail);
        assert(head + " call logs from "@ + source + " to "@ + path =~= head
            + " call logs from "@ + source + tail);
    }
}

} // verus!
