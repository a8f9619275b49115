//! Locating and launching the external capture tool.
//!
//! The caller probes the file system and the system path; the order in which
//! the candidates win, the arguments and the error texts are decided here.

use crate::text::{chars_of, split_on, split_range, trim, trim_range};
use vstd::prelude::*;

verus! {

/// Where the capture binary was found.
pub enum BinaryLocation {
    /// The development-relative path.
    Development,
    /// The packaged resource directory.
    Bundled,
    /// A path that the system's path lookup printed.
    OnPath(String),
}

pub open spec fn not_found_message() -> Seq<char> {
    "PresentMon.exe not found. Download it from https://github.com/GameTechDev/PresentMon/releases and place it in src-tauri/bin/"@
}

pub open spec fn launch_failure_message(err: Seq<char>) -> Seq<char> {
    "failed to launch PresentMon: "@ + err + ". Make sure the app runs as administrator."@
}

/// The first line of a path lookup's output, trimmed.
pub open spec fn first_line(text: Seq<char>) -> Seq<char> {
    trim(split_on(text, '\n')[0])
}

/// The first line of `text`, trimmed.
pub fn first_line_of(text: &str) -> (r: String)
    ensures
        r@ == first_line(text@),
{
    let cs = chars_of(text);
    let bounds = split_range(&cs, 0, cs.len(), '\n');
    assert(cs@.subrange(0, cs@.len() as int) =~= cs@);
    proof {
        crate::text::lemma_split_nonempty(text@, '\n');
    }
    let (lo, hi) = trim_range(&cs, bounds[0].0, bounds[0].1);
    String::from_str(text.substring_char(lo, hi))
}

/// Picks the capture binary: the first candidate that exists wins. In
/// order: the development path; the bundled binary in the resource directory
/// (`bundled_exists` is false also where that directory does not resolve);
/// the first line of the path lookup's output, if the lookup succeeded
/// (`Some`) and that line is not blank. With none, the error says where to get
/// the binary.
pub fn resolve_capture_binary(
    dev_exists: bool,
    bundled_exists: bool,
    path_lookup: Option<String>,
) -> (r: Result<BinaryLocation, String>)
    ensures
        dev_exists ==> r matches Ok(BinaryLocation::Development),
        !dev_exists && bundled_exists ==> r matches Ok(BinaryLocation::Bundled),
        !dev_exists && !bundled_exists ==> match path_lookup {
            Some(out) if first_line(out@).len() > 0 => r matches Ok(BinaryLocation::OnPath(p))
                && p@ == first_line(out@),
            _ => r matches Err(msg) && msg@ == not_found_message(),
        },
{
    if dev_exists {
        return Ok(BinaryLocation::Development);
    }
    if bundled_exists {
        return Ok(BinaryLocation::Bundled);
    }
    if let Some(out) = path_lookup {
        let p = first_line_of(out.as_str());
        if p.unicode_len() > 0 {
            return Ok(BinaryLocation::OnPath(p));
        }
    }
    Err(String::from_str(
        "PresentMon.exe not found. Download it from https://github.com/GameTechDev/PresentMon/releases and place it in src-tauri/bin/",
    ))
}

/// The error reported when the capture binary cannot be launched.
pub fn launch_failure(err: &str) -> (r: String)
    ensures
        r@ == launch_failure_message(err@),
{
    String::from_str("failed to launch PresentMon: ").concat(err).concat(
        ". Make sure the app runs as administrator.",
    )
}

/// Arguments for the capture binary: stream plain text to standard output,
/// end any capture session the tool already holds, exit with the target
/// process, and watch only `process_name`.
pub fn capture_args(process_name: &String) -> (r: Vec<String>)
    ensures
        r@.len() == 5,
        r@[0]@ == "--output_stdout"@,
        r@[1]@ == "--stop_existing_session"@,
        r@[2]@ == "--terminate_on_proc_exit"@,
        r@[3]@ == "--process_name"@,
        r@[4]@ == process_name@,
{
    let mut args: Vec<String> = Vec::new();
    args.push(String::from_str("--output_stdout"));
    args.push(String::from_str("--stop_existing_session"));
    args.push(String::from_str("--terminate_on_proc_exit"));
    args.push(String::from_str("--process_name"));
    args.push(process_name.clone());
    args
}

} // verus!
