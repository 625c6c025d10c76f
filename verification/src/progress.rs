//! Progress-bar configuration: which template and fill characters each
//! kind of progress display uses, and its initial message. Rendering the
//! bar is the caller's concern.

use vstd::prelude::*;

verus! {

/// The kind of progress being shown.
#[derive(Clone, Copy, PartialEq, Eq, Structural, Debug)]
pub enum ProgressType {
    Download,
    Upload,
    List,
}

/// The fill characters of a progress bar.
pub fn progress_chars(progress_type: &ProgressType) -> (r: &'static str)
    ensures
        r@ == "=>-"@,
{
    match progress_type {
        ProgressType::Download => "=>-",
        ProgressType::Upload => "=>-",
        ProgressType::List => "=>-",
    }
}

/// The template of a progress bar: byte counts, rate and ETA for a
/// transfer; a spinner with item counts for a listing.
pub fn progress_template(progress_type: &ProgressType) -> (r: &'static str)
    ensures
        match progress_type {
            ProgressType::Download | ProgressType::Upload => r@
                == "[{bar:30.green/red}] {bytes}/{total_bytes} ({eta}) [{bytes_per_sec}] {prefix}"@,
            ProgressType::List => r@
                == "{spinner:.red} [{bar:30.green/red}] {pos}/{len} ({eta}) {msg}"@,
        },
{
    match progress_type {
        ProgressType::Download => {
            "[{bar:30.green/red}] {bytes}/{total_bytes} ({eta}) [{bytes_per_sec}] {prefix}"
        },
        ProgressType::Upload => {
            "[{bar:30.green/red}] {bytes}/{total_bytes} ({eta}) [{bytes_per_sec}] {prefix}"
        },
        ProgressType::List => "{spinner:.red} [{bar:30.green/red}] {pos}/{len} ({eta}) {msg}",
    }
}

/// The initial message of a progress bar: only a listing announces what
/// it is doing.
pub fn progress_message(progress_type: &ProgressType) -> (r: Option<&'static str>)
    ensures
        match progress_type {
            ProgressType::List => r matches Option::Some(m) && m@ == "Getting file sizes..."@,
            ProgressType::Download | ProgressType::Upload => r is None,
        },
{
    match progress_type {
        ProgressType::Download => Option::None,
        ProgressType::Upload => Option::None,
        ProgressType::List => Option::Some("Getting file sizes..."),
    }
}

} // verus!
