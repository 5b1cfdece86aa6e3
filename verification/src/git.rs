//! What a run of git amounts to.

use crate::text::{cat, cat4, join, joined, lossy_text, to_text, trim, trimmed};
use vstd::prelude::*;

verus! {

/// How the failure of a run is reported: the arguments, and what git printed as an error.
pub open spec fn failure_text(args: Seq<Seq<char>>, stderr: Seq<u8>) -> Seq<char> {
    "git "@ + joined(args, " "@) + " failed: "@ + trimmed(lossy_text(stderr))
}

/// The outcome of a run of git: what it printed, trimmed, or how it failed.
pub fn git_reply(args: &Vec<String>, success: bool, stdout: &[u8], stderr: &[u8]) -> (r: Result<
    String,
    String,
>)
    ensures
        match r {
            Ok(s) => success && s@ == trimmed(lossy_text(stdout@)),
            Err(e) => !success && e@ == failure_text(args.deep_view(), stderr@),
        },
{
    if success {
        let out = to_text(stdout);
        Ok(trim(out.as_str()))
    } else {
        let line = join(args, " ");
        let err = to_text(stderr);
        let err = trim(err.as_str());
        Err(cat4("git ", line.as_str(), " failed: ", err.as_str()))
    }
}

/// The outcome of a run of git that lists names: all that it printed, as the names may begin
/// or end with white space, or how it failed.
pub fn git_listing(args: &Vec<String>, success: bool, stdout: &[u8], stderr: &[u8]) -> (r: Result<
    String,
    String,
>)
    ensures
        match r {
            Ok(s) => success && s@ == lossy_text(stdout@),
            Err(e) => !success && e@ == failure_text(args.deep_view(), stderr@),
        },
{
    if success {
        Ok(to_text(stdout))
    } else {
        git_reply(args, success, stdout, stderr)
    }
}

/// How a run is reported that could not be started.
pub fn git_unstarted(args: &Vec<String>) -> (r: String)
    ensures
        r@ == "running git "@ + joined(args.deep_view(), " "@),
{
    let line = join(args, " ");
    cat("running git ", line.as_str())
}

} // verus!
