//! Failure messages for the filesystem commands. Every failure is reported as
//! a single human-readable string: a fixed prefix naming the command, then the
//! operating-system error text handed in by the caller.

use vstd::prelude::*;
use vstd::string::StringExecFns;

verus! {

/// A failure message: the given prefix followed by the error detail.
pub open spec fn failure_message(prefix: Seq<char>, detail: Seq<char>) -> Seq<char> {
    prefix + detail
}

fn prefixed(prefix: &str, detail: &str) -> (res: String)
    ensures
        res@ == failure_message(prefix@, detail@),
{
    let mut out = String::from_str(prefix);
    out.append(detail);
    out
}

/// The message reported when reading a text file fails.
pub fn read_failure(detail: &str) -> (res: String)
    ensures
        res@ == failure_message("read_text_file failed: "@, detail@),
{
    prefixed("read_text_file failed: ", detail)
}

/// The message reported when writing a text file fails.
pub fn write_failure(detail: &str) -> (res: String)
    ensures
        res@ == failure_message("write_text_file failed: "@, detail@),
{
    prefixed("write_text_file failed: ", detail)
}

/// The message reported when a directory cannot be opened for listing.
pub fn list_dir_read_failure(detail: &str) -> (res: String)
    ensures
        res@ == failure_message("list_dir read_dir failed: "@, detail@),
{
    prefixed("list_dir read_dir failed: ", detail)
}

/// The message reported when one directory entry cannot be read.
pub fn list_dir_entry_failure(detail: &str) -> (res: String)
    ensures
        res@ == failure_message("list_dir entry failed: "@, detail@),
{
    prefixed("list_dir entry failed: ", detail)
}

} // verus!
