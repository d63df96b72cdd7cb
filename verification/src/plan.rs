use vstd::prelude::*;
use crate::backend::{Backend, Extractor};
use crate::paths::{join, join_path, temp_dir_name};
use crate::text::decimal;

verus! {

broadcast use vstd::string::group_string_axioms;

/// How an archive is extracted into its destination.
pub struct ExtractPlan {
    /// Ask before extracting into a destination that already holds files.
    pub confirm_overwrite: bool,
    /// The program to run.
    pub program: String,
    /// Its arguments.
    pub args: Vec<String>,
    /// The scratch directory that the program extracts into when the root
    /// is dropped by moving: the contents of its single top directory (or
    /// its own contents, when its top is not one directory) are then moved
    /// into the destination, and it is removed.
    pub scratch: Option<String>,
}

/// The scratch directory for the destination `dest`, as
/// `Path::with_file_name` places it: in `dest_parent`, the parent of `dest`
/// when `dest` ends in a name, else inside `dest`; its name is
/// ".unpack-tmp-", the destination's name, "-" and the process id.
pub open spec fn scratch_dir(
    dest: Seq<char>,
    dest_parent: Option<Seq<char>>,
    dest_name: Seq<char>,
    pid: nat,
) -> Seq<char> {
    let name = ".unpack-tmp-"@ + dest_name + "-"@ + decimal(pid);
    match dest_parent {
        Some(p) => join(p, name),
        None => join(dest, name),
    }
}

/// The plan for extracting `archive` with `backend` into `dest`. The user
/// is asked before a destination that holds files is used, unless it is
/// the current directory (`here`). When the common root is dropped and the
/// tool cannot drop it itself (zip, 7z, rar), the tool extracts into the
/// scratch directory beside `dest`; otherwise it extracts into `dest`
/// directly (tar drops the root itself).
pub fn extraction_plan(
    backend: &Backend,
    archive: &str,
    dest: &str,
    dest_parent: &Option<String>,
    dest_name: &str,
    strip_root: bool,
    here: bool,
    pid: u32,
) -> (r: ExtractPlan)
    ensures
        r.confirm_overwrite == !here,
        r.program@ == backend.tool_name(),
        r.scratch is Some <==> strip_root && !backend.drops_root_itself(),
        r.scratch matches Some(s) ==> {
            &&& s@ == scratch_dir(
                dest@,
                crate::text::opt_view(*dest_parent),
                dest_name@,
                pid as nat,
            )
            &&& r.args.deep_view() == backend.extract_arguments(archive@, s@, true)
        },
        r.scratch is None ==> r.args.deep_view() == backend.extract_arguments(
            archive@,
            dest@,
            strip_root,
        ),
{
    let program = backend.program();
    if strip_root && !backend.strips_in_place() {
        let name = temp_dir_name(dest_name, pid);
        let tmp = match dest_parent {
            Some(p) => join_path(p.as_str(), name.as_str()),
            None => join_path(dest, name.as_str()),
        };
        let args = backend.extract(archive, tmp.as_str(), true);
        ExtractPlan { confirm_overwrite: !here, program, args, scratch: Some(tmp) }
    } else {
        let args = backend.extract(archive, dest, strip_root);
        ExtractPlan { confirm_overwrite: !here, program, args, scratch: None }
    }
}

} // verus!
