//! The command that unpacks an archive, chosen by the archive's type.

use vstd::prelude::*;
use vstd::string::StringExecFns;
use crate::applauncher::{render, rendered};
use crate::tree::RelPath;

verus! {

/// The program and arguments that unpack an archive of the given type into
/// `out`; none for a type that no tool is known for.
pub open spec fn command_for(kind: Seq<char>, archive: RelPath, out: RelPath) -> Option<
    Seq<Seq<char>>,
> {
    if kind == "application/zip"@ {
        Some(seq!["unzip"@, "-qq"@, "-o"@, rendered(archive), "-d"@, rendered(out)])
    } else if kind == "application/vnd.rar"@ {
        Some(seq!["unrar"@, "x"@, "-o+"@, rendered(archive), rendered(out)])
    } else if kind == "application/x-7z-compressed"@ {
        Some(seq!["7z"@, "x"@, "-aoa"@, "-o"@ + rendered(out), rendered(archive)])
    } else {
        None
    }
}

fn word(s: &str) -> (r: String)
    ensures
        r@ == s@,
{
    String::from_str(s)
}

/// Chooses the command that unpacks the archive at `archive_path`, whose
/// type is the MIME type `archive_type`, into `outpath`. The archive has to
/// exist, and its type has to be one of zip, rar and 7z.
pub fn extract(
    archive_exists: bool,
    archive_type: &str,
    archive_path: &Vec<String>,
    outpath: &Vec<String>,
) -> (r: Result<Vec<String>, &'static str>)
    ensures
        !archive_exists ==> r is Err && r->Err_0@ == "Archive does not exist!"@,
        archive_exists ==> match command_for(
            archive_type@,
            archive_path.deep_view(),
            outpath.deep_view(),
        ) {
            Some(command) => r is Ok && r->Ok_0.deep_view() == command,
            None => r is Err && r->Err_0@ == "Unsupported archive"@,
        },
{
    if !archive_exists {
        return Err("Archive does not exist!");
    }
    let kind = archive_type.to_owned();
    let mut command: Vec<String> = Vec::new();
    if kind == word("application/zip") {
        command.push(word("unzip"));
        command.push(word("-qq"));
        command.push(word("-o"));
        command.push(render(archive_path));
        command.push(word("-d"));
        command.push(render(outpath));
        assert(command.deep_view() =~= command_for(
            archive_type@,
            archive_path.deep_view(),
            outpath.deep_view(),
        )->0);
        Ok(command)
    } else if kind == word("application/vnd.rar") {
        command.push(word("unrar"));
        command.push(word("x"));
        command.push(word("-o+"));
        command.push(render(archive_path));
        command.push(render(outpath));
        assert(command.deep_view() =~= command_for(
            archive_type@,
            archive_path.deep_view(),
            outpath.deep_view(),
        )->0);
        Ok(command)
    } else if kind == word("application/x-7z-compressed") {
        command.push(word("7z"));
        command.push(word("x"));
        command.push(word("-aoa"));
        let mut target = word("-o");
        target.append(render(outpath).as_str());
        command.push(target);
        command.push(render(archive_path));
        assert(command.deep_view() =~= command_for(
            archive_type@,
            archive_path.deep_view(),
            outpath.deep_view(),
        )->0);
        Ok(command)
    } else {
        Err("Unsupported archive")
    }
}

/// Judges how the unpacking went by the exit code of the tool, where it gave
/// one: any code but zero is a failure.
pub fn extracted(exit_code: Option<i32>) -> (r: Result<(), &'static str>)
    ensures
        r is Err <==> exit_code is Some && exit_code->0 != 0,
        r is Err ==> r->Err_0@ == "Failed to extract"@,
{
    match exit_code {
        Some(code) => {
            if code != 0 {
                return Err("Failed to extract");
            }
            Ok(())
        },
        None => Ok(()),
    }
}

} // verus!
