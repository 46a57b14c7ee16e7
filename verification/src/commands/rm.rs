//! `rm [-r] [-f] file...`: remove files and (with -r) directories.
use vstd::prelude::*;
use crate::args::{first_bad_option, find_bad_option, has_option, invalid_option, invalid_option_msg,
    is_option, operand_args, operands, option_given};

verus! {

/// A checked `rm` command line.
pub struct RemoveRequest {
    /// `-r` or `-R` was given.
    pub recursive: bool,
    /// `-f` was given.
    pub force: bool,
    pub targets: Vec<String>,
}

/// The option letters `rm` knows.
pub open spec fn rm_letters() -> Seq<char> {
    seq!['r', 'R', 'f']
}

/// What `rm` makes of its arguments: the first unknown option letter is an
/// error; without operands it is an error unless `-f` is given.
pub open spec fn rm_accepts(args: Seq<String>, res: Result<RemoveRequest, String>) -> bool {
    match first_bad_option(args, rm_letters()) {
        Some(c) => res matches Err(m) && m@ == invalid_option_msg("rm"@, c),
        None => {
            let force = option_given(args, 'f');
            if operand_args(args).len() == 0 && !force {
                res matches Err(m) && m@ == "rm: missing operand"@
            } else {
                res matches Ok(r) && r.recursive == (option_given(args, 'r') || option_given(args, 'R'))
                    && r.force == force && r.targets@ == operand_args(args)
            }
        },
    }
}

/// Checks an `rm` command line.
pub fn run(args: &[String]) -> (res: Result<RemoveRequest, String>)
    ensures
        rm_accepts(args@, res),
{
    let mut letters: Vec<char> = Vec::new();
    letters.push('r');
    letters.push('R');
    letters.push('f');
    assert(letters@ =~= rm_letters());
    if let Some(c) = find_bad_option(args, &letters) {
        return Err(invalid_option("rm", c));
    }
    let recursive = has_option(args, 'r') || has_option(args, 'R');
    let force = has_option(args, 'f');
    let targets = operands(args);
    if targets.len() == 0 && !force {
        return Err(String::from_str("rm: missing operand"));
    }
    Ok(RemoveRequest { recursive, force, targets })
}

/// What to do with one target.
#[derive(Debug, PartialEq, Eq)]
pub enum Removal {
    /// It cannot be examined and `-f` was given: nothing to do.
    Ignore,
    /// It cannot be examined: report the error.
    Report,
    /// A directory without `-r`: refused with this message.
    Refuse(String),
    /// Remove the directory and all it holds.
    RemoveTree,
    /// Remove the file.
    RemoveFile,
}

/// The message for a directory given without `-r`.
pub open spec fn is_directory_msg(path: Seq<char>) -> Seq<char> {
    "rm: cannot remove '"@ + path + "': Is a directory"@
}

/// What `removal` decides, given what examining the target gave
/// (`None`: it could not be examined; else whether it is a directory).
pub open spec fn removal_matches(r: Removal, path: Seq<char>, is_dir: Option<bool>, recursive: bool, force: bool) -> bool {
    match is_dir {
        None => if force {
            r == Removal::Ignore
        } else {
            r == Removal::Report
        },
        Some(true) => if recursive {
            r == Removal::RemoveTree
        } else {
            r matches Removal::Refuse(m) && m@ == is_directory_msg(path)
        },
        Some(false) => r == Removal::RemoveFile,
    }
}

/// Decides what to do with one target of `rm`.
pub fn removal(path: &str, is_dir: Option<bool>, recursive: bool, force: bool) -> (res: Removal)
    ensures
        removal_matches(res, path@, is_dir, recursive, force),
{
    match is_dir {
        None => if force {
            Removal::Ignore
        } else {
            Removal::Report
        },
        Some(true) => if recursive {
            Removal::RemoveTree
        } else {
            let mut m = String::from_str("rm: cannot remove '");
            m.append(path);
            m.append("': Is a directory");
            Removal::Refuse(m)
        },
        Some(false) => Removal::RemoveFile,
    }
}

/// Law: what happens to one target: one that cannot be examined is
/// reported, or passed over silently with `-f`; a directory is removed with
/// all it holds only with `-r`, and otherwise left in place with an error
/// naming it, whatever `-f` says; anything else is removed as a file.
pub proof fn law_removal_decisions(r: Removal, path: Seq<char>, is_dir: Option<bool>, recursive: bool, force: bool)
    requires
        removal_matches(r, path, is_dir, recursive, force),
    ensures
        (r == Removal::RemoveTree) <==> (is_dir == Some(true) && recursive),
        (r == Removal::RemoveFile) <==> is_dir == Some(false),
        (r == Removal::Ignore) <==> (is_dir is None && force),
        (r == Removal::Report) <==> (is_dir is None && !force),
        r matches Removal::Refuse(m) ==> is_dir == Some(true) && !recursive && m@ == seq!['r', 'm', ':', ' '] + seq![
            'c',
            'a',
            'n',
            'n',
            'o',
            't',
            ' ',
            'r',
            'e',
            'm',
            'o',
            'v',
            'e',
            ' ',
            '\'',
        ] + path + seq!['\'', ':', ' ', 'I', 's', ' ', 'a', ' ', 'd', 'i', 'r', 'e', 'c', 't', 'o', 'r', 'y'],
{
    reveal_strlit("rm: cannot remove '");
    reveal_strlit("': Is a directory");
    if let Removal::Refuse(m) = r {
        assert(m@ =~= seq!['r', 'm', ':', ' '] + seq![
            'c',
            'a',
            'n',
            'n',
            'o',
            't',
            ' ',
            'r',
            'e',
            'm',
            'o',
            'v',
            'e',
            ' ',
            '\'',
        ] + path + seq!['\'', ':', ' ', 'I', 's', ' ', 'a', ' ', 'd', 'i', 'r', 'e', 'c', 't', 'o', 'r', 'y']);
    }
}

/// Law: `rm` knows the options `-r`, `-R` (both recursive) and `-f`, in any
/// grouping: with only these it never reports an unknown option, any other
/// letter is reported, and the request it returns reads them.
pub proof fn law_rm_options(args: Seq<String>, res: Result<RemoveRequest, String>)
    requires
        rm_accepts(args, res),
    ensures
        (forall|i: int, j: int|
            0 <= i < args.len() && is_option(args[i]@) && 1 <= j < args[i]@.len() ==> (#[trigger] args[i]@[j] == 'r'
                || args[i]@[j] == 'R' || args[i]@[j] == 'f')) ==> (res is Ok <==> (operand_args(args).len() > 0
            || option_given(args, 'f'))),
        res matches Ok(r) ==> r.recursive == (option_given(args, 'r') || option_given(args, 'R')) && r.force
            == option_given(args, 'f') && r.targets@ == operand_args(args),
        (exists|i: int, j: int|
            0 <= i < args.len() && is_option(args[i]@) && 1 <= j < args[i]@.len() && #[trigger] args[i]@[j] != 'r'
                && args[i]@[j] != 'R' && args[i]@[j] != 'f') ==> res is Err,
{
    crate::args::law_first_bad_option(args, rm_letters());
    assert(rm_letters().contains('r') && rm_letters().contains('R') && rm_letters().contains('f')) by {
        assert(rm_letters()[0] == 'r' && rm_letters()[1] == 'R' && rm_letters()[2] == 'f');
    }
    assert forall|c: char| rm_letters().contains(c) implies c == 'r' || c == 'R' || c == 'f' by {
        let k = choose|k: int| 0 <= k < rm_letters().len() && rm_letters()[k] == c;
    }
}

} // verus!
