//! `cp [-r] src... dest`: copy files, and (with -r) directories.
use vstd::prelude::*;
use crate::args::{first_bad_option, find_bad_option, has_option, invalid_option, invalid_option_msg,
    is_option, operand_args, operands, option_given};

verus! {

/// A checked `cp` command line.
pub struct CopyRequest {
    /// `-r` or `-R` was given.
    pub recursive: bool,
    pub sources: Vec<String>,
    pub dest: String,
}

/// The option letters `cp` knows.
pub open spec fn cp_letters() -> Seq<char> {
    seq!['r', 'R']
}

/// What `cp` makes of its arguments: the first unknown option letter is an
/// error; then at least two operands are needed, the last being the
/// destination.
pub open spec fn cp_accepts(args: Seq<String>, res: Result<CopyRequest, String>) -> bool {
    match first_bad_option(args, cp_letters()) {
        Some(c) => res matches Err(m) && m@ == invalid_option_msg("cp"@, c),
        None => {
            let ops = operand_args(args);
            if ops.len() < 2 {
                res matches Err(m) && m@ == "cp: missing file operand"@
            } else {
                res matches Ok(r) && r.recursive == (option_given(args, 'r') || option_given(args, 'R'))
                    && r.sources@ == ops.drop_last() && r.dest == ops.last()
            }
        },
    }
}

/// Checks a `cp` command line and splits it into sources and destination.
pub fn run(args: &[String]) -> (res: Result<CopyRequest, String>)
    ensures
        cp_accepts(args@, res),
{
    let mut letters: Vec<char> = Vec::new();
    letters.push('r');
    letters.push('R');
    assert(letters@ =~= cp_letters());
    if let Some(c) = find_bad_option(args, &letters) {
        return Err(invalid_option("cp", c));
    }
    let recursive = has_option(args, 'r') || has_option(args, 'R');
    let mut ops = operands(args);
    if ops.len() < 2 {
        return Err(String::from_str("cp: missing file operand"));
    }
    let dest = ops.pop().unwrap();
    Ok(CopyRequest { recursive, sources: ops, dest })
}

/// The message for a directory given without `-r`.
pub open spec fn omit_directory_msg(src: Seq<char>) -> Seq<char> {
    "cp: -r not specified; omitting directory '"@ + src + "'"@
}

/// Whether a source may be copied: a directory needs `-r`.
pub fn check_source(src: &str, is_dir: bool, recursive: bool) -> (res: Result<(), String>)
    ensures
        match res {
            Ok(_) => !is_dir || recursive,
            Err(m) => is_dir && !recursive && m@ == omit_directory_msg(src@),
        },
{
    if is_dir && !recursive {
        let mut m = String::from_str("cp: -r not specified; omitting directory '");
        m.append(src);
        m.append("'");
        return Err(m);
    }
    Ok(())
}

/// Law: `cp` knows the options `-r` and `-R` (both recursive), in any
/// grouping: any other letter is reported; otherwise the last operand is
/// the destination and the others, at least one, the sources.
pub proof fn law_cp_options(args: Seq<String>, res: Result<CopyRequest, String>)
    requires
        cp_accepts(args, res),
    ensures
        (forall|i: int, j: int|
            0 <= i < args.len() && is_option(args[i]@) && 1 <= j < args[i]@.len() ==> (#[trigger] args[i]@[j] == 'r'
                || args[i]@[j] == 'R')) ==> (res is Ok <==> operand_args(args).len() >= 2),
        res matches Ok(r) ==> r.recursive == (option_given(args, 'r') || option_given(args, 'R')) && r.sources@
            + seq![r.dest] == operand_args(args),
        (exists|i: int, j: int|
            0 <= i < args.len() && is_option(args[i]@) && 1 <= j < args[i]@.len() && #[trigger] args[i]@[j] != 'r'
                && args[i]@[j] != 'R') ==> res is Err,
{
    crate::args::law_first_bad_option(args, cp_letters());
    assert(cp_letters().contains('r') && cp_letters().contains('R')) by {
        assert(cp_letters()[0] == 'r' && cp_letters()[1] == 'R');
    }
    assert forall|c: char| cp_letters().contains(c) implies c == 'r' || c == 'R' by {
        let k = choose|k: int| 0 <= k < cp_letters().len() && cp_letters()[k] == c;
    }
    if let Ok(r) = res {
        assert(r.sources@ + seq![r.dest] =~= operand_args(args));
    }
}

} // verus!
