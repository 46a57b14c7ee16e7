//! `mv src... dest`: move or rename files and directories. Option groups
//! are ignored.
use vstd::prelude::*;
use crate::args::{operand_args, operands};

verus! {

/// What `mv` makes of its arguments: the operands (options are ignored),
/// at least two, the last being the destination.
pub open spec fn mv_accepts(args: Seq<String>, res: Result<(Vec<String>, String), String>) -> bool {
    let ops = operand_args(args);
    if ops.len() < 2 {
        res matches Err(m) && m@ == "mv: missing file operand"@
    } else {
        res matches Ok((srcs, dest)) && srcs@ == ops.drop_last() && dest == ops.last()
    }
}

/// Checks a `mv` command line and splits it into sources and destination.
pub fn run(args: &[String]) -> (res: Result<(Vec<String>, String), String>)
    ensures
        mv_accepts(args@, res),
{
    let mut ops = operands(args);
    if ops.len() < 2 {
        return Err(String::from_str("mv: missing file operand"));
    }
    let dest = ops.pop().unwrap();
    Ok((ops, dest))
}

} // verus!
