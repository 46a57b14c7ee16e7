//! `mkdir [-p] dir...`: create directories.
use vstd::prelude::*;
use crate::args::{is_option, is_option_exec};

verus! {

/// A checked `mkdir` command line.
pub struct MkdirRequest {
    /// `-p` was given: create parents as needed.
    pub parents: bool,
    pub dirs: Vec<String>,
}

/// What `mkdir` makes of its arguments read so far: whether `-p` was seen
/// and the directories, or the message for the first other option.
pub open spec fn mkdir_scan(args: Seq<String>) -> Result<(bool, Seq<String>), Seq<char>>
    decreases args.len(),
{
    if args.len() == 0 {
        Ok((false, Seq::empty()))
    } else {
        match mkdir_scan(args.drop_last()) {
            Err(m) => Err(m),
            Ok((p, dirs)) => {
                let a = args.last()@;
                if a == "-p"@ {
                    Ok((true, dirs))
                } else if is_option(a) {
                    Err("mkdir: invalid option -- '"@ + a.drop_first() + "'"@)
                } else {
                    Ok((p, dirs.push(args.last())))
                }
            },
        }
    }
}

/// What `mkdir` makes of its arguments: at least one directory is needed.
pub open spec fn mkdir_accepts(args: Seq<String>, res: Result<MkdirRequest, String>) -> bool {
    match mkdir_scan(args) {
        Err(m) => res matches Err(e) && e@ == m,
        Ok((p, dirs)) => if dirs.len() == 0 {
            res matches Err(e) && e@ == "mkdir: missing operand"@
        } else {
            res matches Ok(r) && r.parents == p && r.dirs@ == dirs
        },
    }
}

fn is_parents_flag(a: &String) -> (res: bool)
    ensures
        res == (a@ == "-p"@),
{
    let cs = crate::text::chars_of(a.as_str());
    proof {
        reveal_strlit("-p");
    }
    let r = cs.len() == 2 && cs[0] == '-' && cs[1] == 'p';
    if r {
        assert(cs@ =~= "-p"@);
    }
    r
}

/// Checks a `mkdir` command line.
pub fn run(args: &[String]) -> (res: Result<MkdirRequest, String>)
    ensures
        mkdir_accepts(args@, res),
{
    let mut parents = false;
    let mut dirs: Vec<String> = Vec::new();
    let mut i: usize = 0;
    while i < args.len()
        invariant
            i <= args.len(),
            mkdir_scan(args@.take(i as int)) == Ok::<(bool, Seq<String>), Seq<char>>((parents, dirs@)),
        decreases args.len() - i,
    {
        assert(args@.take(i + 1).drop_last() =~= args@.take(i as int));
        assert(args@.take(i + 1).last() == args@[i as int]);
        let a = &args[i];
        if is_parents_flag(a) {
            parents = true;
        } else if is_option_exec(a) {
            let cs = crate::text::chars_of(a.as_str());
            let mut m = String::from_str("mkdir: invalid option -- '");
            let rest = crate::text::string_of_range(&cs, 1, cs.len());
            assert(cs@.subrange(1, cs@.len() as int) =~= a@.drop_first());
            m.append(rest.as_str());
            m.append("'");
            proof {
                lemma_mkdir_scan_err_sticks(args@, i as int + 1);
            }
            assert(args@.take(args@.len() as int) =~= args@);
            return Err(m);
        } else {
            dirs.push(a.clone());
        }
        i = i + 1;
    }
    assert(args@.take(i as int) =~= args@);
    if dirs.len() == 0 {
        return Err(String::from_str("mkdir: missing operand"));
    }
    Ok(MkdirRequest { parents, dirs })
}

/// Once an error is met, reading more arguments keeps it.
proof fn lemma_mkdir_scan_err_sticks(args: Seq<String>, k: int)
    requires
        0 <= k <= args.len(),
        mkdir_scan(args.take(k)) is Err,
    ensures
        mkdir_scan(args.take(args.len() as int)) == mkdir_scan(args.take(k)),
    decreases args.len() - k,
{
    if k < args.len() {
        assert(args.take(k + 1).drop_last() =~= args.take(k));
        lemma_mkdir_scan_err_sticks(args, k + 1);
    }
}

/// An argument other than `-p`.
pub open spec fn not_parents_flag() -> spec_fn(String) -> bool {
    |a: String| a@ != seq!['-', 'p']
}

/// Law: when every option is `-p`, `mkdir` creates parents exactly when
/// some `-p` is given, wherever it stands, and the directories are the
/// other arguments in their order.
pub proof fn law_mkdir_parents_anywhere(args: Seq<String>)
    requires
        forall|i: int| 0 <= i < args.len() && is_option(#[trigger] args[i]@) ==> args[i]@ == seq!['-', 'p'],
    ensures
        mkdir_scan(args) == Ok::<(bool, Seq<String>), Seq<char>>(
            (
                exists|i: int| 0 <= i < args.len() && #[trigger] args[i]@ == seq!['-', 'p'],
                args.filter(not_parents_flag()),
            ),
        ),
    decreases args.len(),
{
    reveal_strlit("-p");
    let p = seq!['-', 'p'];
    assert("-p"@ =~= p);
    let pred = not_parents_flag();
    if args.len() == 0 {
        reveal(Seq::filter);
        assert(args.filter(pred) =~= Seq::<String>::empty());
    } else {
        let init = args.drop_last();
        let last = args.last();
        assert forall|i: int| 0 <= i < init.len() && is_option(#[trigger] init[i]@) implies init[i]@ == p by {
            assert(init[i] == args[i]);
        }
        law_mkdir_parents_anywhere(init);
        assert(init.push(last) =~= args);
        init.lemma_filter_push(last, pred);
        let n = args.len() - 1;
        assert(args[n] == last);
        let had = exists|i: int| 0 <= i < init.len() && #[trigger] init[i]@ == p;
        let has = exists|i: int| 0 <= i < args.len() && #[trigger] args[i]@ == p;
        assert(had ==> has) by {
            if had {
                let i = choose|i: int| 0 <= i < init.len() && #[trigger] init[i]@ == p;
                assert(args[i] == init[i]);
            }
        }
        if last@ == p {
            assert(has);
            assert(mkdir_scan(args) == Ok::<(bool, Seq<String>), Seq<char>>((true, init.filter(pred))));
        } else {
            assert(!is_option(last@));
            assert(has ==> had) by {
                if has {
                    let i = choose|i: int| 0 <= i < args.len() && #[trigger] args[i]@ == p;
                    assert(i < n);
                    assert(init[i] == args[i]);
                }
            }
            assert(mkdir_scan(args) == Ok::<(bool, Seq<String>), Seq<char>>((had, init.filter(pred).push(last))));
        }
    }
}

} // verus!
