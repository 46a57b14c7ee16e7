//! `cd [dir]`: where to change directory. With no argument, or `~`, go to
//! `$HOME`; `~/x` is taken under `$HOME`.
use vstd::prelude::*;
use crate::paths::{join, path_join};
use crate::text::{chars_of, has_prefix, occurs_at_exec, string_of_range};

verus! {

/// The directory `cd` goes to, given `$HOME` (absent when unset), or the
/// message when it cannot be worked out.
pub open spec fn cd_target(args: Seq<String>, home: Option<Seq<char>>) -> Result<Seq<char>, Seq<char>> {
    if args.len() > 1 {
        Err("cd: too many arguments"@)
    } else if args.len() == 0 || args[0]@ == "~"@ {
        match home {
            Some(h) => Ok(h),
            None => Err("cd: HOME not set"@),
        }
    } else if has_prefix(args[0]@, "~/"@) {
        match home {
            Some(h) => Ok(join(h, args[0]@.skip(2))),
            None => Err("cd: HOME not set"@),
        }
    } else {
        Ok(args[0]@)
    }
}

/// `$HOME` as a character sequence, if set.
pub open spec fn home_view(home: Option<String>) -> Option<Seq<char>> {
    match home {
        Some(h) => Some(h@),
        None => None,
    }
}

/// Works out the directory `cd` changes to (the change itself is the
/// caller's).
pub fn run(args: &[String], home: &Option<String>) -> (res: Result<String, String>)
    ensures
        match res {
            Ok(t) => cd_target(args@, home_view(*home)) == Ok::<Seq<char>, Seq<char>>(t@),
            Err(m) => cd_target(args@, home_view(*home)) == Err::<Seq<char>, Seq<char>>(m@),
        },
{
    if args.len() > 1 {
        return Err(String::from_str("cd: too many arguments"));
    }
    let tilde_slash = chars_of("~/");
    proof {
        reveal_strlit("~");
        reveal_strlit("~/");
    }
    let p = if args.len() == 0 { Vec::new() } else { chars_of(args[0].as_str()) };
    let bare = args.len() == 0 || (p.len() == 1 && p[0] == '~');
    if args.len() == 1 && p.len() == 1 && p[0] == '~' {
        assert(p@ =~= "~"@);
    }
    if args.len() == 1 && !bare {
        assert(args@[0]@ != "~"@) by {
            if args@[0]@ == "~"@ {
                assert(p@.len() == 1 && p@[0] == '~');
            }
        }
    }
    if bare {
        return match home {
            Some(h) => Ok(h.clone()),
            None => Err(String::from_str("cd: HOME not set")),
        };
    }
    if occurs_at_exec(&p, &tilde_slash, 0) {
        return match home {
            Some(h) => {
                let rest = string_of_range(&p, 2, p.len());
                assert(p@.subrange(2, p@.len() as int) =~= p@.skip(2));
                Ok(path_join(h.as_str(), rest.as_str()))
            },
            None => Err(String::from_str("cd: HOME not set")),
        };
    }
    Ok(args[0].clone())
}

/// Law: with no argument or `~`, `cd` goes to `$HOME`; `~/x` goes to `x`
/// under `$HOME`; any other single argument is the directory itself;
/// without `$HOME` the first two are errors, and two or more arguments are
/// always one.
pub proof fn law_cd_targets(a: String, rest: Seq<String>, x: Seq<char>, home: Option<Seq<char>>)
    ensures
        home matches Some(h) ==> cd_target(Seq::empty(), home) == Ok::<Seq<char>, Seq<char>>(h),
        home matches Some(h) ==> (a@ == seq!['~'] ==> cd_target(seq![a], home) == Ok::<Seq<char>, Seq<char>>(h)),
        home matches Some(h) ==> (a@ == seq!['~', '/'] + x ==> cd_target(seq![a], home) == Ok::<Seq<char>, Seq<char>>(
            join(h, x),
        )),
        home is None ==> cd_target(Seq::empty(), home) is Err,
        home is None && (a@ == seq!['~'] || a@ == seq!['~', '/'] + x) ==> cd_target(seq![a], home) is Err,
        (a@.len() == 0 || a@[0] != '~') ==> cd_target(seq![a], home) == Ok::<Seq<char>, Seq<char>>(a@),
        rest.len() > 0 ==> cd_target(seq![a] + rest, home) is Err,
{
    reveal_strlit("~");
    reveal_strlit("~/");
    assert(seq![a][0] == a);
    assert(seq!['~'] =~= "~"@);
    if a@ == seq!['~', '/'] + x {
        assert(a@ != "~"@) by {
            assert(a@.len() >= 2);
        }
        assert(a@.subrange(0, 2) =~= "~/"@);
        assert(a@.skip(2) =~= x);
    }
    if a@.len() == 0 || a@[0] != '~' {
        if a@.len() >= 2 {
            assert(a@.subrange(0, 2)[0] == a@[0]);
        }
        assert(!has_prefix(a@, "~/"@));
        assert(a@ != "~"@);
    }
    assert((seq![a] + rest).len() == 1 + rest.len());
}

} // verus!
