//! Command-line conventions shared by the built-in commands: option groups
//! such as `-rf`, and the operands that remain.
use vstd::prelude::*;
use crate::text::push_char;

verus! {

/// An option group: a `-` followed by at least one more character.
pub open spec fn is_option(a: Seq<char>) -> bool {
    a.len() > 1 && a[0] == '-'
}

/// The first character of `s` that is not among `allowed`.
pub open spec fn first_bad_char(s: Seq<char>, allowed: Seq<char>) -> Option<char>
    decreases s.len(),
{
    if s.len() == 0 {
        None
    } else if allowed.contains(s[0]) {
        first_bad_char(s.drop_first(), allowed)
    } else {
        Some(s[0])
    }
}

/// The first option letter, over the option groups in order, that is not
/// among `allowed`.
pub open spec fn first_bad_option(args: Seq<String>, allowed: Seq<char>) -> Option<char>
    decreases args.len(),
{
    if args.len() == 0 {
        None
    } else if is_option(args[0]@) && first_bad_char(args[0]@.drop_first(), allowed) is Some {
        first_bad_char(args[0]@.drop_first(), allowed)
    } else {
        first_bad_option(args.drop_first(), allowed)
    }
}

/// Some option group holds `letter`.
pub open spec fn option_given(args: Seq<String>, letter: char) -> bool {
    exists|i: int, j: int|
        0 <= i < args.len() && is_option(args[i]@) && 1 <= j < args[i]@.len() && #[trigger] args[i]@[j] == letter
}

/// The arguments that are not option groups, in order.
pub open spec fn operand_args(args: Seq<String>) -> Seq<String>
    decreases args.len(),
{
    if args.len() == 0 {
        Seq::empty()
    } else if is_option(args.last()@) {
        operand_args(args.drop_last())
    } else {
        operand_args(args.drop_last()).push(args.last())
    }
}

/// The message for an unknown option letter.
pub open spec fn invalid_option_msg(cmd: Seq<char>, c: char) -> Seq<char> {
    cmd + ": invalid option -- '"@ + seq![c] + "'"@
}

/// Whether an argument is an option group.
pub fn is_option_exec(a: &String) -> (res: bool)
    ensures
        res == is_option(a@),
{
    let s = a.as_str();
    s.unicode_len() > 1 && s.get_char(0) == '-'
}

fn first_bad_char_exec(a: &String, allowed: &Vec<char>) -> (res: Option<char>)
    requires
        is_option(a@),
    ensures
        res == first_bad_char(a@.drop_first(), allowed@),
{
    let cs = crate::text::chars_of(a.as_str());
    let mut k: usize = 1;
    assert(cs@.skip(1) =~= a@.drop_first());
    while k < cs.len()
        invariant
            1 <= k <= cs.len(),
            cs@ == a@,
            first_bad_char(a@.drop_first(), allowed@) == first_bad_char(cs@.skip(k as int), allowed@),
        decreases cs.len() - k,
    {
        let c = cs[k];
        assert(cs@.skip(k as int).drop_first() =~= cs@.skip(k + 1));
        let mut found = false;
        let mut m: usize = 0;
        while m < allowed.len()
            invariant
                m <= allowed.len(),
                found == (exists|x: int| 0 <= x < m && allowed@[x] == c),
            decreases allowed.len() - m,
        {
            if allowed[m] == c {
                found = true;
            }
            m = m + 1;
        }
        if !found {
            assert(!allowed@.contains(c));
            return Some(c);
        }
        assert(allowed@.contains(c));
        k = k + 1;
    }
    assert(cs@.skip(k as int) =~= Seq::<char>::empty());
    None
}

/// The first option letter not among `allowed`, if any.
pub fn find_bad_option(args: &[String], allowed: &Vec<char>) -> (res: Option<char>)
    ensures
        res == first_bad_option(args@, allowed@),
{
    let mut i: usize = 0;
    assert(args@.skip(0) =~= args@);
    while i < args.len()
        invariant
            i <= args.len(),
            first_bad_option(args@, allowed@) == first_bad_option(args@.skip(i as int), allowed@),
        decreases args.len() - i,
    {
        assert(args@.skip(i as int).drop_first() =~= args@.skip(i + 1));
        assert(args@.skip(i as int)[0] == args@[i as int]);
        if is_option_exec(&args[i]) {
            let b = first_bad_char_exec(&args[i], allowed);
            if b.is_some() {
                return b;
            }
        }
        i = i + 1;
    }
    assert(args@.skip(i as int) =~= Seq::<String>::empty());
    None
}

/// Whether some option group holds `letter`.
pub fn has_option(args: &[String], letter: char) -> (res: bool)
    ensures
        res == option_given(args@, letter),
{
    let mut i: usize = 0;
    while i < args.len()
        invariant
            i <= args.len(),
            forall|x: int, j: int|
                0 <= x < i && is_option(args@[x]@) && 1 <= j < args@[x]@.len() ==> #[trigger] args@[x]@[j] != letter,
        decreases args.len() - i,
    {
        if is_option_exec(&args[i]) {
            let cs = crate::text::chars_of(args[i].as_str());
            let mut k: usize = 1;
            while k < cs.len()
                invariant
                    1 <= k <= cs.len(),
                    i < args.len(),
                    is_option(args@[i as int]@),
                    cs@ == args@[i as int]@,
                    forall|j: int| 1 <= j < k ==> cs@[j] != letter,
                    forall|x: int, j: int|
                        0 <= x < i && is_option(args@[x]@) && 1 <= j < args@[x]@.len() ==> #[trigger] args@[x]@[j] != letter,
                decreases cs.len() - k,
            {
                if cs[k] == letter {
                    assert(args@[i as int]@[k as int] == letter);
                    return true;
                }
                k = k + 1;
            }
        }
        i = i + 1;
    }
    false
}

/// The arguments that are not option groups.
pub fn operands(args: &[String]) -> (res: Vec<String>)
    ensures
        res@ == operand_args(args@),
{
    let mut res: Vec<String> = Vec::new();
    let mut i: usize = 0;
    while i < args.len()
        invariant
            i <= args.len(),
            res@ == operand_args(args@.take(i as int)),
        decreases args.len() - i,
    {
        assert(args@.take(i + 1).drop_last() =~= args@.take(i as int));
        assert(args@.take(i + 1).last() == args@[i as int]);
        if !is_option_exec(&args[i]) {
            res.push(args[i].clone());
        }
        i = i + 1;
    }
    assert(args@.take(i as int) =~= args@);
    res
}

/// The message for an unknown option letter of `cmd`.
pub fn invalid_option(cmd: &str, c: char) -> (res: String)
    ensures
        res@ == invalid_option_msg(cmd@, c),
{
    let mut s = String::from_str(cmd);
    s.append(": invalid option -- '");
    push_char(&mut s, c);
    s.append("'");
    s
}

/// Law: the operands are the arguments that are not option groups, kept in
/// their order.
pub proof fn law_operands_are_the_non_options(args: Seq<String>)
    ensures
        operand_args(args) == args.filter(|a: String| !is_option(a@)),
    decreases args.len(),
{
    if args.len() > 0 {
        law_operands_are_the_non_options(args.drop_last());
        assert(args.drop_last().push(args.last()) =~= args);
        args.drop_last().lemma_filter_push(args.last(), |a: String| !is_option(a@));
    } else {
        reveal(Seq::filter);
    }
}

/// Law: the first letter of `s` that is not allowed, if any: it occurs in
/// `s`, is not allowed, and every letter before it is.
pub proof fn law_first_bad_char(s: Seq<char>, allowed: Seq<char>)
    ensures
        first_bad_char(s, allowed) is None <==> forall|k: int| 0 <= k < s.len() ==> allowed.contains(#[trigger] s[k]),
        first_bad_char(s, allowed) matches Some(c) ==> exists|k: int|
            0 <= k < s.len() && #[trigger] s[k] == c && !allowed.contains(c) && forall|m: int|
                0 <= m < k ==> allowed.contains(s[m]),
    decreases s.len(),
{
    if s.len() > 0 {
        let t = s.drop_first();
        law_first_bad_char(t, allowed);
        assert forall|k: int| 0 <= k < t.len() implies t[k] == s[k + 1] by {}
        if allowed.contains(s[0]) {
            if first_bad_char(t, allowed) is None {
                assert forall|k: int| 0 <= k < s.len() implies allowed.contains(#[trigger] s[k]) by {
                    if k > 0 {
                        assert(allowed.contains(t[k - 1]));
                    }
                }
            } else {
                let c = first_bad_char(t, allowed)->Some_0;
                let k = choose|k: int|
                    0 <= k < t.len() && #[trigger] t[k] == c && !allowed.contains(c) && forall|m: int|
                        0 <= m < k ==> allowed.contains(t[m]);
                assert(s[k + 1] == c);
                assert forall|m: int| 0 <= m < k + 1 implies allowed.contains(s[m]) by {
                    if m > 0 {
                        assert(allowed.contains(t[m - 1]));
                    }
                }
                assert(!allowed.contains(t[k]));
            }
        } else {
            assert(!allowed.contains(s[0]));
        }
    }
}

/// Law: an unknown option is reported exactly when some option group holds
/// a letter that is not allowed, and the letter reported is the first such
/// letter of the first such group.
pub proof fn law_first_bad_option(args: Seq<String>, allowed: Seq<char>)
    ensures
        first_bad_option(args, allowed) is None <==> forall|i: int, j: int|
            0 <= i < args.len() && is_option(args[i]@) && 1 <= j < args[i]@.len() ==> allowed.contains(
                #[trigger] args[i]@[j],
            ),
        first_bad_option(args, allowed) matches Some(c) ==> exists|i: int|
            0 <= i < args.len() && is_option(#[trigger] args[i]@) && first_bad_char(args[i]@.drop_first(), allowed)
                == Some(c) && forall|h: int|
                0 <= h < i && is_option(args[h]@) ==> first_bad_char(args[h]@.drop_first(), allowed) is None,
    decreases args.len(),
{
    if args.len() > 0 {
        let t = args.drop_first();
        law_first_bad_option(t, allowed);
        assert forall|i: int| 0 <= i < t.len() implies t[i] == args[i + 1] by {}
        let a = args[0]@;
        law_first_bad_char(a.drop_first(), allowed);
        if is_option(a) && first_bad_char(a.drop_first(), allowed) is Some {
            let k = choose|k: int|
                0 <= k < a.drop_first().len() && #[trigger] a.drop_first()[k] == first_bad_char(a.drop_first(), allowed)->Some_0
                    && !allowed.contains(first_bad_char(a.drop_first(), allowed)->Some_0) && forall|m: int|
                    0 <= m < k ==> allowed.contains(a.drop_first()[m]);
            assert(a[k + 1] == a.drop_first()[k]);
            assert(!allowed.contains(args[0]@[k + 1]));
        } else {
            // This group is fine: its letters are all allowed.
            assert forall|j: int| is_option(a) && 1 <= j < a.len() implies allowed.contains(a[j]) by {
                assert(a[j] == a.drop_first()[j - 1]);
            }
            if first_bad_option(t, allowed) is None {
                assert forall|i: int, j: int|
                    0 <= i < args.len() && is_option(args[i]@) && 1 <= j < args[i]@.len() implies allowed.contains(
                    #[trigger] args[i]@[j],
                ) by {
                    if i > 0 {
                        assert(args[i] == t[i - 1]);
                    }
                }
            } else {
                let c = first_bad_option(t, allowed)->Some_0;
                let i = choose|i: int|
                    0 <= i < t.len() && is_option(#[trigger] t[i]@) && first_bad_char(t[i]@.drop_first(), allowed)
                        == Some(c) && forall|h: int|
                        0 <= h < i && is_option(t[h]@) ==> first_bad_char(t[h]@.drop_first(), allowed) is None;
                assert(args[i + 1] == t[i]);
                assert forall|h: int|
                    0 <= h < i + 1 && is_option(args[h]@) implies first_bad_char(args[h]@.drop_first(), allowed)
                    is None by {
                    if h > 0 {
                        assert(args[h] == t[h - 1]);
                    }
                }
                let ti = t[i]@;
                law_first_bad_char(ti.drop_first(), allowed);
                let k = choose|k: int|
                    0 <= k < ti.drop_first().len() && #[trigger] ti.drop_first()[k] == c && !allowed.contains(c) && forall|
                        m: int,
                    |
                        0 <= m < k ==> allowed.contains(ti.drop_first()[m]);
                assert(args[i + 1]@[k + 1] == c);
            }
        }
    }
}

} // verus!
