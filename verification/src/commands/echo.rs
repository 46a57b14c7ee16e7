//! `echo [-n] [args...]`: print the arguments separated by spaces.
use vstd::prelude::*;

verus! {

/// A `-n` flag: `-` followed by one or more `n` (so `-nnn` counts too).
pub open spec fn is_n_flag(a: Seq<char>) -> bool {
    a.len() >= 2 && a[0] == '-' && forall|k: int| 1 <= k < a.len() ==> a[k] == 'n'
}

/// How many arguments at the front are `-n` flags.
pub open spec fn leading_flags(args: Seq<String>) -> nat
    decreases args.len(),
{
    if args.len() > 0 && is_n_flag(args[0]@) {
        1 + leading_flags(args.drop_first())
    } else {
        0
    }
}

/// Words joined with single spaces.
pub open spec fn join_words(ws: Seq<String>) -> Seq<char>
    decreases ws.len(),
{
    if ws.len() == 0 {
        Seq::empty()
    } else if ws.len() == 1 {
        ws[0]@
    } else {
        join_words(ws.drop_last()) + " "@ + ws.last()@
    }
}

/// What `echo` prints: the operands joined with spaces, and a newline unless
/// some `-n` flag came first.
pub open spec fn echo_output(args: Seq<String>) -> Seq<char> {
    let k = leading_flags(args);
    let text = join_words(args.skip(k as int));
    if k == 0 {
        text + "\n"@
    } else {
        text
    }
}

fn is_n_flag_exec(a: &String) -> (res: bool)
    ensures
        res == is_n_flag(a@),
{
    let cs = crate::text::chars_of(a.as_str());
    if cs.len() < 2 || cs[0] != '-' {
        return false;
    }
    let mut k: usize = 1;
    while k < cs.len()
        invariant
            1 <= k <= cs.len(),
            cs@ == a@,
            forall|m: int| 1 <= m < k ==> cs@[m] == 'n',
        decreases cs.len() - k,
    {
        if cs[k] != 'n' {
            return false;
        }
        k = k + 1;
    }
    true
}

proof fn lemma_leading_flags_bound(args: Seq<String>)
    ensures
        leading_flags(args) <= args.len(),
    decreases args.len(),
{
    if args.len() > 0 && is_n_flag(args[0]@) {
        lemma_leading_flags_bound(args.drop_first());
    }
}

/// The text `echo` prints for these arguments.
pub fn run(args: &[String]) -> (res: String)
    ensures
        res@ == echo_output(args@),
{
    let mut idx: usize = 0;
    proof {
        assert(args@.skip(0) =~= args@);
        lemma_leading_flags_bound(args@);
    }
    while idx < args.len() && is_n_flag_exec(&args[idx])
        invariant
            idx <= args.len(),
            leading_flags(args@) == idx + leading_flags(args@.skip(idx as int)),
        decreases args.len() - idx,
    {
        assert(args@.skip(idx as int).drop_first() =~= args@.skip(idx + 1));
        assert(args@.skip(idx as int)[0] == args@[idx as int]);
        idx = idx + 1;
    }
    proof {
        if idx < args.len() {
            assert(args@.skip(idx as int)[0] == args@[idx as int]);
        }
    }
    let ghost rest = args@.skip(idx as int);
    let mut text = String::new();
    let mut i: usize = idx;
    while i < args.len()
        invariant
            idx <= i <= args.len(),
            rest == args@.skip(idx as int),
            text@ == join_words(rest.take(i - idx)),
        decreases args.len() - i,
    {
        assert(rest.take(i - idx + 1).drop_last() =~= rest.take(i - idx));
        assert(rest.take(i - idx + 1).last() == args@[i as int]);
        if i > idx {
            text.append(" ");
        }
        text.append(args[i].as_str());
        i = i + 1;
        proof {
            if i - idx == 1 {
                assert(text@ =~= join_words(rest.take(i - idx)));
            }
        }
    }
    assert(rest.take(i - idx) =~= rest);
    if idx == 0 {
        text.append("\n");
    }
    text
}

/// Law: `-n` only suppresses the trailing newline: `echo -n args` prints
/// what `echo args` prints, without its final newline.
pub proof fn law_dash_n_drops_newline(n_flag: String, args: Seq<String>)
    requires
        n_flag@ == "-n"@,
        leading_flags(args) == 0,
    ensures
        echo_output(seq![n_flag] + args) + "\n"@ == echo_output(args),
{
    reveal_strlit("-n");
    let all = seq![n_flag] + args;
    assert(is_n_flag(n_flag@));
    assert(all.drop_first() =~= args);
    assert(leading_flags(all) == 1);
    assert(all.skip(1) =~= args);
    assert(args.skip(0) =~= args);
}

/// Law: joining puts exactly one space between a first word and the join
/// of the words after it, however many there are.
pub proof fn law_join_words_front(w: String, ws: Seq<String>)
    requires
        ws.len() > 0,
    ensures
        join_words(seq![w] + ws) == w@ + " "@ + join_words(ws),
    decreases ws.len(),
{
    let all = seq![w] + ws;
    assert(all.drop_last() =~= seq![w] + ws.drop_last());
    assert(all.last() == ws.last());
    assert(join_words(all) == join_words(all.drop_last()) + " "@ + all.last()@);
    if ws.len() == 1 {
        assert(seq![w] + ws.drop_last() =~= seq![w]);
        assert(seq![w][0] == w);
        assert(join_words(seq![w]) == w@);
        assert(ws.drop_last() =~= Seq::<String>::empty());
        assert(join_words(ws) == ws[0]@);
    } else {
        law_join_words_front(w, ws.drop_last());
        assert(join_words(ws) == join_words(ws.drop_last()) + " "@ + ws.last()@);
        assert(w@ + " "@ + join_words(ws.drop_last()) + " "@ + ws.last()@ =~= w@ + " "@ + (join_words(
            ws.drop_last(),
        ) + " "@ + ws.last()@));
    }
}

/// Law: without a leading `-n` flag, `echo` prints all its arguments
/// joined with single spaces, then a newline.
pub proof fn law_echo_without_flag(args: Seq<String>)
    requires
        args.len() == 0 || !is_n_flag(args[0]@),
    ensures
        echo_output(args) == join_words(args) + "\n"@,
{
    assert(args.skip(0) =~= args);
}

/// Law: a leading `-n` drops the newline and is not printed; an argument
/// that only looks like it (`-nx`, `-`) is printed as a word, and the
/// newline stays.
pub proof fn law_dash_n_is_a_flag(f: String, rest: Seq<String>)
    ensures
        f@ == seq!['-', 'n'] && (rest.len() == 0 || !is_n_flag(rest[0]@)) ==> echo_output(seq![f] + rest) == join_words(
            rest,
        ),
        (f@ == seq!['-', 'n', 'x'] || f@ == seq!['-']) ==> echo_output(seq![f] + rest) == join_words(seq![f] + rest)
            + seq!['\n'],
{
    reveal_strlit("\n");
    let args = seq![f] + rest;
    assert(args[0] == f);
    assert(args.drop_first() =~= rest);
    if f@ == seq!['-', 'n'] && (rest.len() == 0 || !is_n_flag(rest[0]@)) {
        assert(is_n_flag(f@));
        assert(leading_flags(rest) == 0);
        assert(leading_flags(args) == 1);
        assert(args.skip(1) =~= rest);
    }
    if f@ == seq!['-', 'n', 'x'] || f@ == seq!['-'] {
        if f@ == seq!['-', 'n', 'x'] {
            assert(f@[2] != 'n');
        }
        assert(!is_n_flag(f@));
        assert(args.skip(0) =~= args);
        assert("\n"@ =~= seq!['\n']);
    }
}

} // verus!
