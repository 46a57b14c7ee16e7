//! Character-level helpers shared by the shell's components.
use vstd::prelude::*;

verus! {

/// Appends one character to a `String` (std's `String::push`).
#[verifier::external_body]
pub(crate) fn push_char(s: &mut String, c: char)
    ensures
        final(s)@ == old(s)@.push(c),
{
    s.push(c);
}

/// The characters of a string slice, in order.
pub fn chars_of(s: &str) -> (res: Vec<char>)
    ensures
        res@ == s@,
{
    let mut res: Vec<char> = Vec::new();
    for c in it: s.chars()
        invariant
            res@ == it.seq().take(it.index() as int),
            it.seq() == s@,
    {
        res.push(c);
    }
    res
}

/// The first position at or after `i` that holds `c`, or the length of `s`.
pub open spec fn find_char(s: Seq<char>, i: int, c: char) -> int
    decreases s.len() - i,
{
    if i >= s.len() {
        s.len() as int
    } else if s[i] == c {
        i
    } else {
        find_char(s, i + 1, c)
    }
}

pub proof fn lemma_find_char_bounds(s: Seq<char>, i: int, c: char)
    ensures
        i <= s.len() ==> i <= find_char(s, i, c) <= s.len(),
        i > s.len() ==> find_char(s, i, c) == s.len(),
        find_char(s, i, c) < s.len() ==> s[find_char(s, i, c)] == c,
        forall|k: int| i <= k < find_char(s, i, c) ==> s[k] != c,
    decreases s.len() - i,
{
    if i < s.len() && s[i] != c {
        lemma_find_char_bounds(s, i + 1, c);
    }
}

/// `find_char` passes over a stretch free of `c` up to a position holding `c`.
pub proof fn lemma_find_char_skips(s: Seq<char>, i: int, j: int, c: char)
    requires
        0 <= i <= j < s.len(),
        s[j] == c,
        forall|k: int| i <= k < j ==> s[k] != c,
    ensures
        find_char(s, i, c) == j,
    decreases j - i,
{
    if i < j {
        lemma_find_char_skips(s, i + 1, j, c);
    }
}

pub proof fn lemma_find_char_shift(p: Seq<char>, b: Seq<char>, k: int, c: char)
    requires
        k >= 0,
    ensures
        find_char(p + b, p.len() + k, c) == p.len() + find_char(b, k, c),
    decreases b.len() - k,
{
    if k < b.len() {
        assert((p + b)[p.len() + k] == b[k]);
        lemma_find_char_shift(p, b, k + 1, c);
    }
}


/// The first position at or after `from` that holds `c`, or the length.
pub fn find_char_exec(s: &Vec<char>, from: usize, c: char) -> (res: usize)
    requires
        from <= s.len(),
    ensures
        res == find_char(s@, from as int, c),
{
    let mut j = from;
    while j < s.len() && s[j] != c
        invariant
            from <= j <= s.len(),
            find_char(s@, j as int, c) == find_char(s@, from as int, c),
        decreases s.len() - j,
    {
        j = j + 1;
    }
    j
}

/// The characters `from..to` of `v`, as a `String`.
pub fn string_of_range(v: &Vec<char>, from: usize, to: usize) -> (res: String)
    requires
        from <= to <= v.len(),
    ensures
        res@ == v@.subrange(from as int, to as int),
{
    let mut res = String::new();
    let mut k = from;
    while k < to
        invariant
            from <= k <= to <= v.len(),
            res@ == v@.subrange(from as int, k as int),
        decreases to - k,
    {
        push_char(&mut res, v[k]);
        k = k + 1;
        assert(res@ =~= v@.subrange(from as int, k as int));
    }
    res
}

/// The characters `from..to` of `v`, as a vector.
pub fn chars_of_range(v: &Vec<char>, from: usize, to: usize) -> (res: Vec<char>)
    requires
        from <= to <= v.len(),
    ensures
        res@ == v@.subrange(from as int, to as int),
{
    let mut res: Vec<char> = Vec::new();
    let mut k = from;
    while k < to
        invariant
            from <= k <= to <= v.len(),
            res@ == v@.subrange(from as int, k as int),
        decreases to - k,
    {
        res.push(v[k]);
        k = k + 1;
        assert(res@ =~= v@.subrange(from as int, k as int));
    }
    res
}

/// `pat` occurs in `s` at position `i`.
pub open spec fn occurs_at(s: Seq<char>, pat: Seq<char>, i: int) -> bool {
    0 <= i && i + pat.len() <= s.len() && s.subrange(i, i + pat.len()) == pat
}

/// `s` starts with `pat`.
pub open spec fn has_prefix(s: Seq<char>, pat: Seq<char>) -> bool {
    occurs_at(s, pat, 0)
}

/// `pat` occurs somewhere in `s`.
pub open spec fn contains_seq(s: Seq<char>, pat: Seq<char>) -> bool {
    exists|i: int| occurs_at(s, pat, i)
}

/// Whether `pat` occurs in `s` at position `i`.
pub fn occurs_at_exec(s: &Vec<char>, pat: &Vec<char>, i: usize) -> (res: bool)
    ensures
        res == occurs_at(s@, pat@, i as int),
{
    if i > s.len() || pat.len() > s.len() - i {
        return false;
    }
    let mut k: usize = 0;
    while k < pat.len()
        invariant
            i + pat.len() <= s.len(),
            k <= pat.len(),
            forall|m: int| 0 <= m < k ==> s@[i + m] == pat@[m],
        decreases pat.len() - k,
    {
        if s[i + k] != pat[k] {
            assert(s@.subrange(i as int, i + pat.len())[k as int] != pat@[k as int]);
            return false;
        }
        k = k + 1;
    }
    assert(s@.subrange(i as int, i + pat.len()) =~= pat@);
    true
}

/// Whether `pat` occurs anywhere in `s`.
pub fn contains_exec(s: &Vec<char>, pat: &Vec<char>) -> (res: bool)
    ensures
        res == contains_seq(s@, pat@),
{
    let mut i: usize = 0;
    while i < s.len()
        invariant
            i <= s.len(),
            forall|m: int| 0 <= m < i ==> !occurs_at(s@, pat@, m),
        decreases s.len() - i,
    {
        if occurs_at_exec(s, pat, i) {
            return true;
        }
        i = i + 1;
    }
    if occurs_at_exec(s, pat, i) {
        return true;
    }
    assert forall|m: int| !occurs_at(s@, pat@, m) by {
        if 0 <= m <= i {
        }
    }
    false
}

/// `n` copies of `c`.
pub open spec fn repeat_char(c: char, n: nat) -> Seq<char> {
    Seq::new(n, |_k: int| c)
}

/// `s` right-aligned in a field of `w` characters filled with `c`, as the
/// format width `{:>w}` does (counted in characters).
pub open spec fn pad_left(s: Seq<char>, w: nat, c: char) -> Seq<char> {
    if s.len() < w {
        repeat_char(c, (w - s.len()) as nat) + s
    } else {
        s
    }
}

/// `s` left-aligned in a field of `w` characters filled with spaces, as the
/// format width `{:<w}` does (counted in characters).
pub open spec fn pad_right(s: Seq<char>, w: nat) -> Seq<char> {
    if s.len() < w {
        s + repeat_char(' ', (w - s.len()) as nat)
    } else {
        s
    }
}

/// Appends `n` copies of `c`.
pub fn push_repeat(out: &mut String, c: char, n: usize)
    ensures
        final(out)@ == old(out)@ + repeat_char(c, n as nat),
{
    let mut k: usize = 0;
    while k < n
        invariant
            k <= n,
            out@ == old(out)@ + repeat_char(c, k as nat),
        decreases n - k,
    {
        push_char(out, c);
        k = k + 1;
        assert(out@ =~= old(out)@ + repeat_char(c, k as nat));
    }
}

/// Appends `s` right-aligned in `w` characters filled with `c`.
pub fn push_pad_left(out: &mut String, s: &str, w: usize, c: char)
    ensures
        final(out)@ == old(out)@ + pad_left(s@, w as nat, c),
{
    let len = s.unicode_len();
    if len < w {
        push_repeat(out, c, w - len);
    }
    out.append(s);
    assert(final(out)@ =~= old(out)@ + pad_left(s@, w as nat, c));
}

/// Appends `s` left-aligned in `w` characters filled with spaces.
pub fn push_pad_right(out: &mut String, s: &str, w: usize)
    ensures
        final(out)@ == old(out)@ + pad_right(s@, w as nat),
{
    let len = s.unicode_len();
    out.append(s);
    if len < w {
        push_repeat(out, ' ', w - len);
    }
    assert(final(out)@ =~= old(out)@ + pad_right(s@, w as nat));
}

/// The arguments after the first one.
pub fn slice_tail(args: &[String]) -> (res: Vec<String>)
    requires
        args.len() > 0,
    ensures
        res@ == args@.drop_first(),
{
    let mut res: Vec<String> = Vec::new();
    let mut i: usize = 1;
    while i < args.len()
        invariant
            1 <= i <= args.len(),
            res@ == args@.subrange(1, i as int),
        decreases args.len() - i,
    {
        res.push(args[i].clone());
        i = i + 1;
        assert(res@ =~= args@.subrange(1, i as int));
    }
    assert(args@.subrange(1, i as int) =~= args@.drop_first());
    res
}

/// Law: right-aligning fills a field of at least `w` characters: the text
/// itself at the end, only the fill character before it.
pub proof fn law_pad_left_aligns(s: Seq<char>, w: nat, c: char)
    ensures
        pad_left(s, w, c).len() == if s.len() < w { w } else { s.len() },
        pad_left(s, w, c).skip(pad_left(s, w, c).len() - s.len()) == s,
        forall|k: int| 0 <= k < pad_left(s, w, c).len() - s.len() ==> #[trigger] pad_left(s, w, c)[k] == c,
{
    let p = pad_left(s, w, c);
    assert(p.skip(p.len() - s.len()) =~= s);
}

/// Law: left-aligning fills a field of at least `w` characters: the text
/// itself at the start, only spaces after it.
pub proof fn law_pad_right_aligns(s: Seq<char>, w: nat)
    ensures
        pad_right(s, w).len() == if s.len() < w { w } else { s.len() },
        pad_right(s, w).take(s.len() as int) == s,
        forall|k: int| s.len() <= k < pad_right(s, w).len() ==> #[trigger] pad_right(s, w)[k] == ' ',
{
    let p = pad_right(s, w);
    assert(p.take(s.len() as int) =~= s);
}

} // verus!
