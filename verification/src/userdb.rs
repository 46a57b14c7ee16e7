//! Resolving numeric uids/gids to names from the text of /etc/passwd and
//! /etc/group. Both files share the layout `name:_:id:...` for their first
//! three fields. When a lookup fails the numeric id is shown instead, as
//! coreutils does.
use vstd::prelude::*;
use crate::num::{decimal, parse_u32, spec_parse_u32, u64_to_string};
use crate::text::{chars_of, chars_of_range, find_char, find_char_exec, lemma_find_char_bounds,
    lemma_find_char_shift, string_of_range};

verus! {

/// A line without the carriage return that ends it, if any.
pub open spec fn strip_cr(x: Seq<char>) -> Seq<char> {
    if x.len() > 0 && x.last() == '\r' {
        x.drop_last()
    } else {
        x
    }
}

/// The lines of a text as std's `str::lines` gives them: split after each
/// `\n`, the `\n` and a `\r` just before it removed; a last line without
/// `\n` is kept as it is, and no empty line follows a final `\n`.
pub open spec fn text_lines(s: Seq<char>) -> Seq<Seq<char>>
    decreases s.len(),
{
    if s.len() == 0 {
        Seq::empty()
    } else {
        let nl = find_char(s, 0, '\n');
        if nl < s.len() {
            proof {
                lemma_find_char_bounds(s, 0, '\n');
            }
            seq![strip_cr(s.subrange(0, nl))] + text_lines(s.subrange(nl + 1, s.len() as int))
        } else {
            seq![s]
        }
    }
}

/// The name and id of a database line, when it has at least three
/// `:`-separated fields and its third field is a `u32`.
pub open spec fn entry_of(line: Seq<char>) -> Option<(Seq<char>, u32)> {
    let c1 = find_char(line, 0, ':');
    if c1 >= line.len() {
        None
    } else {
        let c2 = find_char(line, c1 + 1, ':');
        if c2 >= line.len() {
            None
        } else {
            let c3 = find_char(line, c2 + 1, ':');
            match spec_parse_u32(line.subrange(c2 + 1, c3)) {
                Some(v) => Some((line.subrange(0, c1), v)),
                None => None,
            }
        }
    }
}

/// The name for `id` in a list of database lines: that of the first
/// well-formed entry with this id. Lines that are not well-formed entries
/// (blank lines, comments, a non-numeric id) are passed over.
pub open spec fn lookup_lines(lines: Seq<Seq<char>>, id: u32) -> Option<Seq<char>>
    decreases lines.len(),
{
    if lines.len() == 0 {
        None
    } else {
        match entry_of(lines[0]) {
            None => lookup_lines(lines.drop_first(), id),
            Some((name, eid)) => if eid == id {
                Some(name)
            } else {
                lookup_lines(lines.drop_first(), id)
            },
        }
    }
}

/// The name shown for `id`: the one the database gives, else the number.
pub open spec fn name_or_id(text: Seq<char>, id: u32) -> Seq<char> {
    match lookup_lines(text_lines(text), id) {
        Some(n) => n,
        None => decimal(id as nat),
    }
}

/// Reads the entry on the line `from..to` of `s`.
fn entry_at(s: &Vec<char>, from: usize, to: usize) -> (res: Option<(String, u32)>)
    requires
        from <= to <= s.len(),
    ensures
        match res {
            Some((n, v)) => entry_of(s@.subrange(from as int, to as int)) == Some((n@, v)),
            None => entry_of(s@.subrange(from as int, to as int)) is None,
        },
{
    let line = chars_of_range(s, from, to);
    proof {
        lemma_find_char_bounds(line@, 0, ':');
    }
    let c1 = find_char_exec(&line, 0, ':');
    if c1 >= line.len() {
        return None;
    }
    proof {
        lemma_find_char_bounds(line@, c1 + 1, ':');
    }
    let c2 = find_char_exec(&line, c1 + 1, ':');
    if c2 >= line.len() {
        return None;
    }
    proof {
        lemma_find_char_bounds(line@, c2 + 1, ':');
    }
    let c3 = find_char_exec(&line, c2 + 1, ':');
    let third = string_of_range(&line, c2 + 1, c3);
    match parse_u32(third.as_str()) {
        Some(v) => Some((string_of_range(&line, 0, c1), v)),
        None => None,
    }
}

/// Finds the name of `id` in the text of a passwd/group database, reading
/// line by line as described by `lookup_lines`.
pub fn lookup(contents: &str, id: u32) -> (res: Option<String>)
    ensures
        match res {
            Some(n) => lookup_lines(text_lines(contents@), id) == Some(n@),
            None => lookup_lines(text_lines(contents@), id) is None,
        },
{
    let s = chars_of(contents);
    let mut pos: usize = 0;
    assert(s@.subrange(0, s@.len() as int) =~= s@);
    while pos < s.len()
        invariant
            pos <= s.len(),
            s@ == contents@,
            lookup_lines(text_lines(s@), id) == lookup_lines(text_lines(s@.subrange(pos as int, s@.len() as int)), id),
        decreases s.len() - pos,
    {
        let ghost rest = s@.subrange(pos as int, s@.len() as int);
        let ghost head = s@.subrange(0, pos as int);
        proof {
            assert(s@ =~= head + rest);
            lemma_find_char_shift(head, rest, 0, '\n');
            lemma_find_char_bounds(s@, pos as int, '\n');
        }
        let nl = find_char_exec(&s, pos, '\n');
        let mut end = nl;
        if nl < s.len() && end > pos && s[end - 1] == '\r' {
            end = end - 1;
        }
        let ghost line = if nl < s.len() { strip_cr(rest.subrange(0, nl - pos)) } else { rest };
        proof {
            assert(rest.subrange(0, nl - pos) =~= s@.subrange(pos as int, nl as int));
            if nl < s.len() {
                if nl > pos && s@[nl - 1] == '\r' {
                    assert(s@.subrange(pos as int, nl as int).drop_last() =~= s@.subrange(pos as int, end as int));
                }
                assert(line =~= s@.subrange(pos as int, end as int));
                assert(rest.subrange(nl - pos + 1, rest.len() as int) =~= s@.subrange(nl + 1, s@.len() as int));
                assert(text_lines(rest) == seq![line] + text_lines(s@.subrange(nl + 1, s@.len() as int)));
                assert((seq![line] + text_lines(s@.subrange(nl + 1, s@.len() as int))).drop_first()
                    =~= text_lines(s@.subrange(nl + 1, s@.len() as int)));
            } else {
                assert(line =~= s@.subrange(pos as int, end as int));
                assert(text_lines(rest) == seq![line]);
                assert(seq![line].drop_first() =~= Seq::<Seq<char>>::empty());
                assert(s@.subrange(s@.len() as int, s@.len() as int) =~= Seq::<char>::empty());
            }
        }
        match entry_at(&s, pos, end) {
            None => {},
            Some((name, eid)) => {
                if eid == id {
                    return Some(name);
                }
            },
        }
        pos = if nl < s.len() {
            nl + 1
        } else {
            s.len()
        };
    }
    assert(s@.subrange(pos as int, s@.len() as int) =~= Seq::<char>::empty());
    None
}

/// The user name for `uid` in the text of /etc/passwd, falling back to the
/// numeric id.
pub fn user_name(passwd: &str, uid: u32) -> (res: String)
    ensures
        res@ == name_or_id(passwd@, uid),
{
    match lookup(passwd, uid) {
        Some(n) => n,
        None => u64_to_string(uid as u64),
    }
}

/// The group name for `gid` in the text of /etc/group, falling back to the
/// numeric id.
pub fn group_name(group: &str, gid: u32) -> (res: String)
    ensures
        res@ == name_or_id(group@, gid),
{
    match lookup(group, gid) {
        Some(n) => n,
        None => u64_to_string(gid as u64),
    }
}

/// Law: a database whose first line is the entry `name:pw:id` gives `name`
/// for `id`, whatever lines follow.
pub proof fn law_first_entry_found(name: Seq<char>, pw: Seq<char>, id: u32, rest: Seq<char>)
    requires
        !name.contains(':'),
        !name.contains('\n'),
        !pw.contains(':'),
        !pw.contains('\n'),
    ensures
        name_or_id(name + seq![':'] + pw + seq![':'] + decimal(id as nat) + seq!['\n'] + rest, id) == name,
{
    let d = decimal(id as nat);
    crate::num::lemma_decimal_digits(id as nat);
    crate::num::law_u32_decimal_round_trip(id);
    let line = name + seq![':'] + pw + seq![':'] + d;
    let s = line + seq!['\n'] + rest;
    assert(name + seq![':'] + pw + seq![':'] + d + seq!['\n'] + rest =~= s);
    // The first line ends at the newline after the id.
    assert forall|k: int| 0 <= k < line.len() implies s[k] != '\n' by {
        assert(s[k] == line[k]);
        if k < name.len() {
            assert(line[k] == name[k]);
            if name[k] == '\n' {
                assert(name.contains('\n'));
            }
        } else if k == name.len() {
        } else if k < name.len() + 1 + pw.len() {
            assert(line[k] == pw[k - name.len() - 1]);
            if pw[k - name.len() - 1] == '\n' {
                assert(pw.contains('\n'));
            }
        } else if k == name.len() + 1 + pw.len() {
        } else {
            let j = k - name.len() - 2 - pw.len();
            assert(line[k] == d[j]);
            assert(crate::num::is_digit(d[j]));
        }
    }
    crate::text::lemma_find_char_skips(s, 0, line.len() as int, '\n');
    assert(s.subrange(0, line.len() as int) =~= line);
    let last = line[line.len() - 1];
    assert(last == d[d.len() - 1]);
    assert(crate::num::is_digit(d[d.len() - 1]));
    assert(strip_cr(line) == line);
    assert(text_lines(s)[0] == line);
    // Its fields are the name, the password and the id.
    assert forall|k: int| 0 <= k < name.len() implies line[k] != ':' by {
        assert(line[k] == name[k]);
        if name[k] == ':' {
            assert(name.contains(':'));
        }
    }
    crate::text::lemma_find_char_skips(line, 0, name.len() as int, ':');
    let c2: int = (name.len() + 1 + pw.len()) as int;
    assert forall|k: int| name.len() + 1 <= k < c2 implies line[k] != ':' by {
        assert(line[k] == pw[k - name.len() - 1]);
        if pw[k - name.len() - 1] == ':' {
            assert(pw.contains(':'));
        }
    }
    crate::text::lemma_find_char_skips(line, (name.len() + 1) as int, c2, ':');
    assert forall|k: int| c2 + 1 <= k < line.len() implies line[k] != ':' by {
        assert(line[k] == d[k - c2 - 1]);
        assert(crate::num::is_digit(d[k - c2 - 1]));
    }
    crate::text::lemma_find_char_bounds(line, c2 + 1, ':');
    assert(crate::text::find_char(line, c2 + 1, ':') == line.len());
    assert(line.subrange(c2 + 1, line.len() as int) =~= d);
    assert(line.subrange(0, name.len() as int) =~= name);
    assert(entry_of(line) == Some((name, id)));
}

/// Law: a line that is not a well-formed entry changes no lookup: the
/// search passes over it to the lines after it.
pub proof fn law_non_entry_line_passed_over(line: Seq<char>, rest: Seq<Seq<char>>, id: u32)
    requires
        entry_of(line) is None,
    ensures
        lookup_lines(seq![line] + rest, id) == lookup_lines(rest, id),
{
    assert((seq![line] + rest).drop_first() =~= rest);
}

/// Law: a blank line at the head of a database changes no name: the name
/// shown for `id` is the one the lines after it give.
pub proof fn law_blank_line_passed_over(rest: Seq<char>, id: u32)
    ensures
        name_or_id(seq!['\n'] + rest, id) == name_or_id(rest, id),
{
    let s = seq!['\n'] + rest;
    crate::text::lemma_find_char_bounds(s, 0, '\n');
    assert(find_char(s, 0, '\n') == 0);
    assert(s.subrange(1, s.len() as int) =~= rest);
    assert(s.subrange(0, 0) =~= Seq::<char>::empty());
    assert(strip_cr(Seq::<char>::empty()) =~= Seq::<char>::empty());
    assert(entry_of(Seq::<char>::empty()) is None) by {
        crate::text::lemma_find_char_bounds(Seq::<char>::empty(), 0, ':');
    }
    assert(text_lines(s) == seq![Seq::<char>::empty()] + text_lines(rest));
    law_non_entry_line_passed_over(Seq::<char>::empty(), text_lines(rest), id);
}

/// The fields of an entry line `name:pw:id:more`.
proof fn lemma_entry_of_fields(name: Seq<char>, pw: Seq<char>, id: u32, more: Seq<char>)
    requires
        !name.contains(':'),
        !pw.contains(':'),
    ensures
        entry_of(name + seq![':'] + pw + seq![':'] + decimal(id as nat) + seq![':'] + more) == Some((name, id)),
{
    let d = decimal(id as nat);
    crate::num::lemma_decimal_digits(id as nat);
    crate::num::law_u32_decimal_round_trip(id);
    let line = name + seq![':'] + pw + seq![':'] + d + seq![':'] + more;
    let c1 = name.len() as int;
    let c2 = (name.len() + 1 + pw.len()) as int;
    let c3 = c2 + 1 + d.len();
    assert(line[c1] == ':');
    assert(line[c2] == ':');
    assert(line[c3] == ':');
    assert forall|k: int| 0 <= k < c1 implies line[k] != ':' by {
        assert(line[k] == name[k]);
        if name[k] == ':' {
            assert(name.contains(':'));
        }
    }
    crate::text::lemma_find_char_skips(line, 0, c1, ':');
    assert forall|k: int| c1 + 1 <= k < c2 implies line[k] != ':' by {
        assert(line[k] == pw[k - c1 - 1]);
        if pw[k - c1 - 1] == ':' {
            assert(pw.contains(':'));
        }
    }
    crate::text::lemma_find_char_skips(line, c1 + 1, c2, ':');
    assert forall|k: int| c2 + 1 <= k < c3 implies line[k] != ':' by {
        assert(line[k] == d[k - c2 - 1]);
        assert(crate::num::is_digit(d[k - c2 - 1]));
    }
    crate::text::lemma_find_char_skips(line, c2 + 1, c3, ':');
    assert(line.subrange(c2 + 1, c3) =~= d);
    assert(line.subrange(0, c1) =~= name);
}

/// Law: an entry `name:pw:id:...` is found for `id` whatever fields follow
/// the id (the gid, the comment, the home directory, the shell): only the
/// third field is the id.
pub proof fn law_entry_found_before_more_fields(
    name: Seq<char>,
    pw: Seq<char>,
    id: u32,
    more: Seq<char>,
    rest: Seq<char>,
)
    requires
        !name.contains(':'),
        !name.contains('\n'),
        !pw.contains(':'),
        !pw.contains('\n'),
        !more.contains('\n'),
    ensures
        name_or_id(
            name + seq![':'] + pw + seq![':'] + decimal(id as nat) + seq![':'] + more + seq!['\n'] + rest,
            id,
        ) == name,
{
    let d = decimal(id as nat);
    crate::num::lemma_decimal_digits(id as nat);
    let line = name + seq![':'] + pw + seq![':'] + d + seq![':'] + more;
    let s = line + seq!['\n'] + rest;
    assert(name + seq![':'] + pw + seq![':'] + d + seq![':'] + more + seq!['\n'] + rest =~= s);
    let c2 = (name.len() + 1 + pw.len()) as int;
    let c3 = c2 + 1 + d.len();
    // The first line ends at the newline after `more`.
    assert forall|k: int| 0 <= k < line.len() implies s[k] != '\n' by {
        assert(s[k] == line[k]);
        if k < name.len() {
            assert(line[k] == name[k]);
            if name[k] == '\n' {
                assert(name.contains('\n'));
            }
        } else if k == name.len() {
        } else if k < c2 {
            assert(line[k] == pw[k - name.len() - 1]);
            if pw[k - name.len() - 1] == '\n' {
                assert(pw.contains('\n'));
            }
        } else if k == c2 {
        } else if k < c3 {
            assert(line[k] == d[k - c2 - 1]);
            assert(crate::num::is_digit(d[k - c2 - 1]));
        } else if k == c3 {
        } else {
            assert(line[k] == more[k - c3 - 1]);
            if more[k - c3 - 1] == '\n' {
                assert(more.contains('\n'));
            }
        }
    }
    crate::text::lemma_find_char_skips(s, 0, line.len() as int, '\n');
    assert(s.subrange(0, line.len() as int) =~= line);
    // Without a carriage return at its end the line is read as it is;
    // otherwise the return comes off the last field.
    if more.len() > 0 && more.last() == '\r' {
        assert(line.last() == '\r');
        let m2 = more.drop_last();
        assert(line.drop_last() =~= name + seq![':'] + pw + seq![':'] + d + seq![':'] + m2);
        lemma_entry_of_fields(name, pw, id, m2);
    } else {
        if more.len() == 0 {
            assert(line.last() == ':');
        } else {
            assert(line.last() == more.last());
        }
        lemma_entry_of_fields(name, pw, id, more);
    }
    assert(text_lines(s)[0] == strip_cr(line));
    assert(entry_of(text_lines(s)[0]) == Some((name, id)));
}

/// Law: a database is read line by line as std's `str::lines` reads it:
/// a line ends at `\n`, a `\r` just before the `\n` is dropped, and a last
/// line without `\n` counts too.
pub proof fn law_lines_of_text(a: Seq<char>, b: Seq<char>)
    requires
        !a.contains('\n'),
    ensures
        (a.len() == 0 || a.last() != '\r') ==> text_lines(a + seq!['\n'] + b) == seq![a] + text_lines(b),
        text_lines(a + seq!['\r', '\n'] + b) == seq![a] + text_lines(b),
        a.len() > 0 ==> text_lines(a) == seq![a],
        text_lines(Seq::<char>::empty()).len() == 0,
{
    assert forall|k: int| 0 <= k < a.len() implies a[k] != '\n' by {
        if a[k] == '\n' {
            assert(a.contains(a[k]));
        }
    }
    let n = a.len() as int;
    let s1 = a + seq!['\n'] + b;
    crate::text::lemma_find_char_skips(s1, 0, n, '\n');
    assert(s1.subrange(0, n) =~= a);
    assert(s1.subrange(n + 1, s1.len() as int) =~= b);
    let a2 = a.push('\r');
    let s2 = a + seq!['\r', '\n'] + b;
    assert(s2 =~= a2 + seq!['\n'] + b);
    crate::text::lemma_find_char_skips(s2, 0, n + 1, '\n');
    assert(s2.subrange(0, n + 1) =~= a2);
    assert(a2.drop_last() =~= a);
    assert(s2.subrange(n + 2, s2.len() as int) =~= b);
    if a.len() > 0 {
        lemma_find_char_bounds(a, 0, '\n');
    }
}

} // verus!
