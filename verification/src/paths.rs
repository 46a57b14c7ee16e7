//! Unix path conventions used when copying and moving: the last component of
//! a path, and joining a name onto a directory.
use vstd::prelude::*;
use crate::text::{chars_of, string_of_range};

verus! {

/// The last position before `end` that holds `c`, or -1.
pub open spec fn rfind_char(s: Seq<char>, end: int, c: char) -> int
    decreases end,
{
    if end <= 0 {
        -1
    } else if s[end - 1] == c {
        end - 1
    } else {
        rfind_char(s, end - 1, c)
    }
}

pub proof fn lemma_rfind_char_bounds(s: Seq<char>, end: int, c: char)
    ensures
        -1 <= rfind_char(s, end, c) < if end > 0 { end } else { 0 },
        rfind_char(s, end, c) >= 0 ==> s[rfind_char(s, end, c)] == c,
        forall|k: int| rfind_char(s, end, c) < k < end ==> s[k] != c,
    decreases end,
{
    if end > 0 && s[end - 1] != c {
        lemma_rfind_char_bounds(s, end - 1, c);
    }
}

/// The last component of the path `p[0..end]`, as std's `Path::file_name`
/// gives it: trailing `/` and `.` components are passed over; there is none
/// when the path is empty, is the root, or ends in `..`.
pub open spec fn file_name_upto(p: Seq<char>, end: int) -> Option<Seq<char>>
    decreases end,
{
    if end <= 0 || end > p.len() {
        None
    } else if p[end - 1] == '/' {
        file_name_upto(p, end - 1)
    } else {
        let start = rfind_char(p, end, '/') + 1;
        let seg = p.subrange(start, end);
        proof {
            lemma_rfind_char_bounds(p, end, '/');
        }
        if seg == "."@ {
            file_name_upto(p, start)
        } else if seg == ".."@ {
            None
        } else {
            Some(seg)
        }
    }
}

/// The last component of a path (see `file_name_upto`).
pub open spec fn file_name(p: Seq<char>) -> Option<Seq<char>> {
    file_name_upto(p, p.len() as int)
}

/// `name` joined onto `base` as std's `PathBuf::push` does: an absolute
/// `name` replaces `base`; otherwise a `/` is put between them unless `base`
/// is empty or already ends in one.
pub open spec fn join(base: Seq<char>, name: Seq<char>) -> Seq<char> {
    if name.len() > 0 && name[0] == '/' {
        name
    } else if base.len() == 0 || base.last() == '/' {
        base + name
    } else {
        base + seq!['/'] + name
    }
}

/// The last component of a path, as std's `Path::file_name` gives it.
pub fn path_file_name(path: &str) -> (res: Option<String>)
    ensures
        match res {
            Some(n) => file_name(path@) == Some(n@),
            None => file_name(path@) is None,
        },
{
    let p = chars_of(path);
    let mut end: usize = p.len();
    loop
        invariant
            end <= p.len(),
            p@ == path@,
            file_name(path@) == file_name_upto(p@, end as int),
        decreases end,
    {
        if end == 0 {
            return None;
        }
        if p[end - 1] == '/' {
            end = end - 1;
        } else {
            let mut start: usize = end - 1;
            while start > 0 && p[start - 1] != '/'
                invariant
                    start < end <= p.len(),
                    rfind_char(p@, start as int, '/') == rfind_char(p@, end as int, '/'),
                decreases start,
            {
                start = start - 1;
            }
            proof {
                reveal_strlit(".");
                reveal_strlit("..");
                lemma_rfind_char_bounds(p@, end as int, '/');
                assert(rfind_char(p@, end as int, '/') + 1 == start);
            }
            let seg_len = end - start;
            if seg_len == 1 && p[start] == '.' {
                assert(p@.subrange(start as int, end as int) =~= "."@);
                end = start;
            } else if seg_len == 2 && p[start] == '.' && p[start + 1] == '.' {
                assert(p@.subrange(start as int, end as int) =~= ".."@);
                return None;
            } else {
                proof {
                    let seg = p@.subrange(start as int, end as int);
                    if seg_len == 1 {
                        assert(seg[0] != '.');
                        assert(seg != "."@);
                    }
                    if seg_len == 2 {
                        assert(seg[0] != '.' || seg[1] != '.');
                        assert(seg != ".."@);
                    }
                    if seg_len != 1 {
                        assert(seg.len() != "."@.len());
                    }
                    if seg_len != 2 {
                        assert(seg.len() != ".."@.len());
                    }
                }
                return Some(string_of_range(&p, start, end));
            }
        }
    }
}

/// `name` joined onto `base`, as std's `Path::join` does.
pub fn path_join(base: &str, name: &str) -> (res: String)
    ensures
        res@ == join(base@, name@),
{
    let n = chars_of(name);
    if n.len() > 0 && n[0] == '/' {
        return String::from_str(name);
    }
    let b = chars_of(base);
    let mut res = String::from_str(base);
    if !(b.len() == 0 || b[b.len() - 1] == '/') {
        res.append("/");
        proof {
            reveal_strlit("/");
        }
    }
    res.append(name);
    assert(res@ =~= join(base@, name@));
    res
}

/// A name that is a single ordinary path component.
pub open spec fn is_plain_component(name: Seq<char>) -> bool {
    &&& name.len() > 0
    &&& !name.contains('/')
    &&& name != "."@
    &&& name != ".."@
}

/// Law: the last component of `dir` joined with a plain `name` is `name`, so
/// copying or moving `x/name` into a directory keeps its name.
pub proof fn law_file_name_of_join(dir: Seq<char>, name: Seq<char>)
    requires
        is_plain_component(name),
    ensures
        file_name(join(dir, name)) == Some(name),
{
    let j = join(dir, name);
    let start = j.len() - name.len();
    assert(name[0] != '/') by {
        assert(name.contains(name[0]));
    }
    assert(j.subrange(start, j.len() as int) =~= name);
    assert forall|k: int| start <= k < j.len() implies j[k] != '/' by {
        assert(j[k] == name[k - start]);
        if j[k] == '/' {
            assert(name.contains('/'));
        }
    }
    lemma_rfind_skips(j, j.len() as int, start);
    assert(j[j.len() - 1] == name[name.len() - 1]);
}

/// Scanning back over a stretch free of `/` ends just before it.
proof fn lemma_rfind_skips(s: Seq<char>, end: int, start: int)
    requires
        0 <= start <= end <= s.len(),
        start == 0 || s[start - 1] == '/',
        forall|k: int| start <= k < end ==> s[k] != '/',
    ensures
        rfind_char(s, end, '/') == start - 1,
    decreases end - start,
{
    if end > start {
        lemma_rfind_skips(s, end - 1, start);
    }
}

/// Law: joining puts exactly one `/` between a directory and a relative
/// name (none when the directory already ends in one or is empty), and an
/// absolute name stands alone.
pub proof fn law_join_separator(base: Seq<char>, name: Seq<char>)
    ensures
        (name.len() == 0 || name[0] != '/') && base.len() > 0 && base.last() != '/' ==> join(base, name) == base + seq![
            '/',
        ] + name,
        (name.len() == 0 || name[0] != '/') && base.len() > 0 && base.last() == '/' ==> join(base, name) == base + name,
        (name.len() == 0 || name[0] != '/') && base.len() == 0 ==> join(base, name) == name,
        name.len() > 0 && name[0] == '/' ==> join(base, name) == name,
{
    assert(Seq::<char>::empty() + name =~= name);
}

} // verus!
