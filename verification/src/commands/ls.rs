//! `ls [-l] [-a] [-F]`: list directory contents.
//!
//!   -l  long format (permissions, links, owner, group, size, mtime, name)
//!   -a  include entries starting with '.'
//!   -F  append an indicator (/ @ = | *) to entries
use vstd::prelude::*;
use vstd::utf8::encode_utf8;
use crate::args::{first_bad_option, find_bad_option, has_option, invalid_option, invalid_option_msg,
    is_option, operand_args, operands, option_given};
use crate::color::{colorize, colorized};
use crate::meta::{FileInfo, FileKind, is_executable, is_executable_exec};
use crate::num::{decimal, push_decimal, u64_to_string};
use crate::order::{is_stable_order, stable_order};
use crate::paths::{file_name, path_file_name};
use crate::text::{chars_of, pad_left, pad_right, push_char, push_pad_left, push_pad_right, repeat_char};
use crate::timefmt::{LocalTime, format_mtime, mtime_text};
use crate::userdb::{group_name, name_or_id, user_name};

verus! {

/// The flags of `ls`.
#[derive(Debug, Clone, Copy, PartialEq, Eq, Structural)]
pub struct LsFlags {
    /// `-l`: long format.
    pub long: bool,
    /// `-a`: show entries starting with `.`.
    pub all: bool,
    /// `-F`: append a type indicator.
    pub classify: bool,
}

/// A checked `ls` command line.
pub struct LsRequest {
    pub flags: LsFlags,
    /// The operands; `.` when none is given.
    pub paths: Vec<String>,
}

/// The option letters `ls` knows.
pub open spec fn ls_letters() -> Seq<char> {
    seq!['l', 'a', 'F']
}

/// What `ls` makes of its arguments: the first unknown option letter is an
/// error; the operands default to `.`.
pub open spec fn ls_accepts(args: Seq<String>, res: Result<LsRequest, String>) -> bool {
    match first_bad_option(args, ls_letters()) {
        Some(c) => res matches Err(m) && m@ == invalid_option_msg("ls"@, c),
        None => res matches Ok(r) && r.flags == (LsFlags {
            long: option_given(args, 'l'),
            all: option_given(args, 'a'),
            classify: option_given(args, 'F'),
        }) && (if operand_args(args).len() == 0 {
            r.paths@.len() == 1 && r.paths@[0]@ == "."@
        } else {
            r.paths@ == operand_args(args)
        }),
    }
}

/// Checks an `ls` command line.
pub fn run(args: &[String]) -> (res: Result<LsRequest, String>)
    ensures
        ls_accepts(args@, res),
{
    let mut letters: Vec<char> = Vec::new();
    letters.push('l');
    letters.push('a');
    letters.push('F');
    assert(letters@ =~= ls_letters());
    if let Some(c) = find_bad_option(args, &letters) {
        return Err(invalid_option("ls", c));
    }
    let flags = LsFlags {
        long: has_option(args, 'l'),
        all: has_option(args, 'a'),
        classify: has_option(args, 'F'),
    };
    let mut paths = operands(args);
    if paths.len() == 0 {
        paths.push(String::from_str("."));
    }
    Ok(LsRequest { flags, paths })
}

/// The lines printed before the listing of the `index`-th operand: with
/// several operands, a blank line between listings and the operand's name.
pub open spec fn section_header(path: Seq<char>, index: nat, multiple: bool) -> Seq<Seq<char>> {
    if !multiple {
        Seq::empty()
    } else if index == 0 {
        seq![path + ":"@]
    } else {
        seq![Seq::empty(), path + ":"@]
    }
}

/// The lines printed before the listing of one operand.
pub fn header(path: &str, index: usize, multiple: bool) -> (res: Vec<String>)
    ensures
        res@.map_values(|s: String| s@) == section_header(path@, index as nat, multiple),
{
    let mut res: Vec<String> = Vec::new();
    if multiple {
        if index > 0 {
            res.push(String::new());
        }
        let mut h = String::from_str(path);
        h.append(":");
        res.push(h);
    }
    assert(res@.map_values(|s: String| s@) =~= section_header(path@, index as nat, multiple));
    res
}

/// A directory entry to be listed.
pub struct Entry {
    /// The name as shown.
    pub display: String,
    /// The name the listing is sorted by.
    pub file_name: String,
    pub info: FileInfo,
    /// The local broken-down time of the modification time, if known.
    pub local_mtime: Option<LocalTime>,
}

/// Whether a directory entry is listed: hidden names only with `-a`.
pub open spec fn shows(file_name: Seq<char>, all: bool) -> bool {
    all || !(file_name.len() > 0 && file_name[0] == '.')
}

/// Whether a directory entry is listed: hidden names only with `-a`.
pub fn shows_entry(file_name: &str, all: bool) -> (res: bool)
    ensures
        res == shows(file_name@, all),
{
    if all {
        return true;
    }
    let cs = chars_of(file_name);
    !(cs.len() > 0 && cs[0] == '.')
}

// ---------------------------------------------------------------------------
// Sorting
// ---------------------------------------------------------------------------

/// The lower-case form of a string, as std's `str::to_lowercase` gives it.
pub uninterp spec fn lowercase(s: Seq<char>) -> Seq<char>;

/// The lower-case form of an ASCII character: `A`..`Z` become `a`..`z`.
pub open spec fn ascii_lower(c: char) -> char {
    if 'A' <= c && c <= 'Z' {
        ((c as u32) + 32) as char
    } else {
        c
    }
}

/// Every character of `s` is ASCII.
pub open spec fn all_ascii(s: Seq<char>) -> bool {
    forall|k: int| 0 <= k < s.len() ==> (#[trigger] s[k] as u32) < 128
}

/// std's `str::to_lowercase`: the Unicode lower-case mapping of a string.
/// Its result is named by `lowercase`. Stated beyond that: the empty string
/// maps to the empty string, and an ASCII string maps character by character
/// to its ASCII lower case (the Unicode mapping of ASCII letters). What it
/// does to other characters is left unsaid.
#[verifier::external_body]
fn to_lowercase(s: &str) -> (res: String)
    ensures
        res@ == lowercase(s@),
        s@.len() == 0 ==> res@.len() == 0,
        all_ascii(s@) ==> res@ == s@.map_values(|c: char| ascii_lower(c)),
{
    s.to_lowercase()
}

/// A name without its leading dots.
pub open spec fn skip_dots(s: Seq<char>) -> Seq<char>
    decreases s.len(),
{
    if s.len() > 0 && s[0] == '.' {
        skip_dots(s.drop_first())
    } else {
        s
    }
}

/// The key names are sorted by: without leading dots, in lower case.
pub open spec fn sort_key_of(name: Seq<char>) -> Seq<char> {
    lowercase(skip_dots(name))
}

/// The key a name is sorted by.
pub fn sort_key(name: &str) -> (res: String)
    ensures
        res@ == sort_key_of(name@),
        skip_dots(name@).len() == 0 ==> res@.len() == 0,
        all_ascii(skip_dots(name@)) ==> res@ == skip_dots(name@).map_values(|c: char| ascii_lower(c)),
{
    let cs = chars_of(name);
    let mut k: usize = 0;
    assert(cs@.skip(0) =~= cs@);
    while k < cs.len() && cs[k] == '.'
        invariant
            k <= cs.len(),
            cs@ == name@,
            skip_dots(name@) == skip_dots(cs@.skip(k as int)),
        decreases cs.len() - k,
    {
        assert(cs@.skip(k as int).drop_first() =~= cs@.skip(k + 1));
        k = k + 1;
    }
    let trimmed = crate::text::string_of_range(&cs, k, cs.len());
    assert(cs@.subrange(k as int, cs@.len() as int) =~= cs@.skip(k as int));
    to_lowercase(trimmed.as_str())
}

/// The sort keys of a list of entries.
pub open spec fn entry_keys(es: Seq<Entry>) -> Seq<Seq<char>> {
    es.map_values(|e: Entry| sort_key_of(e.file_name@))
}

/// The first two entries are `.` and `..`, as `-a` lists them.
pub open spec fn dots_lead(es: Seq<Entry>) -> bool {
    es.len() >= 2 && es[0].file_name@ == seq!['.'] && es[1].file_name@ == seq!['.', '.']
}

/// The order entries are listed in: by sort key, ties in the order given.
/// `.` and `..`, given first, stay first: their key is empty.
pub fn listing_order(entries: &Vec<Entry>) -> (order: Vec<usize>)
    ensures
        is_stable_order(entry_keys(entries@), order@),
        dots_lead(entries@) ==> order@[0] == 0 && order@[1] == 1,
{
    let mut keys: Vec<Vec<char>> = Vec::new();
    let mut i: usize = 0;
    while i < entries.len()
        invariant
            i <= entries.len(),
            keys.len() == i,
            forall|k: int| 0 <= k < i ==> #[trigger] keys@[k]@ == sort_key_of(entries@[k].file_name@),
            forall|k: int|
                0 <= k < i ==> skip_dots(entries@[k].file_name@).len() == 0 ==> (#[trigger] keys@[k]@).len()
                    == 0,
        decreases entries.len() - i,
    {
        let key = sort_key(entries[i].file_name.as_str());
        keys.push(chars_of(key.as_str()));
        i = i + 1;
    }
    assert(keys@.map_values(|k: Vec<char>| k@) =~= entry_keys(entries@));
    proof {
        if dots_lead(entries@) {
            let ghost kv = keys@.map_values(|k: Vec<char>| k@);
            assert(skip_dots(seq!['.']) =~= skip_dots(seq!['.'].drop_first()));
            assert(seq!['.'].drop_first().len() == 0);
            assert(seq!['.', '.'].drop_first() =~= seq!['.']);
            assert(skip_dots(seq!['.', '.']).len() == 0);
            assert(kv[0].len() == 0 && kv[1].len() == 0);
        }
    }
    let order = stable_order(&keys);
    proof {
        if dots_lead(entries@) {
            let ghost kv = keys@.map_values(|k: Vec<char>| k@);
            crate::order::law_empty_keys_lead(kv, order@, 2);
        }
    }
    order
}

// ---------------------------------------------------------------------------
// Columns
// ---------------------------------------------------------------------------

/// Whether bits of `mask` are set in `mode`.
pub open spec fn has_bits(mode: u32, mask: u32) -> bool {
    mode & mask != 0
}

/// The first character of the permission string: the file type.
pub open spec fn type_char(kind: FileKind) -> char {
    match kind {
        FileKind::Directory => 'd',
        FileKind::Symlink => 'l',
        FileKind::CharDevice => 'c',
        FileKind::BlockDevice => 'b',
        FileKind::Fifo => 'p',
        FileKind::Socket => 's',
        _ => '-',
    }
}

/// The execute column: `x`, or the special-bit letter (lower case when the
/// execute bit is set too, upper case when not).
pub open spec fn exec_char(exec: bool, special: bool, lc: char, uc: char) -> char {
    if special {
        if exec {
            lc
        } else {
            uc
        }
    } else if exec {
        'x'
    } else {
        '-'
    }
}

/// The 10-character permission string, e.g. `drwxr-xr-x`, honouring the
/// setuid, setgid and sticky bits.
pub open spec fn perm_text(kind: FileKind, mode: u32) -> Seq<char> {
    seq![
        type_char(kind),
        if has_bits(mode, 0o400) { 'r' } else { '-' },
        if has_bits(mode, 0o200) { 'w' } else { '-' },
        exec_char(has_bits(mode, 0o100), has_bits(mode, 0o4000), 's', 'S'),
        if has_bits(mode, 0o040) { 'r' } else { '-' },
        if has_bits(mode, 0o020) { 'w' } else { '-' },
        exec_char(has_bits(mode, 0o010), has_bits(mode, 0o2000), 's', 'S'),
        if has_bits(mode, 0o004) { 'r' } else { '-' },
        if has_bits(mode, 0o002) { 'w' } else { '-' },
        exec_char(has_bits(mode, 0o001), has_bits(mode, 0o1000), 't', 'T'),
    ]
}

fn type_char_exec(kind: FileKind) -> (res: char)
    ensures
        res == type_char(kind),
{
    match kind {
        FileKind::Directory => 'd',
        FileKind::Symlink => 'l',
        FileKind::CharDevice => 'c',
        FileKind::BlockDevice => 'b',
        FileKind::Fifo => 'p',
        FileKind::Socket => 's',
        _ => '-',
    }
}

fn exec_char_exec(exec: bool, special: bool, lc: char, uc: char) -> (res: char)
    ensures
        res == exec_char(exec, special, lc, uc),
{
    match (special, exec) {
        (true, true) => lc,
        (true, false) => uc,
        (false, true) => 'x',
        (false, false) => '-',
    }
}

/// The three characters for one class of users.
pub open spec fn triple(mode: u32, r: u32, w: u32, x: u32, special: u32, lc: char, uc: char) -> Seq<char> {
    seq![
        if has_bits(mode, r) { 'r' } else { '-' },
        if has_bits(mode, w) { 'w' } else { '-' },
        exec_char(has_bits(mode, x), has_bits(mode, special), lc, uc),
    ]
}

fn push_triple(s: &mut String, mode: u32, r: u32, w: u32, x: u32, special: u32, lc: char, uc: char)
    ensures
        final(s)@ == old(s)@ + triple(mode, r, w, x, special, lc, uc),
{
    push_char(s, if mode & r != 0 { 'r' } else { '-' });
    push_char(s, if mode & w != 0 { 'w' } else { '-' });
    push_char(s, exec_char_exec(mode & x != 0, mode & special != 0, lc, uc));
    assert(final(s)@ =~= old(s)@ + triple(mode, r, w, x, special, lc, uc));
}

/// Builds the 10-character permission string, e.g. `drwxr-xr-x`.
pub fn perm_string(kind: FileKind, mode: u32) -> (res: String)
    ensures
        res@ == perm_text(kind, mode),
        res@.len() == 10,
{
    let mut s = String::new();
    push_char(&mut s, type_char_exec(kind));
    push_triple(&mut s, mode, 0o400, 0o200, 0o100, 0o4000, 's', 'S');
    push_triple(&mut s, mode, 0o040, 0o020, 0o010, 0o2000, 's', 'S');
    push_triple(&mut s, mode, 0o004, 0o002, 0o001, 0o1000, 't', 'T');
    assert(s@ =~= perm_text(kind, mode));
    s
}

/// The major number of a device: bits 8..20 of `rdev`.
pub open spec fn dev_major(rdev: u64) -> nat {
    ((rdev as nat) / 256) % 4096
}

/// The minor number of a device: the low byte of `rdev`, then bits 20..32
/// above it.
pub open spec fn dev_minor(rdev: u64) -> nat {
    (rdev as nat) % 256 + 256 * (((rdev as nat) / 1048576) % 4096)
}

/// The size column: `major, minor` for devices, else the size in bytes.
pub open spec fn size_text(kind: FileKind, size: u64, rdev: u64) -> Seq<char> {
    if kind == FileKind::CharDevice || kind == FileKind::BlockDevice {
        decimal(dev_major(rdev)) + ", "@ + decimal(dev_minor(rdev))
    } else {
        decimal(size as nat)
    }
}

/// Renders the size column.
pub fn size_field(kind: FileKind, size: u64, rdev: u64) -> (res: String)
    ensures
        res@ == size_text(kind, size, rdev),
{
    if kind == FileKind::CharDevice || kind == FileKind::BlockDevice {
        let major = (rdev >> 8) & 0xfff;
        let minor = (rdev & 0xff) | ((rdev >> 12) & 0xfff00);
        assert((rdev >> 8) & 0xfff == (rdev / 256) % 4096) by (bit_vector);
        assert((rdev & 0xff) | ((rdev >> 12) & 0xfff00) == rdev % 256 + 256 * ((rdev / 1048576) % 4096)) by (bit_vector);
        let mut s = String::new();
        push_decimal(&mut s, major);
        s.append(", ");
        push_decimal(&mut s, minor);
        assert(s@ =~= size_text(kind, size, rdev));
        s
    } else {
        u64_to_string(size)
    }
}

/// The indicator `-F` appends.
pub open spec fn classify_suffix(kind: FileKind, mode: u32) -> Seq<char> {
    if kind == FileKind::Directory {
        "/"@
    } else if kind == FileKind::Symlink {
        "@"@
    } else if kind == FileKind::Socket {
        "="@
    } else if kind == FileKind::Fifo {
        "|"@
    } else if is_executable(kind, mode) {
        "*"@
    } else {
        ""@
    }
}

/// The name as shown: colored on a terminal, with the `-F` indicator.
pub open spec fn decorated(e: Entry, flags: LsFlags, is_tty: bool) -> Seq<char> {
    colorized(e.display@, is_tty, e.info.kind, e.info.mode) + if flags.classify {
        classify_suffix(e.info.kind, e.info.mode)
    } else {
        ""@
    }
}

/// Builds the name as shown, with optional `-F` indicator and color.
pub fn decorated_name(e: &Entry, flags: LsFlags, is_tty: bool) -> (res: String)
    ensures
        res@ == decorated(*e, flags, is_tty),
{
    let kind = e.info.kind;
    let mode = e.info.mode;
    let suffix = if flags.classify {
        if kind == FileKind::Directory {
            "/"
        } else if kind == FileKind::Symlink {
            "@"
        } else if kind == FileKind::Socket {
            "="
        } else if kind == FileKind::Fifo {
            "|"
        } else if is_executable_exec(kind, mode) {
            "*"
        } else {
            ""
        }
    } else {
        ""
    };
    let mut s = colorize(e.display.as_str(), is_tty, kind, mode);
    s.append(suffix);
    s
}

// ---------------------------------------------------------------------------
// Listing
// ---------------------------------------------------------------------------

/// The entries in the given order.
pub open spec fn in_order(es: Seq<Entry>, order: Seq<usize>) -> Seq<Entry> {
    order.map_values(|k: usize| es[k as int])
}

/// Sum of the allocated blocks.
pub open spec fn total_blocks(es: Seq<Entry>) -> nat
    decreases es.len(),
{
    if es.len() == 0 {
        0
    } else {
        total_blocks(es.drop_last()) + es.last().info.blocks as nat
    }
}

/// The width of a column: the largest length in bytes of its texts.
pub open spec fn column_width(texts: Seq<Seq<char>>) -> nat
    decreases texts.len(),
{
    if texts.len() == 0 {
        0
    } else {
        let w = column_width(texts.drop_last());
        let b = encode_utf8(texts.last()).len();
        if b > w {
            b
        } else {
            w
        }
    }
}

/// The columns of a long listing, for the text of /etc/passwd and /etc/group.
pub struct Tables {
    pub passwd: String,
    pub group: String,
}

/// Link count column.
pub open spec fn links_col(e: Entry) -> Seq<char> {
    decimal(e.info.nlink as nat)
}

/// Owner column.
pub open spec fn owner_col(e: Entry, t: Tables) -> Seq<char> {
    name_or_id(t.passwd@, e.info.uid)
}

/// Group column.
pub open spec fn group_col(e: Entry, t: Tables) -> Seq<char> {
    name_or_id(t.group@, e.info.gid)
}

/// Size column.
pub open spec fn size_col(e: Entry) -> Seq<char> {
    size_text(e.info.kind, e.info.size, e.info.rdev)
}

/// One row of the long listing, with the column widths given.
pub open spec fn long_row(e: Entry, flags: LsFlags, is_tty: bool, now: Option<i64>, t: Tables, lw: nat, ow: nat, gw: nat, sw: nat) -> Seq<char> {
    perm_text(e.info.kind, e.info.mode) + " "@ + pad_left(links_col(e), lw, ' ') + " "@ + pad_right(owner_col(e, t), ow)
        + " "@ + pad_right(group_col(e, t), gw) + " "@ + pad_left(size_col(e), sw, ' ') + " "@ + mtime_text(
        e.info.mtime,
        now,
        e.local_mtime,
    ) + " "@ + decorated(e, flags, is_tty)
}

/// Texts joined into one, two spaces between neighbours.
pub open spec fn joined(texts: Seq<Seq<char>>) -> Seq<char>
    decreases texts.len(),
{
    if texts.len() == 0 {
        Seq::empty()
    } else if texts.len() == 1 {
        texts[0]
    } else {
        joined(texts.drop_last()) + "  "@ + texts.last()
    }
}

/// The lines of a listing of `entries` shown in the given order (which lists
/// every entry once): all names on one line, two spaces apart (no line when
/// there is no entry), or with `-l` the `total` line (half the allocated
/// 512-byte blocks, in 1K units) and one row per entry.
pub open spec fn listing_lines(entries: Seq<Entry>, order: Seq<usize>, flags: LsFlags, is_tty: bool, now: Option<i64>, t: Tables) -> Seq<Seq<char>> {
    let es = in_order(entries, order);
    if flags.long {
        let lw = column_width(es.map_values(|e: Entry| links_col(e)));
        let ow = column_width(es.map_values(|e: Entry| owner_col(e, t)));
        let gw = column_width(es.map_values(|e: Entry| group_col(e, t)));
        let sw = column_width(es.map_values(|e: Entry| size_col(e)));
        seq!["total "@ + decimal(total_blocks(entries) / 2)] + es.map_values(
            |e: Entry| long_row(e, flags, is_tty, now, t, lw, ow, gw, sw),
        )
    } else if es.len() == 0 {
        Seq::empty()
    } else {
        seq![joined(es.map_values(|e: Entry| decorated(e, flags, is_tty)))]
    }
}

/// The times of all entries can be compared with `now` without overflow.
pub open spec fn times_in_range(es: Seq<Entry>, clock: Option<i64>) -> bool {
    forall|k: int|
        0 <= k < es.len() ==> (clock matches Some(now) ==> i64::MIN < now - #[trigger] es[k].info.mtime <= i64::MAX)
}

proof fn lemma_total_blocks_prefix(es: Seq<Entry>, i: int)
    requires
        0 <= i <= es.len(),
    ensures
        total_blocks(es.take(i)) <= total_blocks(es),
    decreases es.len() - i,
{
    if i < es.len() {
        lemma_total_blocks_prefix(es, i + 1);
        assert(es.take(i + 1).drop_last() =~= es.take(i));
    } else {
        assert(es.take(i) =~= es);
    }
}

/// The width of a column of strings.
fn width_of(texts: &Vec<String>) -> (res: usize)
    ensures
        res == column_width(texts@.map_values(|s: String| s@)),
{
    let ghost tv = texts@.map_values(|s: String| s@);
    let mut w: usize = 0;
    let mut i: usize = 0;
    while i < texts.len()
        invariant
            i <= texts.len(),
            tv == texts@.map_values(|s: String| s@),
            w == column_width(tv.take(i as int)),
        decreases texts.len() - i,
    {
        assert(tv.take(i + 1).drop_last() =~= tv.take(i as int));
        assert(tv.take(i + 1).last() == texts@[i as int]@);
        let b = texts[i].as_str().as_bytes().len();
        if b > w {
            w = b;
        }
        i = i + 1;
    }
    assert(tv.take(i as int) =~= tv);
    w
}

/// Renders the listing of entries in the given order: the names on one line,
/// or with `-l` the `total` line and one row per entry with aligned columns.
pub fn render(
    entries: &Vec<Entry>,
    order: &Vec<usize>,
    flags: LsFlags,
    is_tty: bool,
    now: Option<i64>,
    tables: &Tables,
) -> (res: Vec<String>)
    requires
        forall|k: int| 0 <= k < order.len() ==> #[trigger] order@[k] < entries.len(),
        flags.long ==> times_in_range(entries@, now),
        flags.long ==> total_blocks(entries@) <= u64::MAX,
    ensures
        res@.map_values(|s: String| s@) == listing_lines(entries@, order@, flags, is_tty, now, *tables),
{
    let ghost es = in_order(entries@, order@);
    let mut lines: Vec<String> = Vec::new();
    if !flags.long {
        if order.len() == 0 {
            return lines;
        }
        let ghost names = es.map_values(|e: Entry| decorated(e, flags, is_tty));
        let mut line = String::new();
        let mut i: usize = 0;
        while i < order.len()
            invariant
                i <= order.len(),
                es == in_order(entries@, order@),
                names == es.map_values(|e: Entry| decorated(e, flags, is_tty)),
                forall|k: int| 0 <= k < order.len() ==> #[trigger] order@[k] < entries.len(),
                line@ == joined(names.take(i as int)),
            decreases order.len() - i,
        {
            let name = decorated_name(&entries[order[i]], flags, is_tty);
            if i > 0 {
                line.append("  ");
            }
            line.append(name.as_str());
            assert(names.take(i + 1).drop_last() =~= names.take(i as int));
            assert(names.take(i + 1).last() == names[i as int]);
            i = i + 1;
        }
        assert(names.take(i as int) =~= names);
        lines.push(line);
        assert(lines@.map_values(|s: String| s@) =~= listing_lines(entries@, order@, flags, is_tty, now, *tables));
        return lines;
    }
    // Long format: the total of allocated blocks, then the columns, whose
    // widths must be known before any row is built.
    let mut total: u64 = 0;
    let mut b: usize = 0;
    while b < entries.len()
        invariant
            b <= entries.len(),
            total_blocks(entries@) <= u64::MAX,
            total == total_blocks(entries@.take(b as int)),
        decreases entries.len() - b,
    {
        proof {
            assert(entries@.take(b + 1).drop_last() =~= entries@.take(b as int));
            lemma_total_blocks_prefix(entries@, b + 1);
        }
        total = total + entries[b].info.blocks;
        b = b + 1;
    }
    assert(entries@.take(b as int) =~= entries@);
    let mut links: Vec<String> = Vec::new();
    let mut owners: Vec<String> = Vec::new();
    let mut groups: Vec<String> = Vec::new();
    let mut sizes: Vec<String> = Vec::new();
    let mut i: usize = 0;
    while i < order.len()
        invariant
            i <= order.len(),
            es == in_order(entries@, order@),
            forall|k: int| 0 <= k < order.len() ==> #[trigger] order@[k] < entries.len(),
            links.len() == i,
            owners.len() == i,
            groups.len() == i,
            sizes.len() == i,
            forall|k: int| 0 <= k < i ==> #[trigger] links@[k]@ == links_col(es[k]),
            forall|k: int| 0 <= k < i ==> #[trigger] owners@[k]@ == owner_col(es[k], *tables),
            forall|k: int| 0 <= k < i ==> #[trigger] groups@[k]@ == group_col(es[k], *tables),
            forall|k: int| 0 <= k < i ==> #[trigger] sizes@[k]@ == size_col(es[k]),
        decreases order.len() - i,
    {
        let e = &entries[order[i]];
        links.push(u64_to_string(e.info.nlink));
        owners.push(user_name(tables.passwd.as_str(), e.info.uid));
        groups.push(group_name(tables.group.as_str(), e.info.gid));
        sizes.push(size_field(e.info.kind, e.info.size, e.info.rdev));
        i = i + 1;
    }
    assert(links@.map_values(|s: String| s@) =~= es.map_values(|e: Entry| links_col(e)));
    assert(owners@.map_values(|s: String| s@) =~= es.map_values(|e: Entry| owner_col(e, *tables)));
    assert(groups@.map_values(|s: String| s@) =~= es.map_values(|e: Entry| group_col(e, *tables)));
    assert(sizes@.map_values(|s: String| s@) =~= es.map_values(|e: Entry| size_col(e)));
    let lw = width_of(&links);
    let ow = width_of(&owners);
    let gw = width_of(&groups);
    let sw = width_of(&sizes);

    let mut head = String::from_str("total ");
    push_decimal(&mut head, total / 2);
    lines.push(head);
    let mut i: usize = 0;
    while i < order.len()
        invariant
            i <= order.len(),
            es == in_order(entries@, order@),
            forall|k: int| 0 <= k < order.len() ==> #[trigger] order@[k] < entries.len(),
            times_in_range(entries@, now),
            links.len() == order.len(),
            owners.len() == order.len(),
            groups.len() == order.len(),
            sizes.len() == order.len(),
            forall|k: int| 0 <= k < order.len() ==> #[trigger] links@[k]@ == links_col(es[k]),
            forall|k: int| 0 <= k < order.len() ==> #[trigger] owners@[k]@ == owner_col(es[k], *tables),
            forall|k: int| 0 <= k < order.len() ==> #[trigger] groups@[k]@ == group_col(es[k], *tables),
            forall|k: int| 0 <= k < order.len() ==> #[trigger] sizes@[k]@ == size_col(es[k]),
            lines.len() == i + 1,
            lines@[0]@ == "total "@ + decimal(total_blocks(entries@) / 2),
            forall|k: int|
                0 <= k < i ==> #[trigger] lines@[k + 1]@ == long_row(
                    es[k],
                    flags,
                    is_tty,
                    now,
                    *tables,
                    lw as nat,
                    ow as nat,
                    gw as nat,
                    sw as nat,
                ),
        decreases order.len() - i,
    {
        let e = &entries[order[i]];
        assert(es[i as int] == *e);
        assert(now matches Some(n) ==> i64::MIN < n - entries@[order@[i as int] as int].info.mtime <= i64::MAX);
        let mut row = perm_string(e.info.kind, e.info.mode);
        row.append(" ");
        push_pad_left(&mut row, links[i].as_str(), lw, ' ');
        row.append(" ");
        push_pad_right(&mut row, owners[i].as_str(), ow);
        row.append(" ");
        push_pad_right(&mut row, groups[i].as_str(), gw);
        row.append(" ");
        push_pad_left(&mut row, sizes[i].as_str(), sw, ' ');
        row.append(" ");
        let time = format_mtime(e.info.mtime, now, e.local_mtime);
        row.append(time.as_str());
        row.append(" ");
        let name = decorated_name(e, flags, is_tty);
        row.append(name.as_str());
        assert(row@ =~= long_row(es[i as int], flags, is_tty, now, *tables, lw as nat, ow as nat, gw as nat, sw as nat));
        lines.push(row);
        i = i + 1;
    }
    proof {
        let rows = es.map_values(
            |e: Entry| long_row(e, flags, is_tty, now, *tables, lw as nat, ow as nat, gw as nat, sw as nat),
        );
        let want = seq!["total "@ + decimal(total_blocks(entries@) / 2)] + rows;
        let got = lines@.map_values(|s: String| s@);
        assert forall|k: int| 0 <= k < want.len() implies #[trigger] got[k] == want[k] by {
            if k > 0 {
                let j = k - 1;
                assert(lines@[j + 1]@ == long_row(es[j], flags, is_tty, now, *tables, lw as nat, ow as nat, gw as nat, sw as nat));
                assert(j + 1 == k);
            }
        }
        assert(got =~= want);
    }
    lines
}

/// The listing of `entries`: sorted by name (ignoring leading dots and
/// case, ties in the order given), then rendered. `.` and `..`, given
/// first, are listed first.
pub fn listing(entries: &Vec<Entry>, flags: LsFlags, is_tty: bool, now: Option<i64>, tables: &Tables) -> (res: Vec<String>)
    requires
        flags.long ==> times_in_range(entries@, now),
        flags.long ==> total_blocks(entries@) <= u64::MAX,
    ensures
        exists|order: Seq<usize>|
            is_stable_order(entry_keys(entries@), order) && (dots_lead(entries@) ==> order[0] == 0 && order[1]
                == 1) && res@.map_values(|s: String| s@) == listing_lines(entries@, order, flags, is_tty, now, *tables),
{
    let order = listing_order(entries);
    proof {
        assert forall|k: int| 0 <= k < order.len() implies #[trigger] order@[k] < entries.len() by {
            assert(order@[k] < entry_keys(entries@).len());
        }
    }
    render(entries, &order, flags, is_tty, now, tables)
}

/// The name a non-directory operand is sorted by: its last component, or
/// nothing when it has none.
pub open spec fn operand_key_name(path: Seq<char>) -> Seq<char> {
    match file_name(path) {
        Some(n) => n,
        None => Seq::empty(),
    }
}

/// The entries of one `ls` operand, gathered as they are read.
pub struct Listing {
    pub flags: LsFlags,
    pub entries: Vec<Entry>,
}

impl Listing {
    /// A non-directory operand: listed as itself, shown under the path as
    /// given and sorted by its last component.
    pub fn of_file(path: &str, flags: LsFlags, info: FileInfo, local_mtime: Option<LocalTime>) -> (res: Listing)
        ensures
            res.flags == flags,
            res.entries@.len() == 1,
            res.entries@[0].display@ == path@,
            res.entries@[0].file_name@ == operand_key_name(path@),
            res.entries@[0].info == info,
            res.entries@[0].local_mtime == local_mtime,
    {
        let file_name = match path_file_name(path) {
            Some(n) => n,
            None => String::new(),
        };
        let mut entries: Vec<Entry> = Vec::new();
        entries.push(Entry { display: String::from_str(path), file_name, info, local_mtime });
        Listing { flags, entries }
    }

    /// A directory operand, before any of its entries is read.
    pub fn of_directory(flags: LsFlags) -> (res: Listing)
        ensures
            res.flags == flags,
            res.entries@.len() == 0,
    {
        Listing { flags, entries: Vec::new() }
    }

    /// Whether `.` and `..` are listed: with `-a`.
    pub fn wants_dots(&self) -> (res: bool)
        ensures
            res == self.flags.all,
    {
        self.flags.all
    }

    /// Adds the entry `.` (the directory itself), or with `parent` the entry
    /// `..`.
    pub fn add_dot(&mut self, parent: bool, info: FileInfo, local_mtime: Option<LocalTime>)
        ensures
            final(self).flags == old(self).flags,
            final(self).entries@.len() == old(self).entries@.len() + 1,
            final(self).entries@.drop_last() == old(self).entries@,
            final(self).entries@.last().display@ == final(self).entries@.last().file_name@,
            final(self).entries@.last().file_name@ == (if parent {
                seq!['.', '.']
            } else {
                seq!['.']
            }),
            final(self).entries@.last().info == info,
            final(self).entries@.last().local_mtime == local_mtime,
    {
        let mut name = String::new();
        push_char(&mut name, '.');
        if parent {
            push_char(&mut name, '.');
        }
        let ghost before = self.entries@;
        self.entries.push(Entry { display: name.clone(), file_name: name, info, local_mtime });
        assert(self.entries@.drop_last() =~= before);
    }

    /// Whether a directory entry named `name` is listed: hidden names only
    /// with `-a`.
    pub fn wants(&self, name: &str) -> (res: bool)
        ensures
            res == shows(name@, self.flags.all),
    {
        shows_entry(name, self.flags.all)
    }

    /// Adds a directory entry, if it is listed (see `wants`); returns
    /// whether it was.
    pub fn add(&mut self, name: String, info: FileInfo, local_mtime: Option<LocalTime>) -> (added: bool)
        ensures
            added == shows(name@, old(self).flags.all),
            final(self).flags == old(self).flags,
            !added ==> final(self).entries@ == old(self).entries@,
            added ==> {
                &&& final(self).entries@.len() == old(self).entries@.len() + 1
                &&& final(self).entries@.drop_last() == old(self).entries@
                &&& final(self).entries@.last().display@ == name@
                &&& final(self).entries@.last().file_name@ == name@
                &&& final(self).entries@.last().info == info
                &&& final(self).entries@.last().local_mtime == local_mtime
            },
    {
        if !shows_entry(name.as_str(), self.flags.all) {
            return false;
        }
        let ghost before = self.entries@;
        self.entries.push(Entry { display: name.clone(), file_name: name, info, local_mtime });
        assert(self.entries@.drop_last() =~= before);
        true
    }

    /// The lines of the listing: the entries sorted and rendered (see
    /// `listing`).
    pub fn lines(&self, is_tty: bool, now: Option<i64>, tables: &Tables) -> (res: Vec<String>)
        requires
            self.flags.long ==> times_in_range(self.entries@, now),
            self.flags.long ==> total_blocks(self.entries@) <= u64::MAX,
        ensures
            exists|order: Seq<usize>|
                is_stable_order(entry_keys(self.entries@), order) && (dots_lead(self.entries@) ==> order[0] == 0
                    && order[1] == 1) && res@.map_values(|s: String| s@) == listing_lines(
                    self.entries@,
                    order,
                    self.flags,
                    is_tty,
                    now,
                    *tables,
                ),
    {
        listing(&self.entries, self.flags, is_tty, now, tables)
    }
}

// ---------------------------------------------------------------------------
// Laws of the columns
// ---------------------------------------------------------------------------

/// Law: the permission string reads the mode bits class by class (owner,
/// group, others; class `c` uses the bits shifted right by `3 * c`): `r`
/// and `w` for the read and write bits, a lower-case letter in the execute
/// place exactly when the execute bit is set, a letter other than `x`
/// there exactly when the class's special bit is set (setuid, setgid,
/// sticky), and the file type first.
pub proof fn law_permission_bits(kind: FileKind, mode: u32, c: u32)
    requires
        c < 3,
    ensures
        perm_text(kind, mode).len() == 10,
        perm_text(kind, mode)[1 + 3 * c] == (if mode & (0o400u32 >> (3 * c)) != 0 { 'r' } else { '-' }),
        perm_text(kind, mode)[2 + 3 * c] == (if mode & (0o200u32 >> (3 * c)) != 0 { 'w' } else { '-' }),
        (mode & (0o100u32 >> (3 * c)) != 0) <==> (perm_text(kind, mode)[3 + 3 * c] == 'x' || perm_text(kind, mode)[3
            + 3 * c] == 's' || perm_text(kind, mode)[3 + 3 * c] == 't'),
        (mode & (0o4000u32 >> c) != 0) <==> (perm_text(kind, mode)[3 + 3 * c] == 's' || perm_text(kind, mode)[3 + 3
            * c] == 'S' || perm_text(kind, mode)[3 + 3 * c] == 't' || perm_text(kind, mode)[3 + 3 * c] == 'T'),
        c == 2 ==> perm_text(kind, mode)[9] != 's' && perm_text(kind, mode)[9] != 'S',
        c < 2 ==> perm_text(kind, mode)[3 + 3 * c] != 't' && perm_text(kind, mode)[3 + 3 * c] != 'T',
        perm_text(kind, mode)[0] == 'd' <==> kind == FileKind::Directory,
        perm_text(kind, mode)[0] == 'l' <==> kind == FileKind::Symlink,
        perm_text(kind, mode)[0] == 'c' <==> kind == FileKind::CharDevice,
        perm_text(kind, mode)[0] == 'b' <==> kind == FileKind::BlockDevice,
        perm_text(kind, mode)[0] == 'p' <==> kind == FileKind::Fifo,
        perm_text(kind, mode)[0] == 's' <==> kind == FileKind::Socket,
        perm_text(kind, mode)[0] == '-' <==> (kind == FileKind::Regular || kind == FileKind::Unknown),
{
    if c == 0 {
        assert(0o400u32 >> 0u32 == 0o400u32 && 0o200u32 >> 0u32 == 0o200u32 && 0o100u32 >> 0u32 == 0o100u32 && 0o4000u32
            >> 0u32 == 0o4000u32) by (bit_vector);
    } else if c == 1 {
        assert(0o400u32 >> 3u32 == 0o40u32 && 0o200u32 >> 3u32 == 0o20u32 && 0o100u32 >> 3u32 == 0o10u32 && 0o4000u32
            >> 1u32 == 0o2000u32) by (bit_vector);
    } else {
        assert(0o400u32 >> 6u32 == 0o4u32 && 0o200u32 >> 6u32 == 0o2u32 && 0o100u32 >> 6u32 == 0o1u32 && 0o4000u32
            >> 2u32 == 0o1000u32) by (bit_vector);
    }
}

/// Law: the size column of a device shows its major and minor numbers as
/// the kernel packs them (`minor` low byte, `major` in the next 12 bits,
/// the rest of `minor` above): unpacking gives both back.
pub proof fn law_device_numbers(major: nat, minor: nat)
    requires
        major < 4096,
        minor < 1048576,
    ensures
        dev_major((minor % 256 + 256 * major + 1048576 * (minor / 256)) as u64) == major,
        dev_minor((minor % 256 + 256 * major + 1048576 * (minor / 256)) as u64) == minor,
{
    let lo = minor % 256;
    let hi = minor / 256;
    let r = lo + 256 * major + 1048576 * hi;
    assert(0 <= lo < 256);
    assert(hi < 4096);
    assert(r < 0x1_0000_0000) by (nonlinear_arith)
        requires
            lo < 256,
            major < 4096,
            hi < 4096,
            r == lo + 256 * major + 1048576 * hi,
    ;
    assert((r as u64) as nat == r);
    // r / 256 == major + 4096 * hi, and r % 256 == lo.
    assert(r == (major + 4096 * hi) * 256 + lo) by (nonlinear_arith)
        requires
            r == lo + 256 * major + 1048576 * hi,
    ;
    vstd::arithmetic::div_mod::lemma_fundamental_div_mod_converse_div(r as int, 256, (major + 4096 * hi) as int, lo as int);
    vstd::arithmetic::div_mod::lemma_fundamental_div_mod_converse_mod(r as int, 256, (major + 4096 * hi) as int, lo as int);
    let q = major + 4096 * hi;
    assert(q == hi * 4096 + major);
    vstd::arithmetic::div_mod::lemma_fundamental_div_mod_converse_mod(q as int, 4096, hi as int, major as int);
    // r / 1048576 == hi.
    assert(r == hi * 1048576 + (lo + 256 * major)) by (nonlinear_arith)
        requires
            r == lo + 256 * major + 1048576 * hi,
    ;
    assert(lo + 256 * major < 1048576) by (nonlinear_arith)
        requires
            lo < 256,
            major < 4096,
    ;
    vstd::arithmetic::div_mod::lemma_fundamental_div_mod_converse_div(r as int, 1048576, hi as int, (lo + 256 * major) as int);
    vstd::arithmetic::div_mod::lemma_fundamental_div_mod_converse_mod(hi as int, 4096, 0, hi as int);
    vstd::arithmetic::div_mod::lemma_fundamental_div_mod(minor as int, 256);
}

/// Law: a column is as wide as its widest text, in bytes.
pub proof fn law_column_width_is_widest(texts: Seq<Seq<char>>)
    ensures
        forall|k: int| 0 <= k < texts.len() ==> encode_utf8(#[trigger] texts[k]).len() <= column_width(texts),
        texts.len() > 0 ==> exists|k: int| 0 <= k < texts.len() && encode_utf8(#[trigger] texts[k]).len() == column_width(texts),
        texts.len() == 0 ==> column_width(texts) == 0,
    decreases texts.len(),
{
    if texts.len() > 0 {
        let init = texts.drop_last();
        law_column_width_is_widest(init);
        assert forall|k: int| 0 <= k < init.len() implies init[k] == texts[k] by {}
        let n = texts.len() - 1;
        if column_width(texts) == encode_utf8(texts.last()).len() {
            assert(encode_utf8(texts[n]).len() == column_width(texts));
        } else {
            let k = choose|k: int| 0 <= k < init.len() && encode_utf8(#[trigger] init[k]).len() == column_width(init);
            assert(encode_utf8(texts[k]).len() == column_width(texts));
        }
    }
}

/// Law: the block total adds up the blocks of every entry, in whatever way
/// the entries are split.
pub proof fn law_total_blocks_adds(a: Seq<Entry>, b: Seq<Entry>)
    ensures
        total_blocks(a + b) == total_blocks(a) + total_blocks(b),
        total_blocks(Seq::<Entry>::empty()) == 0,
        forall|e: Entry| #[trigger] total_blocks(seq![e]) == e.info.blocks,
    decreases b.len(),
{
    assert forall|e: Entry| #[trigger] total_blocks(seq![e]) == e.info.blocks by {
        assert(seq![e].drop_last() =~= Seq::<Entry>::empty());
        assert(seq![e].last() == e);
        assert(total_blocks(Seq::<Entry>::empty()) == 0);
    }
    if b.len() == 0 {
        assert(a + b =~= a);
    } else {
        law_total_blocks_adds(a, b.drop_last());
        assert((a + b).drop_last() =~= a + b.drop_last());
        assert((a + b).last() == b.last());
    }
}

/// Law: the sort key drops the leading dots of a name and nothing else:
/// the name is some dots followed by what remains, which does not start
/// with a dot.
pub proof fn law_skip_dots_strips_leading_dots(s: Seq<char>)
    ensures
        s.len() >= skip_dots(s).len(),
        s == repeat_char('.', (s.len() - skip_dots(s).len()) as nat) + skip_dots(s),
        skip_dots(s).len() > 0 ==> skip_dots(s)[0] != '.',
    decreases s.len(),
{
    if s.len() > 0 && s[0] == '.' {
        let t = s.drop_first();
        law_skip_dots_strips_leading_dots(t);
        let n = (t.len() - skip_dots(t).len()) as nat;
        assert(repeat_char('.', (n + 1) as nat) =~= seq!['.'] + repeat_char('.', n));
        assert(s =~= seq!['.'] + t);
    } else {
        assert(repeat_char('.', 0) =~= Seq::<char>::empty());
        assert(s =~= Seq::<char>::empty() + s);
    }
}

/// Law: without `-a` exactly the names that start with a dot are hidden;
/// with `-a` every name is listed.
pub proof fn law_hidden_names(name: Seq<char>)
    ensures
        shows(name, true),
        shows(seq!['.'] + name, false) == false,
        (name.len() == 0 || name[0] != '.') ==> shows(name, false),
{
    assert((seq!['.'] + name)[0] == '.');
}

/// Law: the `-F` indicators: `/` for directories, `@` for symbolic links,
/// `=` for sockets, `|` for fifos, `*` for executable regular files, and
/// nothing for anything else.
pub proof fn law_classify_indicators(kind: FileKind, mode: u32)
    ensures
        kind == FileKind::Directory ==> classify_suffix(kind, mode) == seq!['/'],
        kind == FileKind::Symlink ==> classify_suffix(kind, mode) == seq!['@'],
        kind == FileKind::Socket ==> classify_suffix(kind, mode) == seq!['='],
        kind == FileKind::Fifo ==> classify_suffix(kind, mode) == seq!['|'],
        kind == FileKind::Regular && mode & 0o111 != 0 ==> classify_suffix(kind, mode) == seq!['*'],
        (kind == FileKind::Regular && mode & 0o111 == 0) || kind == FileKind::CharDevice || kind == FileKind::BlockDevice
            || kind == FileKind::Unknown ==> classify_suffix(kind, mode).len() == 0,
{
    reveal_strlit("/");
    reveal_strlit("@");
    reveal_strlit("=");
    reveal_strlit("|");
    reveal_strlit("*");
    reveal_strlit("");
    if kind == FileKind::Directory {
        assert(classify_suffix(kind, mode) =~= seq!['/']);
    } else if kind == FileKind::Symlink {
        assert(classify_suffix(kind, mode) =~= seq!['@']);
    } else if kind == FileKind::Socket {
        assert(classify_suffix(kind, mode) =~= seq!['=']);
    } else if kind == FileKind::Fifo {
        assert(classify_suffix(kind, mode) =~= seq!['|']);
    } else if kind == FileKind::Regular && mode & 0o111 != 0 {
        assert(classify_suffix(kind, mode) =~= seq!['*']);
    }
}

/// Law: `ls` knows the options `-l`, `-a` and `-F`, in any grouping and
/// order: any other letter is reported; otherwise each flag is set exactly
/// when its letter is given, and the operands, `.` when there are none,
/// are listed in order.
pub proof fn law_ls_options(args: Seq<String>, res: Result<LsRequest, String>)
    requires
        ls_accepts(args, res),
    ensures
        (forall|i: int, j: int|
            0 <= i < args.len() && is_option(args[i]@) && 1 <= j < args[i]@.len() ==> (#[trigger] args[i]@[j] == 'l'
                || args[i]@[j] == 'a' || args[i]@[j] == 'F')) ==> res is Ok,
        res matches Ok(r) ==> r.flags.long == option_given(args, 'l') && r.flags.all == option_given(args, 'a')
            && r.flags.classify == option_given(args, 'F'),
        (exists|i: int, j: int|
            0 <= i < args.len() && is_option(args[i]@) && 1 <= j < args[i]@.len() && #[trigger] args[i]@[j] != 'l'
                && args[i]@[j] != 'a' && args[i]@[j] != 'F') ==> res is Err,
{
    crate::args::law_first_bad_option(args, ls_letters());
    assert(ls_letters().contains('l') && ls_letters().contains('a') && ls_letters().contains('F')) by {
        assert(ls_letters()[0] == 'l' && ls_letters()[1] == 'a' && ls_letters()[2] == 'F');
    }
    assert forall|c: char| ls_letters().contains(c) implies c == 'l' || c == 'a' || c == 'F' by {
        let k = choose|k: int| 0 <= k < ls_letters().len() && ls_letters()[k] == c;
    }
}

} // verus!
