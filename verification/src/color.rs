//! Output coloring for `ls`: ANSI colors by file type, only when writing to a
//! terminal, so that redirected output stays plain.
use vstd::prelude::*;
use crate::meta::{FileKind, is_executable, is_executable_exec};
use crate::text::{chars_of, contains_exec, contains_seq, has_prefix, occurs_at_exec};

verus! {

pub open spec fn reset_code() -> Seq<char> {
    "\x1b[0m"@
}

/// Directories.
pub open spec fn blue_code() -> Seq<char> {
    "\x1b[1;34m"@
}

/// Symbolic links.
pub open spec fn cyan_code() -> Seq<char> {
    "\x1b[1;36m"@
}

/// Executables.
pub open spec fn green_code() -> Seq<char> {
    "\x1b[1;32m"@
}

/// Devices, fifos and sockets.
pub open spec fn yellow_code() -> Seq<char> {
    "\x1b[1;33m"@
}

/// The color a file is shown in, if any.
pub open spec fn color_code(kind: FileKind, mode: u32) -> Option<Seq<char>> {
    match kind {
        FileKind::Directory => Some(blue_code()),
        FileKind::Symlink => Some(cyan_code()),
        FileKind::CharDevice | FileKind::BlockDevice | FileKind::Fifo | FileKind::Socket => Some(yellow_code()),
        _ => if is_executable(kind, mode) {
            Some(green_code())
        } else {
            None
        },
    }
}

/// A name as `ls` shows it: wrapped in its color on a terminal.
pub open spec fn colorized(name: Seq<char>, is_tty: bool, kind: FileKind, mode: u32) -> Seq<char> {
    if !is_tty {
        name
    } else {
        match color_code(kind, mode) {
            Some(code) => code + name + reset_code(),
            None => name,
        }
    }
}

/// Wraps `name` in an ANSI color appropriate for its file type, or returns it
/// unchanged when not writing to a terminal.
pub fn colorize(name: &str, is_tty: bool, kind: FileKind, mode: u32) -> (res: String)
    ensures
        res@ == colorized(name@, is_tty, kind, mode),
{
    if !is_tty {
        return String::from_str(name);
    }
    let code = match kind {
        FileKind::Directory => "\x1b[1;34m",
        FileKind::Symlink => "\x1b[1;36m",
        FileKind::CharDevice | FileKind::BlockDevice | FileKind::Fifo | FileKind::Socket => "\x1b[1;33m",
        _ => {
            if is_executable_exec(kind, mode) {
                "\x1b[1;32m"
            } else {
                return String::from_str(name);
            }
        },
    };
    let mut res = String::from_str(code);
    res.append(name);
    res.append("\x1b[0m");
    res
}

/// Whether the target of `/proc/self/fd/1` names a terminal.
pub open spec fn is_terminal_target(target: Seq<char>) -> bool {
    contains_seq(target, "/dev/pts/"@) || has_prefix(target, "/dev/tty"@)
}

/// Decides from the target of `/proc/self/fd/1` whether standard output is a
/// terminal.
pub fn is_terminal_path(target: &str) -> (res: bool)
    ensures
        res == is_terminal_target(target@),
{
    let t = chars_of(target);
    let pts = chars_of("/dev/pts/");
    let tty = chars_of("/dev/tty");
    contains_exec(&t, &pts) || occurs_at_exec(&t, &tty, 0)
}

/// The ANSI sequence that sets bold and the color numbered `c`.
pub open spec fn bold_color(c: char) -> Seq<char> {
    seq!['\x1b', '[', '1', ';', '3', c, 'm']
}

/// Law: on a terminal, directories are shown in bold blue (34), symbolic
/// links in bold cyan (36), devices, fifos and sockets in bold yellow (33)
/// and executable regular files in bold green (32), each followed by the
/// reset sequence; other files, and any name when not on a terminal, are
/// shown as they are.
pub proof fn law_colors_by_kind(name: Seq<char>, kind: FileKind, mode: u32)
    ensures
        colorized(name, false, kind, mode) == name,
        kind == FileKind::Directory ==> colorized(name, true, kind, mode) == bold_color('4') + name + seq![
            '\x1b',
            '[',
            '0',
            'm',
        ],
        kind == FileKind::Symlink ==> colorized(name, true, kind, mode) == bold_color('6') + name + seq![
            '\x1b',
            '[',
            '0',
            'm',
        ],
        (kind == FileKind::CharDevice || kind == FileKind::BlockDevice || kind == FileKind::Fifo || kind
            == FileKind::Socket) ==> colorized(name, true, kind, mode) == bold_color('3') + name + seq![
            '\x1b',
            '[',
            '0',
            'm',
        ],
        kind == FileKind::Regular && mode & 0o111 != 0 ==> colorized(name, true, kind, mode) == bold_color('2') + name
            + seq!['\x1b', '[', '0', 'm'],
        (kind == FileKind::Regular && mode & 0o111 == 0) || kind == FileKind::Unknown ==> colorized(
            name,
            true,
            kind,
            mode,
        ) == name,
{
    reveal_strlit("\x1b[0m");
    reveal_strlit("\x1b[1;34m");
    reveal_strlit("\x1b[1;36m");
    reveal_strlit("\x1b[1;32m");
    reveal_strlit("\x1b[1;33m");
    assert(reset_code() =~= seq!['\x1b', '[', '0', 'm']);
    assert(blue_code() =~= bold_color('4'));
    assert(cyan_code() =~= bold_color('6'));
    assert(yellow_code() =~= bold_color('3'));
    assert(green_code() =~= bold_color('2'));
}

/// Law: a target under `/dev/pts/` or starting with `/dev/tty` is a
/// terminal; one that mentions no `/dev/` is not.
pub proof fn law_terminal_targets(before: Seq<char>, after: Seq<char>)
    ensures
        is_terminal_target(before + seq!['/', 'd', 'e', 'v', '/', 'p', 't', 's', '/'] + after),
        is_terminal_target(seq!['/', 'd', 'e', 'v', '/', 't', 't', 'y'] + after),
        !contains_seq(before, seq!['/', 'd', 'e', 'v', '/']) ==> !is_terminal_target(before),
{
    reveal_strlit("/dev/pts/");
    reveal_strlit("/dev/tty");
    let pts = seq!['/', 'd', 'e', 'v', '/', 'p', 't', 's', '/'];
    let tty = seq!['/', 'd', 'e', 'v', '/', 't', 't', 'y'];
    assert("/dev/pts/"@ =~= pts);
    assert("/dev/tty"@ =~= tty);
    let s1 = before + pts + after;
    assert(s1.subrange(before.len() as int, before.len() as int + 9) =~= pts);
    assert(crate::text::occurs_at(s1, pts, before.len() as int));
    let s2 = tty + after;
    assert(s2.subrange(0, 8) =~= tty);
    let dev = seq!['/', 'd', 'e', 'v', '/'];
    if !contains_seq(before, dev) {
        if contains_seq(before, pts) {
            let i = choose|i: int| crate::text::occurs_at(before, pts, i);
            assert(before.subrange(i, i + 5) =~= dev) by {
                assert(before.subrange(i, i + 9) == pts);
                assert forall|k: int| 0 <= k < 5 implies before.subrange(i, i + 5)[k] == dev[k] by {
                    assert(before.subrange(i, i + 9)[k] == before[i + k]);
                }
            }
            assert(crate::text::occurs_at(before, dev, i));
        }
        if has_prefix(before, tty) {
            assert(before.subrange(0, 5) =~= dev) by {
                assert forall|k: int| 0 <= k < 5 implies before.subrange(0, 5)[k] == dev[k] by {
                    assert(before.subrange(0, 8)[k] == before[k]);
                }
            }
            assert(crate::text::occurs_at(before, dev, 0));
        }
    }
}

} // verus!
