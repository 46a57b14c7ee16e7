use zero_shell::color::{colorize, is_terminal_path};
use zero_shell::commands::ls::{
    self, decorated_name, header, listing, listing_order, Listing, perm_string, render, shows_entry, size_field, sort_key, Entry,
    LsFlags, Tables,
};
use zero_shell::meta::{FileInfo, FileKind};
use zero_shell::timefmt::{format_mtime, LocalTime};

fn args(v: &[&str]) -> Vec<String> {
    v.iter().map(|s| s.to_string()).collect()
}

fn info(kind: FileKind, mode: u32) -> FileInfo {
    FileInfo { kind, mode, nlink: 1, uid: 0, gid: 0, size: 0, rdev: 0, blocks: 0, mtime: 0 }
}

fn entry(name: &str, kind: FileKind, mode: u32) -> Entry {
    Entry { display: name.to_string(), file_name: name.to_string(), info: info(kind, mode), local_mtime: None }
}

const PLAIN: LsFlags = LsFlags { long: false, all: false, classify: false };

#[test]
fn ls_arguments() {
    let r = ls::run(&args(&["-la", "src", "-F"])).ok().unwrap();
    assert_eq!(r.flags, LsFlags { long: true, all: true, classify: true });
    assert_eq!(r.paths, args(&["src"]));
    let r = ls::run(&args(&[])).ok().unwrap();
    assert_eq!(r.flags, PLAIN);
    assert_eq!(r.paths, args(&["."]));
    assert_eq!(ls::run(&args(&["-lz"])).err(), Some("ls: invalid option -- 'z'".to_string()));
}

#[test]
fn headers_between_operands() {
    assert_eq!(header("a", 0, false), Vec::<String>::new());
    assert_eq!(header("a", 0, true), args(&["a:"]));
    assert_eq!(header("b", 1, true), args(&["", "b:"]));
}

#[test]
fn hidden_entries() {
    assert!(!shows_entry(".git", false));
    assert!(shows_entry(".git", true));
    assert!(shows_entry("src", false));
}

#[test]
fn sort_keys() {
    assert_eq!(sort_key(".Bashrc"), "bashrc");
    assert_eq!(sort_key("..."), "");
    assert_eq!(sort_key("README.md"), "readme.md");
}

#[test]
fn entries_sorted_ignoring_dots_and_case() {
    let es = vec![
        entry("b", FileKind::Regular, 0o644),
        entry(".", FileKind::Directory, 0o755),
        entry("..", FileKind::Directory, 0o755),
        entry(".a", FileKind::Regular, 0o644),
        entry("C", FileKind::Regular, 0o644),
        entry("a", FileKind::Regular, 0o644),
    ];
    assert_eq!(listing_order(&es), vec![1, 2, 3, 5, 0, 4]);
    let lines = listing(&es, PLAIN, false, Some(0), &Tables { passwd: String::new(), group: String::new() });
    assert_eq!(lines, args(&[".  ..  .a  a  b  C"]));
}

#[test]
fn short_listing_is_one_line() {
    let t = Tables { passwd: String::new(), group: String::new() };
    let f = LsFlags { long: false, all: false, classify: true };
    let es = vec![
        entry("src", FileKind::Directory, 0o755),
        entry("Cargo.toml", FileKind::Regular, 0o644),
        entry("README.md", FileKind::Regular, 0o644),
    ];
    assert_eq!(listing(&es, f, false, None, &t), args(&["Cargo.toml  README.md  src/"]));
    assert_eq!(render(&es, &vec![0, 1, 2], f, false, None, &t), args(&["src/  Cargo.toml  README.md"]));
    assert_eq!(listing(&vec![], f, false, None, &t), Vec::<String>::new());
    assert_eq!(listing(&vec![entry("one", FileKind::Regular, 0o644)], PLAIN, false, None, &t), args(&["one"]));
}

#[test]
fn permission_strings() {
    assert_eq!(perm_string(FileKind::Directory, 0o40755), "drwxr-xr-x");
    assert_eq!(perm_string(FileKind::Regular, 0o100644), "-rw-r--r--");
    assert_eq!(perm_string(FileKind::Regular, 0o4755), "-rwsr-xr-x");
    assert_eq!(perm_string(FileKind::Regular, 0o4644), "-rwSr--r--");
    assert_eq!(perm_string(FileKind::Directory, 0o1777), "drwxrwxrwt");
    assert_eq!(perm_string(FileKind::Directory, 0o1776), "drwxrwxrwT");
    assert_eq!(perm_string(FileKind::Regular, 0o2750), "-rwxr-s---");
    assert_eq!(perm_string(FileKind::Symlink, 0o777), "lrwxrwxrwx");
    assert_eq!(perm_string(FileKind::CharDevice, 0o620), "crw--w----");
    assert_eq!(perm_string(FileKind::BlockDevice, 0o660), "brw-rw----");
    assert_eq!(perm_string(FileKind::Fifo, 0o600), "prw-------");
    assert_eq!(perm_string(FileKind::Socket, 0o755), "srwxr-xr-x");
}

#[test]
fn size_column() {
    assert_eq!(size_field(FileKind::Regular, 1234, 0), "1234");
    // /dev/tty is 5,0; /dev/sda1 is 8,1; a large minor uses the high bits.
    assert_eq!(size_field(FileKind::CharDevice, 0, 0x500), "5, 0");
    assert_eq!(size_field(FileKind::BlockDevice, 0, 0x801), "8, 1");
    assert_eq!(size_field(FileKind::CharDevice, 0, (1 << 20) | (3 << 8) | 7), "3, 263");
}

#[test]
fn classify_and_color() {
    let f = LsFlags { long: false, all: false, classify: true };
    assert_eq!(decorated_name(&entry("d", FileKind::Directory, 0o755), f, false), "d/");
    assert_eq!(decorated_name(&entry("l", FileKind::Symlink, 0o777), f, false), "l@");
    assert_eq!(decorated_name(&entry("s", FileKind::Socket, 0o755), f, false), "s=");
    assert_eq!(decorated_name(&entry("p", FileKind::Fifo, 0o644), f, false), "p|");
    assert_eq!(decorated_name(&entry("x", FileKind::Regular, 0o744), f, false), "x*");
    assert_eq!(decorated_name(&entry("r", FileKind::Regular, 0o644), f, false), "r");
    assert_eq!(decorated_name(&entry("d", FileKind::Directory, 0o755), PLAIN, true), "\x1b[1;34md\x1b[0m");
    assert_eq!(decorated_name(&entry("d", FileKind::Directory, 0o755), f, true), "\x1b[1;34md\x1b[0m/");
    assert_eq!(colorize("x", true, FileKind::Regular, 0o100), "\x1b[1;32mx\x1b[0m");
    assert_eq!(colorize("l", true, FileKind::Symlink, 0), "\x1b[1;36ml\x1b[0m");
    assert_eq!(colorize("c", true, FileKind::CharDevice, 0), "\x1b[1;33mc\x1b[0m");
    assert_eq!(colorize("r", true, FileKind::Regular, 0o644), "r");
    assert_eq!(colorize("d", false, FileKind::Directory, 0o755), "d");
}

#[test]
fn terminal_detection() {
    assert!(is_terminal_path("/dev/pts/3"));
    assert!(is_terminal_path("/dev/tty1"));
    assert!(!is_terminal_path("/tmp/out.txt"));
    assert!(!is_terminal_path("pipe:[1234]"));
    assert!(!is_terminal_path("/x/dev/tty"));
}

#[test]
fn mtime_formats() {
    let t = LocalTime { month: 2, day: 5, year: 124, hour: 9, minute: 7 };
    assert_eq!(format_mtime(1_000_000, Some(1_000_100), Some(t)), "Mar  5 09:07");
    assert_eq!(format_mtime(1_000_000, Some(1_000_000 + 20_000_000), Some(t)), "Mar  5  2024");
    assert_eq!(format_mtime(1_000_000 + 20_000_000, Some(1_000_000), Some(t)), "Mar  5  2024");
    assert_eq!(format_mtime(1_000_000, Some(1_000_000 + 15_768_000), Some(t)), "Mar  5 09:07");
    assert_eq!(format_mtime(1_000_000, Some(1_000_000 + 15_768_001), Some(t)), "Mar  5  2024");
    let late = LocalTime { month: 11, day: 31, year: 99, hour: 23, minute: 59 };
    assert_eq!(format_mtime(0, Some(0), Some(late)), "Dec 31 23:59");
    let odd = LocalTime { month: 40, day: 1, year: 70, hour: 0, minute: 0 };
    assert_eq!(format_mtime(0, Some(0), Some(odd)), "Dec  1 00:00");
    assert_eq!(format_mtime(-5, Some(0), None), "-5");
    // Without a clock the file counts as recent.
    assert_eq!(format_mtime(1_000_000, None, Some(t)), "Mar  5 09:07");
}

#[test]
fn long_listing() {
    let t = LocalTime { month: 0, day: 15, year: 125, hour: 8, minute: 30 };
    let mut a = entry("alpha", FileKind::Regular, 0o100644);
    a.info.nlink = 1;
    a.info.uid = 1000;
    a.info.gid = 1000;
    a.info.size = 42;
    a.info.blocks = 8;
    a.info.mtime = 100;
    a.local_mtime = Some(t);
    let mut b = entry("bin", FileKind::Directory, 0o40755);
    b.info.nlink = 12;
    b.info.uid = 0;
    b.info.gid = 0;
    b.info.size = 4096;
    b.info.blocks = 8;
    b.info.mtime = 100;
    b.local_mtime = Some(t);
    let tables = Tables {
        passwd: "root:x:0:0::/root:/bin/sh\nalice:x:1000:1000::/home/alice:/bin/sh\n".to_string(),
        group: "root:x:0:\n".to_string(),
    };
    let flags = LsFlags { long: true, all: false, classify: true };
    let lines = render(&vec![a, b], &vec![0, 1], flags, false, Some(200), &tables);
    assert_eq!(
        lines,
        args(&[
            "total 8",
            "-rw-r--r--  1 alice 1000   42 Jan 15 08:30 alpha",
            "drwxr-xr-x 12 root  root 4096 Jan 15 08:30 bin/",
        ])
    );
}

#[test]
fn column_width_counts_bytes() {
    let t = LocalTime { month: 0, day: 1, year: 125, hour: 0, minute: 0 };
    let mut a = entry("a", FileKind::Regular, 0o644);
    a.info.uid = 1;
    a.local_mtime = Some(t);
    let mut b = entry("b", FileKind::Regular, 0o644);
    b.info.uid = 2;
    b.local_mtime = Some(t);
    let tables = Tables { passwd: "é:x:1\nab:x:2\n".to_string(), group: String::new() };
    let flags = LsFlags { long: true, all: false, classify: false };
    let lines = render(&vec![a, b], &vec![0, 1], flags, false, Some(0), &tables);
    // "é" is two bytes, so the owner column is two bytes wide; "é" is padded
    // by one character.
    assert_eq!(lines[1], "-rw-r--r-- 1 é  0 0 Jan  1 00:00 a");
    assert_eq!(lines[2], "-rw-r--r-- 1 ab 0 0 Jan  1 00:00 b");
}

#[test]
fn listing_builder() {
    let t = Tables { passwd: String::new(), group: String::new() };
    let all = LsFlags { long: false, all: true, classify: false };
    let mut l = Listing::of_directory(all);
    assert!(l.wants_dots());
    l.add_dot(false, info(FileKind::Directory, 0o755), None);
    l.add_dot(true, info(FileKind::Directory, 0o755), None);
    assert!(l.add("b".to_string(), info(FileKind::Regular, 0o644), None));
    assert!(l.add(".hidden".to_string(), info(FileKind::Regular, 0o644), None));
    assert!(l.add("...".to_string(), info(FileKind::Regular, 0o644), None));
    assert!(l.add("A".to_string(), info(FileKind::Regular, 0o644), None));
    assert_eq!(l.entries.len(), 6);
    assert_eq!(l.lines(false, None, &t), args(&[".  ..  ...  A  b  .hidden"]));

    let mut l = Listing::of_directory(PLAIN);
    assert!(!l.wants_dots());
    assert!(!l.wants(".git"));
    assert!(l.wants("src"));
    assert!(!l.add(".git".to_string(), info(FileKind::Directory, 0o755), None));
    assert!(l.add("src".to_string(), info(FileKind::Directory, 0o755), None));
    assert_eq!(l.entries.len(), 1);
    assert_eq!(l.lines(false, None, &t), args(&["src"]));

    let l = Listing::of_file("dir/notes.txt", PLAIN, info(FileKind::Regular, 0o644), None);
    assert_eq!(l.entries[0].display, "dir/notes.txt");
    assert_eq!(l.entries[0].file_name, "notes.txt");
    assert_eq!(l.lines(false, None, &t), args(&["dir/notes.txt"]));
    let l = Listing::of_file("..", PLAIN, info(FileKind::Regular, 0o644), None);
    assert_eq!(l.entries[0].file_name, "");
}
