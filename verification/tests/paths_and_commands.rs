use zero_shell::order::stable_order;
use zero_shell::commands::cd;
use zero_shell::commands::cp::{self, check_source};
use zero_shell::commands::echo;
use zero_shell::commands::help;
use zero_shell::commands::mkdir;
use zero_shell::commands::mv;
use zero_shell::commands::rm::{self, removal, Removal};
use zero_shell::commands::transfer::{plan_steps, Step};
use zero_shell::commands::{exit, route, Batch, Builtin, Flow, Route};
use zero_shell::paths::{path_file_name, path_join};

fn args(v: &[&str]) -> Vec<String> {
    v.iter().map(|s| s.to_string()).collect()
}

#[test]
fn file_name_like_std() {
    for p in ["a", "a/b", "a/b/", "a/b/.", "./a", ".", "./", "..", "a/..", "/", "", "//x//", "a/./b", "...", "/.."] {
        let expected = std::path::Path::new(p).file_name().map(|n| n.to_string_lossy().to_string());
        assert_eq!(path_file_name(p), expected, "path {:?}", p);
    }
}

#[test]
fn join_like_std() {
    for (b, n) in [("dir", "x"), ("dir/", "x"), ("", "x"), ("/", "x"), ("a", "/abs"), ("a", "")] {
        let expected = std::path::Path::new(b).join(n).to_string_lossy().to_string();
        assert_eq!(path_join(b, n), expected, "{:?} {:?}", b, n);
    }
}

#[test]
fn joined_name_is_file_name() {
    for d in ["", "dir", "dir/", "/"] {
        assert_eq!(path_file_name(&path_join(d, "file.txt")), Some("file.txt".to_string()));
    }
}

#[test]
fn exit_codes() {
    assert_eq!(exit(&args(&[])), Flow::Exit(0));
    assert_eq!(exit(&args(&["3"])), Flow::Exit(3));
    assert_eq!(exit(&args(&["-2", "9"])), Flow::Exit(-2));
    assert_eq!(exit(&args(&["abc"])), Flow::Exit(0));
    assert_eq!(exit(&args(&["99999999999"])), Flow::Exit(0));
}

#[test]
fn routes_commands() {
    assert_eq!(route(&args(&["ls", "-l"])), Route::Run(Builtin::Ls));
    assert_eq!(route(&args(&["echo"])), Route::Run(Builtin::Echo));
    assert_eq!(route(&args(&["mkdir"])), Route::Run(Builtin::Mkdir));
    assert_eq!(route(&args(&["exit", "4"])), Route::Leave(Flow::Exit(4)));
    assert_eq!(route(&args(&["exit"])), Route::Leave(Flow::Exit(0)));
    assert_eq!(route(&args(&["foo", "x"])), Route::NotFound("Command 'foo' not found".to_string()));
    assert_eq!(route(&args(&["LS"])), Route::NotFound("Command 'LS' not found".to_string()));
}

#[test]
fn first_error_wins() {
    let run = |results: Vec<Result<(), String>>| {
        let mut batch = Batch::new(results);
        while let Some(r) = batch.next_item() {
            let r = r.clone();
            batch.record(r);
        }
        batch.finish()
    };
    assert_eq!(run(vec![Ok(()), Ok(())]), Ok(()));
    assert_eq!(run(vec![]), Ok(()));
    assert_eq!(run(vec![Ok(()), Err("a".to_string()), Err("b".to_string())]), Err("a".to_string()));
}

#[test]
fn echo_output() {
    assert_eq!(echo::run(&args(&["Hello", "There"])), "Hello There\n");
    assert_eq!(echo::run(&args(&[])), "\n");
    assert_eq!(echo::run(&args(&["-n", "x", "y"])), "x y");
    assert_eq!(echo::run(&args(&["-nnn", "-n", "x"])), "x");
    assert_eq!(echo::run(&args(&["-n"])), "");
    assert_eq!(echo::run(&args(&["x", "-n"])), "x -n\n");
    assert_eq!(echo::run(&args(&["-nx", "y"])), "-nx y\n");
    assert_eq!(echo::run(&args(&["-", "y"])), "- y\n");
}

#[test]
fn help_text_lists_commands() {
    let t = help::run(&args(&[]));
    assert!(t.starts_with("0-shell — built-in commands:\n"));
    assert!(t.contains("  mkdir [-p] dir...       Create directories; -p makes parents as needed.\n"));
    assert!(t.ends_with("Ctrl+D to exit.\n"));
}

#[test]
fn cd_targets() {
    let home = Some("/home/alice".to_string());
    assert_eq!(cd::run(&args(&[]), &home), Ok("/home/alice".to_string()));
    assert_eq!(cd::run(&args(&["~"]), &home), Ok("/home/alice".to_string()));
    assert_eq!(cd::run(&args(&["~/src"]), &home), Ok("/home/alice/src".to_string()));
    assert_eq!(cd::run(&args(&["~/"]), &home), Ok("/home/alice/".to_string()));
    assert_eq!(cd::run(&args(&["~x"]), &home), Ok("~x".to_string()));
    assert_eq!(cd::run(&args(&["/tmp"]), &home), Ok("/tmp".to_string()));
    assert_eq!(cd::run(&args(&["a", "b"]), &home), Err("cd: too many arguments".to_string()));
    assert_eq!(cd::run(&args(&[]), &None), Err("cd: HOME not set".to_string()));
    assert_eq!(cd::run(&args(&["~/x"]), &None), Err("cd: HOME not set".to_string()));
    assert_eq!(cd::run(&args(&["x"]), &None), Ok("x".to_string()));
}

#[test]
fn cp_arguments() {
    let r = cp::run(&args(&["-r", "a", "b", "dest"])).unwrap();
    assert!(r.recursive);
    assert_eq!(r.sources, args(&["a", "b"]));
    assert_eq!(r.dest, "dest");
    let r = cp::run(&args(&["a", "-R", "b"])).unwrap();
    assert!(r.recursive);
    assert!(!cp::run(&args(&["a", "b"])).unwrap().recursive);
    assert_eq!(cp::run(&args(&["-rx", "a", "b"])).err(), Some("cp: invalid option -- 'x'".to_string()));
    assert_eq!(cp::run(&args(&["a"])).err(), Some("cp: missing file operand".to_string()));
    assert_eq!(cp::run(&args(&["-", "a"])).unwrap().sources, args(&["-"]));
}

#[test]
fn cp_directory_needs_recursive() {
    assert_eq!(check_source("d", true, false), Err("cp: -r not specified; omitting directory 'd'".to_string()));
    assert_eq!(check_source("d", true, true), Ok(()));
    assert_eq!(check_source("f", false, false), Ok(()));
}

#[test]
fn transfer_plans() {
    let srcs = args(&["a/x.txt", "y"]);
    let dest = "out".to_string();
    assert_eq!(
        plan_steps("cp", &srcs, &dest, false),
        Err("cp: target 'out' is not a directory".to_string())
    );
    assert_eq!(
        plan_steps("mv", &srcs, &dest, true),
        Ok(vec![
            Step::Transfer("a/x.txt".to_string(), "out/x.txt".to_string()),
            Step::Transfer("y".to_string(), "out/y".to_string()),
        ])
    );
    let one = args(&["a"]);
    assert_eq!(plan_steps("mv", &one, &dest, false), Ok(vec![Step::Transfer("a".to_string(), "out".to_string())]));
    let dots = args(&[".."]);
    assert_eq!(plan_steps("cp", &dots, &dest, true), Ok(vec![Step::Invalid("cp: invalid source '..'".to_string())]));
}

#[test]
fn mv_arguments() {
    assert_eq!(mv::run(&args(&["-f", "a", "b"])), Ok((args(&["a"]), "b".to_string())));
    assert_eq!(mv::run(&args(&["a"])), Err("mv: missing file operand".to_string()));
    assert_eq!(mv::run(&args(&["a", "b", "c"])), Ok((args(&["a", "b"]), "c".to_string())));
}

#[test]
fn rm_arguments() {
    let r = rm::run(&args(&["-rf", "x", "y"])).unwrap();
    assert!(r.recursive && r.force);
    assert_eq!(r.targets, args(&["x", "y"]));
    let r = rm::run(&args(&["-f"])).unwrap();
    assert!(r.targets.is_empty());
    assert_eq!(rm::run(&args(&[])).err(), Some("rm: missing operand".to_string()));
    assert_eq!(rm::run(&args(&["-i", "x"])).err(), Some("rm: invalid option -- 'i'".to_string()));
}

#[test]
fn rm_decisions() {
    assert_eq!(removal("x", None, false, true), Removal::Ignore);
    assert_eq!(removal("x", None, false, false), Removal::Report);
    assert_eq!(removal("d", Some(true), false, false), Removal::Refuse("rm: cannot remove 'd': Is a directory".to_string()));
    assert_eq!(removal("d", Some(true), true, false), Removal::RemoveTree);
    assert_eq!(removal("f", Some(false), false, false), Removal::RemoveFile);
}

#[test]
fn mkdir_arguments() {
    let r = mkdir::run(&args(&["-p", "a/b", "c"])).unwrap();
    assert!(r.parents);
    assert_eq!(r.dirs, args(&["a/b", "c"]));
    let r = mkdir::run(&args(&["a", "-p"])).unwrap();
    assert!(r.parents);
    assert_eq!(mkdir::run(&args(&["-p"])).err(), Some("mkdir: missing operand".to_string()));
    assert_eq!(mkdir::run(&args(&[])).err(), Some("mkdir: missing operand".to_string()));
    assert_eq!(mkdir::run(&args(&["-pv", "a"])).err(), Some("mkdir: invalid option -- 'pv'".to_string()));
    assert_eq!(mkdir::run(&args(&["a", "-x", "-y"])).err(), Some("mkdir: invalid option -- 'x'".to_string()));
}

#[test]
fn dash_n_only_drops_the_newline() {
    for rest in [vec![], vec!["a"], vec!["a", "b c"], vec!["-x", "y"]] {
        let plain = echo::run(&args(&rest));
        let mut with_n = vec!["-n"];
        with_n.extend(rest.iter());
        assert_eq!(format!("{}\n", echo::run(&args(&with_n))), plain);
    }
}

#[test]
fn stable_order_lists_each_entry_once() {
    let keys: Vec<Vec<char>> = ["b", "a", "b", "", "a"].iter().map(|s| s.chars().collect()).collect();
    assert_eq!(stable_order(&keys), vec![3, 1, 4, 0, 2]);
}

#[test]
fn batch_handles_every_item_in_order_and_reports_the_first_error() {
    let mut batch = Batch::new(args(&["a", "b", "c"]));
    let mut seen = Vec::new();
    while let Some(t) = batch.next_item() {
        seen.push(t.clone());
        let r = if t == "a" { Ok(()) } else { Err(format!("rm: cannot remove '{}'", t)) };
        batch.record(r);
    }
    assert_eq!(seen, args(&["a", "b", "c"]));
    assert_eq!(batch.finish(), Err("rm: cannot remove 'b'".to_string()));

    let mut batch = Batch::new(vec![1, 2]);
    assert_eq!(batch.next_item(), Some(&1));
    batch.record(Ok(()));
    assert_eq!(batch.next_item(), Some(&2));
    batch.record(Ok(()));
    assert_eq!(batch.next_item(), None);
    assert_eq!(batch.finish(), Ok(()));

    let batch: Batch<String> = Batch::new(Vec::new());
    assert_eq!(batch.next_item(), None);
    assert_eq!(batch.finish(), Ok(()));
}
