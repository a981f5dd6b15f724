use rush::chain::{has_input, is_new_entry, resolve_line, split_chain, tokens_of, AliasTable, ChainRun};
use rush::command::{cd_target_for, dispatch, Command};
use rush::config::parse_config;
use rush::prompt::{display_dir, prompt_line, relative_path};

fn strings(v: &[&str]) -> Vec<String> {
    v.iter().map(|s| s.to_string()).collect()
}

fn table() -> AliasTable {
    let mut t = AliasTable::new();
    t.insert("ll".to_string(), "ls -l".to_string());
    t.insert("gs".to_string(), "git   status".to_string());
    t
}

#[test]
fn alias_expands_first_token_and_keeps_arguments() {
    let r = resolve_line(&table(), "ll -a src");
    assert_eq!(r, vec![strings(&["ls", "-l", "-a", "src"])]);
}

#[test]
fn non_alias_passes_through_unchanged() {
    let r = resolve_line(&table(), "echo ll gs");
    assert_eq!(r, vec![strings(&["echo", "ll", "gs"])]);
}

#[test]
fn alias_expansion_is_single_level() {
    let mut t = AliasTable::new();
    t.insert("a".to_string(), "b x".to_string());
    t.insert("b".to_string(), "c".to_string());
    let r = t.expand_aliases(&strings(&["a", "y"]));
    assert_eq!(r, strings(&["b", "x", "y"]));
}

#[test]
fn later_alias_replaces_earlier() {
    let mut t = AliasTable::new();
    t.insert("k".to_string(), "one".to_string());
    t.insert("k".to_string(), "two".to_string());
    assert_eq!(t.get(&"k".to_string()), Some("two".to_string()));
    assert_eq!(t.get(&"z".to_string()), None);
}

#[test]
fn chain_splits_trims_and_drops_empty_segments() {
    assert_eq!(split_chain("  ls -a &&  && pwd&&"), strings(&["ls -a", "pwd"]));
    assert_eq!(split_chain("a&&&b"), strings(&["a", "&b"]));
    assert_eq!(split_chain("   "), Vec::<String>::new());
}

#[test]
fn resolve_line_resolves_every_segment() {
    let r = resolve_line(&table(), "gs && ll docs");
    assert_eq!(r, vec![strings(&["git", "status"]), strings(&["ls", "-l", "docs"])]);
}

#[test]
fn tokens_split_on_runs_of_whitespace() {
    assert_eq!(tokens_of(" a\t b\n\u{3000}c  "), strings(&["a", "b", "c"]));
    assert_eq!(tokens_of(""), Vec::<String>::new());
}

fn run_chain(outcomes: &[bool]) -> Vec<usize> {
    let mut run = ChainRun::new(outcomes.len());
    let mut ran = Vec::new();
    while let Some(i) = run.next_index() {
        ran.push(i);
        run.report(outcomes[i]);
    }
    ran
}

#[test]
fn chain_stops_after_first_failure() {
    assert_eq!(run_chain(&[false, true, true]), vec![0]);
    assert_eq!(run_chain(&[true, false, true]), vec![0, 1]);
}

#[test]
fn chain_runs_everything_in_order_when_all_succeed() {
    assert_eq!(run_chain(&[true, true, true, true]), vec![0, 1, 2, 3]);
    assert_eq!(run_chain(&[]), Vec::<usize>::new());
}

#[test]
fn dispatch_recognises_builtins() {
    assert!(matches!(dispatch(&strings(&["exit"])), Command::Exit));
    assert!(matches!(dispatch(&strings(&["pwd"])), Command::Pwd));
    assert!(matches!(dispatch(&Vec::new()), Command::Nothing));
    match dispatch(&strings(&["cd", "/tmp", "x"])) {
        Command::Cd(Some(p)) => assert_eq!(p, "/tmp"),
        _ => panic!("expected cd"),
    }
    assert!(matches!(dispatch(&strings(&["cd"])), Command::Cd(None)));
}

#[test]
fn dispatch_reads_ls_flags_and_path() {
    match dispatch(&strings(&["ls", "-l", "-h", "--all"])) {
        Command::Ls(q) => {
            assert_eq!(q.path, ".");
            assert!(q.show_hidden && q.long_format && q.human_readable);
        }
        _ => panic!("expected ls"),
    }
    match dispatch(&strings(&["ls", "-l", "docs", "more"])) {
        Command::Ls(q) => assert_eq!(q.path, "docs"),
        _ => panic!("expected ls"),
    }
    match dispatch(&strings(&["ls", "src", "-a"])) {
        Command::Ls(q) => {
            assert_eq!(q.path, "src");
            assert!(q.show_hidden && !q.long_format && !q.human_readable);
        }
        _ => panic!("expected ls"),
    }
}

#[test]
fn dispatch_sends_other_commands_out() {
    match dispatch(&strings(&["git", "log", "-1"])) {
        Command::External(p, args) => {
            assert_eq!(p, "git");
            assert_eq!(args, strings(&["log", "-1"]));
        }
        _ => panic!("expected an external command"),
    }
}

#[test]
fn cd_target_expands_tilde_and_defaults_home() {
    let home = Some("/home/ann".to_string());
    assert_eq!(cd_target_for(&Some("~".to_string()), "ann", Some("/srv/ann".to_string())), "/srv/ann");
    assert_eq!(cd_target_for(&Some("~".to_string()), "ann", None), "/home/ann");
    assert_eq!(cd_target_for(&Some("~/x".to_string()), "ann", Some("/srv/ann".to_string())), "/home/ann/x");
    assert_eq!(cd_target_for(&Some("~/src".to_string()), "a\"n\"n", home.clone()), "/home/ann/src");
    assert_eq!(cd_target_for(&Some("/etc".to_string()), "ann", home.clone()), "/etc");
    assert_eq!(cd_target_for(&None, "ann", home), "/home/ann");
    assert_eq!(cd_target_for(&None, "ann", None), ".");
}

#[test]
fn config_reads_aliases_and_exports() {
    let text = "# comment\n\nalias ll = \"ls -l\"\r\n  export EDITOR=\"vim\"\nalias bad\nexport X=a=b\nalias ll=ls -la\n";
    let c = parse_config(text);
    assert_eq!(c.aliases.get(&"ll".to_string()), Some("ls -la".to_string()));
    assert_eq!(c.aliases.get(&"bad".to_string()), None);
    assert_eq!(
        c.exports,
        vec![("EDITOR".to_string(), "vim".to_string()), ("X".to_string(), "a=b".to_string())]
    );
}

#[test]
fn input_and_history_checks() {
    assert!(!has_input(" \t "));
    assert!(has_input(" ls "));
    let h = strings(&["ls", "pwd"]);
    assert!(!is_new_entry(&h, &"pwd".to_string()));
    assert!(is_new_entry(&h, &"pwd ".to_string()));
}

#[test]
fn paths_relative_to_a_base() {
    assert_eq!(relative_path("/home/ann", "/home/ann/src/x"), "src/x");
    assert_eq!(relative_path("/home/ann", "/etc/hosts"), "/etc/hosts");
    assert_eq!(display_dir("/home/ann/docs", "/home/ann"), "~/docs");
    assert_eq!(display_dir("/var", "/home/ann"), "/var");
}

#[test]
fn prompt_layout() {
    let p = prompt_line(&"~/x".to_string(), &"ann".to_string(), &"box".to_string(), &">".to_string());
    assert_eq!(p, "\n~/x\nann@box > ");
}
