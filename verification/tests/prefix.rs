use flow::input::{parse_input, InputAction};
use flow::prefix::{DropOutcome, Prefix};

#[test]
fn new_single() {
    let p = Prefix::new(&["git".into()]);
    assert_eq!(p.display(), "git");
}

#[test]
fn new_compound() {
    let p = Prefix::new(&["java".into(), "Primes".into()]);
    assert_eq!(p.display(), "java Primes");
}

#[test]
fn add_single() {
    let mut p = Prefix::new(&["git".into()]);
    p.add("add");
    assert_eq!(p.display(), "git add");
}

#[test]
fn add_multiple_words() {
    let mut p = Prefix::new(&["git".into()]);
    p.add("log --oneline");
    assert_eq!(p.display(), "git log --oneline");
}

#[test]
fn drop_one() {
    let mut p = Prefix::new(&["git".into(), "add".into()]);
    let should_exit = p.drop(1) == DropOutcome::SessionTerminated;
    assert!(!should_exit);
    assert_eq!(p.display(), "git");
}

#[test]
fn drop_n() {
    let mut p = Prefix::new(&["git".into(), "add".into(), "-A".into()]);
    let should_exit = p.drop(2) == DropOutcome::SessionTerminated;
    assert!(!should_exit);
    assert_eq!(p.display(), "git");
}

#[test]
fn drop_clamp_to_minimum() {
    let mut p = Prefix::new(&["git".into(), "add".into()]);
    let should_exit = p.drop(5) == DropOutcome::SessionTerminated;
    assert!(!should_exit);
    assert_eq!(p.display(), "git");
}

#[test]
fn drop_last_returns_exit() {
    let mut p = Prefix::new(&["git".into()]);
    let should_exit = p.drop(1) == DropOutcome::SessionTerminated;
    assert!(should_exit);
}

#[test]
fn replace_last() {
    let mut p = Prefix::new(&["git".into(), "add".into()]);
    p.replace("commit");
    assert_eq!(p.display(), "git commit");
}

#[test]
fn build_command_with_input() {
    let p = Prefix::new(&["git".into()]);
    assert_eq!(p.build_command("status"), "git status");
}

#[test]
fn build_command_empty_input() {
    let p = Prefix::new(&["git".into()]);
    assert_eq!(p.build_command(""), "git");
}

#[test]
fn display_compound() {
    let p = Prefix::new(&["gcc".into(), "-o".into(), "output".into(), "input.c".into()]);
    assert_eq!(p.display(), "gcc -o output input.c");
}

#[test]
fn add_blank_text_changes_nothing() {
    let mut p = Prefix::new(&["git".into(), "log".into()]);
    p.add("");
    assert_eq!(p.display(), "git log");
    p.add("  \t \n");
    assert_eq!(p.display(), "git log");
}

#[test]
fn add_splits_on_any_whitespace() {
    let mut p = Prefix::new(&["git".into()]);
    p.add("  log \t--oneline\n -n\u{a0}3  ");
    assert_eq!(p.display(), "git log --oneline -n 3");
    assert_eq!(p.drop(3), DropOutcome::Continued);
    assert_eq!(p.display(), "git log");
}

#[test]
fn add_keeps_the_order_of_words() {
    let mut p = Prefix::new(&["cargo".into()]);
    p.add("b a");
    p.add("c");
    assert_eq!(p.display(), "cargo b a c");
}

#[test]
fn new_does_not_split_its_arguments() {
    let mut p = Prefix::new(&["my prog".into(), "two words".into()]);
    assert_eq!(p.display(), "my prog two words");
    assert_eq!(p.drop(1), DropOutcome::Continued);
    assert_eq!(p.display(), "my prog");
}

#[test]
fn drop_keeps_what_is_in_front() {
    let mut p = Prefix::new(&["a".into(), "b".into(), "c".into(), "d".into()]);
    assert_eq!(p.drop(1), DropOutcome::Continued);
    assert_eq!(p.display(), "a b c");
    assert_eq!(p.drop(2), DropOutcome::Continued);
    assert_eq!(p.display(), "a");
    assert_eq!(p.drop(1), DropOutcome::SessionTerminated);
    assert_eq!(p.display(), "a");
}

#[test]
fn drop_all_but_one_exactly() {
    let mut p = Prefix::new(&["a".into(), "b".into(), "c".into()]);
    assert_eq!(p.drop(2), DropOutcome::Continued);
    assert_eq!(p.display(), "a");
    let mut q = Prefix::new(&["a".into(), "b".into(), "c".into()]);
    assert_eq!(q.drop(3), DropOutcome::Continued);
    assert_eq!(q.display(), "a");
    let mut r = Prefix::new(&["a".into(), "b".into(), "c".into()]);
    assert_eq!(r.drop(usize::MAX), DropOutcome::Continued);
    assert_eq!(r.display(), "a");
}

#[test]
fn drop_nothing_goes_on() {
    let mut p = Prefix::new(&["git".into(), "add".into()]);
    assert_eq!(p.drop(0), DropOutcome::Continued);
    assert_eq!(p.display(), "git add");
}

#[test]
fn drop_on_one_token_ends_the_session_for_any_count() {
    for n in [0usize, 1, 2, 7, usize::MAX] {
        let mut p = Prefix::new(&["git".into()]);
        assert_eq!(p.drop(n), DropOutcome::SessionTerminated);
        assert_eq!(p.display(), "git");
    }
}

#[test]
fn replace_on_one_token_only_appends() {
    let mut p = Prefix::new(&["git".into()]);
    p.replace("commit");
    assert_eq!(p.display(), "git commit");
}

#[test]
fn replace_with_several_words() {
    let mut p = Prefix::new(&["git".into(), "add".into()]);
    p.replace("commit  -m");
    assert_eq!(p.display(), "git commit -m");
}

#[test]
fn replace_with_blank_text_drops_one() {
    let mut p = Prefix::new(&["git".into(), "add".into()]);
    p.replace("  ");
    assert_eq!(p.display(), "git");
    p.replace("");
    assert_eq!(p.display(), "git");
}

#[test]
fn build_command_keeps_the_input_as_it_is() {
    let p = Prefix::new(&["git".into(), "log".into()]);
    assert_eq!(p.build_command("  -n 3 "), "git log   -n 3 ");
    assert_eq!(p.build_command(" "), "git log  ");
    assert_eq!(p.build_command("status"), format!("{} status", p.display()));
    assert_eq!(p.build_command(""), p.display());
}

#[test]
fn session_add_run_drop() {
    let mut p = Prefix::new(&["git".into()]);
    match parse_input("+add") {
        InputAction::Add(words) => p.add(words),
        other => panic!("unexpected action {:?}", other),
    }
    assert_eq!(p.display(), "git add");
    assert_eq!(parse_input(""), InputAction::Empty);
    assert_eq!(p.build_command(""), "git add");
    match parse_input("-") {
        InputAction::Drop(count) => {
            assert_eq!(count, 1);
            assert_eq!(p.drop(count), DropOutcome::Continued);
            assert_eq!(p.display(), "git");
        }
        other => panic!("unexpected action {:?}", other),
    }
    match parse_input("-") {
        InputAction::Drop(count) => {
            assert_eq!(p.drop(count), DropOutcome::SessionTerminated);
        }
        other => panic!("unexpected action {:?}", other),
    }
}
