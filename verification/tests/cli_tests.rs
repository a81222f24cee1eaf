use wit::cli::{dispatch, Action, Cli, Command};
use wit::error::WitError;

fn strings(v: &[&str]) -> Vec<String> {
    v.iter().map(|s| s.to_string()).collect()
}

#[test]
fn no_arguments_show_status_or_help() {
    let cli = Cli { command: None, query: vec![] };
    assert!(matches!(dispatch(cli, true), Ok(Action::Run(Command::Status { location: None }))));
    let cli = Cli { command: None, query: vec![] };
    assert!(matches!(dispatch(cli, false), Ok(Action::Help)));
}

#[test]
fn shorthand_query_is_answered() {
    let cli = Cli { command: None, query: strings(&["tokyo", "7d"]) };
    match dispatch(cli, false) {
        Ok(Action::Query(a)) => assert_eq!(a, strings(&["tokyo", "7d"])),
        _ => panic!("expected a query"),
    }
}

#[test]
fn diff_requires_a_comparison() {
    let cli = Cli { command: Some(Command::Diff { args: strings(&["tokyo"]) }), query: vec![] };
    assert!(matches!(dispatch(cli, true), Ok(Action::NeedsComparison)));
    let cli = Cli { command: Some(Command::Diff { args: strings(&["tokyo..boston"]) }), query: vec![] };
    assert!(matches!(dispatch(cli, true), Ok(Action::Query(_))));
    let cli = Cli { command: Some(Command::Diff { args: strings(&["new", "york"]) }), query: vec![] };
    assert!(matches!(dispatch(cli, true), Ok(Action::NeedsComparison)));
    let cli = Cli { command: Some(Command::Diff { args: strings(&["tokyo..boston", "soon"]) }), query: vec![] };
    match dispatch(cli, true) {
        Err(e) => assert_eq!(e, WitError::InvalidTime("soon".to_string())),
        _ => panic!("expected an error"),
    }
}

#[test]
fn subcommands_pass_through() {
    let cli = Cli { command: Some(Command::Snap), query: vec![] };
    assert!(matches!(dispatch(cli, true), Ok(Action::Run(Command::Snap))));
    let cli = Cli {
        command: Some(Command::Log { location: Some("tokyo".to_string()), n: 5 }),
        query: vec![],
    };
    assert!(matches!(dispatch(cli, true), Ok(Action::Run(Command::Log { n: 5, .. }))));
}
