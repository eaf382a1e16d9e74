use clicklauncher::dispatch::{launch_report, resolve, shell, Dispatch};
use clicklauncher::election::Election;
use clicklauncher::table::CommandTable;

#[test]
fn winner_with_a_bound_chord_launches_its_command() {
    let table = CommandTable::from_text("1 2\techo hi\n3\techo three\n").unwrap();
    assert_eq!(
        resolve(&table, &Election::Execute { chord: vec![1, 2] }),
        Dispatch::Launch { command: String::from("echo hi") }
    );
    assert_eq!(
        resolve(&table, &Election::Execute { chord: vec![3] }),
        Dispatch::Launch { command: String::from("echo three") }
    );
}

#[test]
fn winner_with_an_unbound_chord_launches_nothing() {
    let table = CommandTable::from_text("1 2\techo hi\n").unwrap();
    assert_eq!(resolve(&table, &Election::Execute { chord: vec![2, 1] }), Dispatch::Nothing);
    assert_eq!(resolve(&table, &Election::Execute { chord: vec![9] }), Dispatch::Nothing);
    let empty = CommandTable::from_text("").unwrap();
    assert_eq!(resolve(&empty, &Election::Execute { chord: vec![1, 2] }), Dispatch::Nothing);
}

#[test]
fn loser_launches_nothing() {
    let table = CommandTable::from_text("1 2\techo hi\n").unwrap();
    assert_eq!(resolve(&table, &Election::Discard), Dispatch::Nothing);
}

#[test]
fn shell_is_that_of_the_platform() {
    let unix = shell(false);
    assert_eq!((unix.program, unix.flag), ("sh", "-c"));
    let windows = shell(true);
    assert_eq!((windows.program, windows.flag), ("cmd", "/C"));
}

#[test]
fn launch_is_reported_with_its_command() {
    assert_eq!(launch_report("echo hi"), "run command: echo hi");
    assert_eq!(launch_report(""), "run command: ");
}
