use clicklauncher::dispatch::{resolve, Dispatch};
use clicklauncher::election::{Election, Invocation, Waiting, DEFAULT_DEBOUNCE_MILLIS};
use clicklauncher::segment::{IpcError, SEGMENT_WORDS};
use clicklauncher::settings::debounce_millis;
use clicklauncher::table::CommandTable;

#[test]
fn double_press_launches_once() {
    assert_eq!(debounce_millis(None), 250);
    let table = CommandTable::from_text("5 5\techo double").unwrap();
    let mut words = vec![0u32; SEGMENT_WORDS];

    let a = Invocation::new(5).register(&mut words).unwrap();
    assert_eq!(a, Waiting { id: 5, position: 1 });
    assert_eq!(words[0], 1);

    let b = Invocation::new(5).register(&mut words).unwrap();
    assert_eq!(b, Waiting { id: 5, position: 2 });
    assert_eq!(words[0], 2);

    let a_outcome = a.elect(&words).unwrap();
    assert_eq!(a_outcome, Election::Discard);
    assert_eq!(resolve(&table, &a_outcome), Dispatch::Nothing);

    let b_outcome = b.elect(&words).unwrap();
    assert_eq!(b_outcome, Election::Execute { chord: vec![5, 5] });
    assert_eq!(
        resolve(&table, &b_outcome),
        Dispatch::Launch { command: String::from("echo double") }
    );
}

#[test]
fn registrations_count_up_and_keep_their_order() {
    let ids = [3u32, 1, 4, 1, 5, 9, 2, 6];
    let mut words = vec![0u32; 16];
    let mut positions = Vec::new();
    for id in ids {
        positions.push(Invocation::new(id).register(&mut words).unwrap().position);
    }
    assert_eq!(positions, vec![1, 2, 3, 4, 5, 6, 7, 8]);
    assert_eq!(words[0], 8);
    assert_eq!(&words[1..9], &ids[..]);
    assert!(words[9..].iter().all(|w| *w == 0));
}

#[test]
fn burst_has_exactly_one_winner() {
    let ids = [2u32, 2, 7, 2];
    let mut words = vec![0u32; 32];
    let mut waiting = Vec::new();
    for id in ids {
        waiting.push(Invocation::new(id).register(&mut words).unwrap());
    }
    let mut winners = 0;
    for (i, w) in waiting.iter().enumerate() {
        match w.elect(&words).unwrap() {
            Election::Execute { chord } => {
                winners += 1;
                assert_eq!(i, ids.len() - 1);
                assert_eq!(chord, vec![2, 2, 7, 2]);
            }
            Election::Discard => {
                assert!(words[0] > w.position);
            }
        }
    }
    assert_eq!(winners, 1);
}

#[test]
fn early_election_in_a_burst_is_lost_to_the_next_press() {
    let mut words = vec![0u32; 8];
    let first = Invocation::new(1).register(&mut words).unwrap();
    let second = Invocation::new(2).register(&mut words).unwrap();
    assert_eq!(first.elect(&words), Ok(Election::Discard));
    let third = Invocation::new(3).register(&mut words).unwrap();
    assert_eq!(second.elect(&words), Ok(Election::Discard));
    assert_eq!(third.elect(&words), Ok(Election::Execute { chord: vec![1, 2, 3] }));
}

#[test]
fn solitary_press_wins_with_a_chord_of_one() {
    let mut words = vec![0u32; SEGMENT_WORDS];
    let only = Invocation::new(9).register(&mut words).unwrap();
    assert_eq!(only.position, 1);
    assert_eq!(only.elect(&words), Ok(Election::Execute { chord: vec![9] }));
}

#[test]
fn presses_far_apart_are_elected_one_by_one() {
    let mut first_segment = vec![0u32; SEGMENT_WORDS];
    let first = Invocation::new(4).register(&mut first_segment).unwrap();
    let first_outcome = first.elect(&first_segment).unwrap();
    assert_eq!(first_outcome, Election::Execute { chord: vec![4] });
    assert!(first_outcome.owns_segment());

    let mut second_segment = vec![0u32; SEGMENT_WORDS];
    let second = Invocation::new(6).register(&mut second_segment).unwrap();
    assert_eq!(second.elect(&second_segment), Ok(Election::Execute { chord: vec![6] }));
}

#[test]
fn press_on_a_used_segment_reads_the_earlier_presses_too() {
    let mut words = vec![0u32; 8];
    let first = Invocation::new(4).register(&mut words).unwrap();
    assert_eq!(first.elect(&words), Ok(Election::Execute { chord: vec![4] }));
    let second = Invocation::new(6).register(&mut words).unwrap();
    assert_eq!(second.position, 2);
    assert_eq!(second.elect(&words), Ok(Election::Execute { chord: vec![4, 6] }));
}

#[test]
fn election_does_not_change_the_segment() {
    let mut words = vec![0u32; 4];
    let w = Invocation::new(1).register(&mut words).unwrap();
    let before = words.clone();
    let _ = w.elect(&words);
    assert_eq!(words, before);
}

#[test]
fn registration_on_a_full_segment_fails() {
    let mut words = vec![0u32; 2];
    assert!(Invocation::new(1).register(&mut words).is_ok());
    assert_eq!(Invocation::new(2).register(&mut words), Err(IpcError::CapacityExceeded));
    assert_eq!(words, vec![1, 1]);
}

#[test]
fn election_on_a_broken_segment_fails() {
    let w = Waiting { id: 1, position: 7 };
    assert_eq!(w.elect(&[]), Err(IpcError::CapacityExceeded));
    assert_eq!(w.elect(&[7, 1, 2]), Err(IpcError::CapacityExceeded));
    assert_eq!(w.elect(&[8, 1, 2]), Ok(Election::Discard));
}

#[test]
fn winner_owns_the_segment_and_loser_does_not() {
    assert!(Election::Execute { chord: vec![1] }.owns_segment());
    assert!(!Election::Discard.owns_segment());
}

#[test]
fn invocation_keeps_its_id() {
    assert_eq!(Invocation::new(17), Invocation { id: 17 });
    assert_eq!(DEFAULT_DEBOUNCE_MILLIS, 250);
}
