use ransomshield::honeypot::{
    Honeypots, Occupied, ProvisionAction, ProvisionAnswer, ProvisionError, Provisioning, Restored,
    CANARY_CONTENT, CANARY_MODE,
};
use ransomshield::path::FilePath;

fn path(text: &str) -> FilePath {
    FilePath::from_text(text)
}

/// Puts one missing decoy at each of `places`, with the given inodes.
fn provisioned(places: &[(&str, u64, u64)]) -> Honeypots {
    let paths: Vec<FilePath> = places.iter().map(|(p, _, _)| path(p)).collect();
    let mut work = Honeypots::provision(&paths);
    for (place, dev, ino) in places {
        match work.action() {
            ProvisionAction::CreateParent { path } => assert_eq!(path.display(), *place),
            _ => panic!("expected the parent to be created"),
        }
        work.advance(ProvisionAnswer::Done);
        assert!(matches!(work.action(), ProvisionAction::Examine { .. }));
        work.advance(ProvisionAnswer::Found(Occupied::Nothing));
        assert!(matches!(work.action(), ProvisionAction::Write { .. }));
        work.advance(ProvisionAnswer::Done);
        assert!(matches!(work.action(), ProvisionAction::SetMode { .. }));
        work.advance(ProvisionAnswer::Done);
        assert!(matches!(work.action(), ProvisionAction::Identify { .. }));
        work.advance(ProvisionAnswer::Inode { dev: *dev, ino: *ino });
    }
    assert!(matches!(work.action(), ProvisionAction::Finished));
    work.into_honeypots()
}

#[test]
fn a_hard_link_to_the_canary_is_still_recognized_as_the_canary() {
    let hp = provisioned(&[("/dir/DO_NOT_TOUCH.docx", 8, 100)]);
    // A hard link at /dir/harmless.txt has the inode of the canary.
    assert!(hp.lookup(8, 100).is_some(), "writing through a hard link must still be a honeypot hit");
    assert!(hp.lookup(8, 101).is_none());
    assert!(hp.lookup(9, 100).is_none());
}

#[test]
fn renaming_the_canary_before_writing_does_not_shake_off_detection() {
    let hp = provisioned(&[("/dir/DO_NOT_TOUCH.docx", 8, 100)]);
    // At /dir/DO_NOT_TOUCH.docx.locked the inode is what it was.
    let found = hp.lookup(8, 100);
    assert!(found.is_some(), "rename does not change the inode, so the trap must still fire");
    assert_eq!(found.unwrap().display(), "/dir/DO_NOT_TOUCH.docx");
}

#[test]
fn the_canary_is_writable_by_an_unprivileged_attacker() {
    assert_eq!(CANARY_MODE, 0o666);
    assert_eq!(
        CANARY_CONTENT,
        "This file is a RansomShield canary. Do not delete. Any modification triggers an incident \
         response.\n"
    );
}

#[test]
fn re_arming_restores_a_canary_that_an_incident_consumed() {
    let mut hp = provisioned(&[("/dir/bait.docx", 8, 100)]);
    hp.rearm(8, 100, Restored::At { dev: 8, ino: 200 });
    assert!(hp.lookup(8, 200).is_some(), "and the re-armed canary must be tracked under its new inode");
    assert_eq!(hp.lookup(8, 200).unwrap().display(), "/dir/bait.docx");
    assert!(hp.lookup(8, 100).is_none());
}

#[test]
fn a_honeypot_outside_every_watch_root_is_reported() {
    let hp = provisioned(&[("/dir/bait.docx", 8, 100)]);
    assert!(hp.all_within(&vec![path("/dir")]));
    assert!(!hp.all_within(&vec![path("/nowhere-near-here")]));
    let two = provisioned(&[("/dir/bait.docx", 8, 100), ("/other/bait.docx", 8, 101)]);
    assert!(!two.all_within(&vec![path("/dir")]));
    assert!(two.all_within(&vec![path("/dir"), path("/other")]));
}

#[test]
fn an_attempt_to_re_arm_that_fails_keeps_the_old_inode() {
    let mut hp = provisioned(&[("/dir/bait.docx", 8, 100)]);
    hp.rearm(8, 100, Restored::NotWritten);
    hp.rearm(8, 100, Restored::NotIdentified);
    hp.rearm(1, 1, Restored::At { dev: 5, ino: 5 });
    assert!(hp.lookup(8, 100).is_some());
    assert!(hp.lookup(5, 5).is_none());
    hp.rearm(8, 100, Restored::At { dev: 8, ino: 100 });
    assert!(hp.lookup(8, 100).is_some());
}

#[test]
fn no_decoys_lie_anywhere() {
    assert!(Honeypots::none().is_empty());
    assert!(Honeypots::none().all_within(&vec![]));
    assert!(!provisioned(&[("/dir/bait.docx", 8, 100)]).is_empty());
}

#[test]
fn a_link_at_the_place_of_a_decoy_is_passed_over() {
    let mut work = Honeypots::provision(&vec![path("/dir/a"), path("/dir/b")]);
    work.advance(ProvisionAnswer::Done);
    work.advance(ProvisionAnswer::Found(Occupied::Symlink));
    match work.action() {
        ProvisionAction::CreateParent { path } => assert_eq!(path.display(), "/dir/b"),
        _ => panic!("expected the next decoy"),
    }
    work.advance(ProvisionAnswer::Done);
    work.advance(ProvisionAnswer::Found(Occupied::File));
    // What is there already keeps its content, and is opened up if that can be done.
    assert!(matches!(work.action(), ProvisionAction::OpenUp { .. }));
    work.advance(ProvisionAnswer::Refused);
    work.advance(ProvisionAnswer::Inode { dev: 1, ino: 2 });
    assert!(matches!(work.action(), ProvisionAction::Finished));
    let hp = work.into_honeypots();
    assert_eq!(hp.lookup(1, 2).unwrap().display(), "/dir/b");
}

fn after(answers: &[ProvisionAnswer]) -> Provisioning {
    let mut work = Honeypots::provision(&vec![path("/dir/a")]);
    for answer in answers {
        work.advance(*answer);
    }
    work
}

#[test]
fn each_failure_is_named() {
    use_failure(&[ProvisionAnswer::Refused], ProvisionError::CreateParent);
    let missing = [ProvisionAnswer::Done, ProvisionAnswer::Found(Occupied::Nothing)];
    use_failure(&[missing[0], missing[1], ProvisionAnswer::Refused], ProvisionError::Write);
    use_failure(
        &[missing[0], missing[1], ProvisionAnswer::Done, ProvisionAnswer::Refused],
        ProvisionError::SetMode,
    );
    use_failure(
        &[
            missing[0],
            missing[1],
            ProvisionAnswer::Done,
            ProvisionAnswer::Done,
            ProvisionAnswer::Refused,
        ],
        ProvisionError::Identify,
    );
    use_failure(&[ProvisionAnswer::Inode { dev: 1, ino: 1 }], ProvisionError::Protocol);
}

fn use_failure(answers: &[ProvisionAnswer], error: ProvisionError) {
    let mut work = after(answers);
    match work.action() {
        ProvisionAction::Failed(e) => assert_eq!(e, error),
        _ => panic!("expected a failure"),
    }
    work.advance(ProvisionAnswer::Done);
    assert!(matches!(work.action(), ProvisionAction::Failed(_)));
}
