use ransomshield::path::FilePath;
use ransomshield::quarantine::{
    name_from, quarantine_name, Original, Quarantine, TakeAction, TakeAnswer, Taken,
    QUARANTINE_DIR_MODE,
};

fn path(text: &str) -> FilePath {
    FilePath::from_text(text)
}

#[test]
fn a_very_deep_path_still_produces_a_usable_filename() {
    let mut deep = path("/data");
    for _ in 0..40 {
        deep = deep.join("aaaaaaaaaaaaaaaaaaaaaaaaaaaaaaaa");
    }
    let name = quarantine_name(1, 2, &deep.join("payload.bin"));
    assert!(name.len() < 255, "quarantine name must fit in a filename, got {}", name.len());
    assert!(name.starts_with("1_2_a"));
    assert!(name.contains("_payload.bin_"));
}

#[test]
fn paths_that_used_to_collide_now_get_distinct_names() {
    let a = quarantine_name(1, 2, &path("/data/x/y"));
    let b = quarantine_name(1, 2, &path("/data/x_y"));
    assert_ne!(a, b, "distinct originals must not overwrite each other in quarantine");
    assert_eq!(a, "1_2__data_x_y_38857b4b4b88ab64");
    assert_eq!(b, "1_2__data_x_y_c1497adbe4a1d56c");
}

#[test]
fn a_name_shows_the_end_of_a_long_path() {
    let digest = vec![0xab; 32];
    let long = "x".repeat(200) + "END";
    let name = name_from(7, -1, &long, &digest);
    assert_eq!(name, format!("7_-1_{}END_abababababababab", "x".repeat(117)));
}

#[test]
fn a_path_of_wide_characters_still_fits() {
    // Each of these characters takes four bytes.
    let wide = "\u{1F600}".repeat(300);
    let name = quarantine_name(u64::MAX, i32::MIN, &path("/d").join(&wide));
    assert!(name.len() < 255);
    assert!(name.starts_with("18446744073709551615_-2147483648_\u{1F600}"));
}

#[test]
fn neither_slashes_nor_control_characters_survive_in_a_name() {
    let name = quarantine_name(1, 2, &path("/a\nb/\u{7f}c"));
    assert!(name.starts_with("1_2__a_b__c_"));
}

fn quarantine() -> Quarantine {
    Quarantine::new(path("/q"), vec![path("/data"), path("/home")])
}

#[test]
fn files_outside_every_watch_root_are_refused() {
    let q = quarantine();
    let mut work = q.take(&path("/outside/important.conf"), 42, "burst");
    assert!(matches!(work.action(), TakeAction::Examine { .. }));
    work.advance(TakeAnswer::Found(Original::File));
    assert!(matches!(work.action(), TakeAction::Resolve { .. }));
    work.advance(TakeAnswer::Resolved {
        canonical: Some(path("/outside/important.conf")),
        stamp: 1,
    });
    assert!(matches!(work.action(), TakeAction::End(Taken::Nothing)));
}

#[test]
fn files_inside_a_watch_root_are_still_quarantined() {
    let q = quarantine();
    let mut work = q.take(&path("/data/cipher.bin"), 42, "burst");
    work.advance(TakeAnswer::Found(Original::File));
    work.advance(TakeAnswer::Resolved { canonical: Some(path("/data/cipher.bin")), stamp: 9 });
    let name = quarantine_name(9, 42, &path("/data/cipher.bin"));
    match work.action() {
        TakeAction::Rename { original, dest } => {
            assert_eq!(original.display(), "/data/cipher.bin");
            assert_eq!(dest.display(), format!("/q/{name}"));
        }
        _ => panic!("in-scope files must still be quarantined"),
    }
    work.advance(TakeAnswer::Done);
    match work.action() {
        TakeAction::Record { entry } => {
            assert_eq!(entry.quarantined_at_unix, 9);
            assert_eq!(entry.pid, 42);
            assert_eq!(entry.reason, "burst");
            assert_eq!(entry.original_path, "/data/cipher.bin");
            assert_eq!(entry.quarantine_name, name);
        }
        _ => panic!("a file that was moved must be recorded"),
    }
    // A manifest that cannot be written does not undo the move.
    work.advance(TakeAnswer::Refused);
    match work.action() {
        TakeAction::End(Taken::Moved(dest)) => assert_eq!(dest.display(), format!("/q/{name}")),
        _ => panic!("the file was moved"),
    }
}

#[test]
fn a_directory_that_was_swapped_for_a_link_leads_nowhere() {
    let q = quarantine();
    let mut work = q.take(&path("/data/dir/passwd"), 42, "burst");
    work.advance(TakeAnswer::Found(Original::File));
    work.advance(TakeAnswer::Resolved { canonical: Some(path("/etc/passwd")), stamp: 1 });
    assert!(matches!(work.action(), TakeAction::End(Taken::Nothing)));
}

#[test]
fn a_root_is_matched_by_whole_components() {
    let q = quarantine();
    let mut work = q.take(&path("/database/x"), 42, "burst");
    work.advance(TakeAnswer::Found(Original::File));
    work.advance(TakeAnswer::Resolved { canonical: None, stamp: 1 });
    assert!(matches!(work.action(), TakeAction::End(Taken::Nothing)));
}

#[test]
fn a_link_is_removed_and_not_followed() {
    let q = quarantine();
    let mut work = q.take(&path("/data/link"), 42, "burst");
    work.advance(TakeAnswer::Found(Original::Symlink));
    match work.action() {
        TakeAction::ResolveDirectory { original } => assert_eq!(original.display(), "/data/link"),
        _ => panic!("the directory of a link must be resolved"),
    }
    work.advance(TakeAnswer::Directory(Some(path("/data"))));
    match work.action() {
        TakeAction::RemoveLink { original } => assert_eq!(original.display(), "/data/link"),
        _ => panic!("a link must be removed"),
    }
    work.advance(TakeAnswer::Refused);
    assert!(matches!(work.action(), TakeAction::End(Taken::Nothing)));
}

#[test]
fn a_link_outside_every_root_is_left_alone() {
    let q = quarantine();
    for dir in [Some(path("/outside")), None] {
        let mut work = q.take(&path("/data/dir/link"), 42, "burst");
        work.advance(TakeAnswer::Found(Original::Symlink));
        work.advance(TakeAnswer::Directory(dir));
        assert!(matches!(work.action(), TakeAction::End(Taken::Nothing)));
    }
}

#[test]
fn paths_that_read_alike_get_distinct_names() {
    let one = FilePath::new(vec![b'/', b'd', b'/', 0xfe]);
    let other = FilePath::new(vec![b'/', b'd', b'/', 0xff]);
    assert_eq!(one.display(), other.display());
    assert_ne!(quarantine_name(1, 2, &one), quarantine_name(1, 2, &other));
}

#[test]
fn a_file_that_is_gone_is_nothing_to_take() {
    let q = quarantine();
    let mut work = q.take(&path("/data/x"), 42, "burst");
    work.advance(TakeAnswer::Found(Original::Gone));
    assert!(matches!(work.action(), TakeAction::End(Taken::Nothing)));
    work.advance(TakeAnswer::Done);
    assert!(matches!(work.action(), TakeAction::End(Taken::Nothing)));
}

#[test]
fn a_file_that_cannot_be_renamed_is_copied() {
    let q = quarantine();
    let mut work = q.take(&path("/home/x"), 42, "burst");
    work.advance(TakeAnswer::Found(Original::File));
    work.advance(TakeAnswer::Resolved { canonical: None, stamp: 1 });
    work.advance(TakeAnswer::Refused);
    assert!(matches!(work.action(), TakeAction::Copy { .. }));
    work.advance(TakeAnswer::Done);
    assert!(matches!(work.action(), TakeAction::RemoveOriginal { .. }));
    work.advance(TakeAnswer::Refused);
    assert!(matches!(work.action(), TakeAction::Record { .. }));
    work.advance(TakeAnswer::Done);
    assert!(matches!(work.action(), TakeAction::End(Taken::Moved(_))));
}

#[test]
fn a_file_that_can_be_neither_renamed_nor_copied_stays() {
    let q = quarantine();
    let mut work = q.take(&path("/home/x"), 42, "burst");
    work.advance(TakeAnswer::Found(Original::File));
    work.advance(TakeAnswer::Resolved { canonical: None, stamp: 1 });
    work.advance(TakeAnswer::Refused);
    work.advance(TakeAnswer::Refused);
    assert!(matches!(work.action(), TakeAction::End(Taken::Failed)));
}

#[test]
fn an_answer_that_does_not_fit_takes_nothing() {
    let q = quarantine();
    let mut work = q.take(&path("/home/x"), 42, "burst");
    work.advance(TakeAnswer::Done);
    assert!(matches!(work.action(), TakeAction::End(Taken::Failed)));
    let mut work = q.take(&path("/home/x"), 42, "burst");
    work.advance(TakeAnswer::Found(Original::File));
    work.advance(TakeAnswer::Done);
    assert!(matches!(work.action(), TakeAction::End(Taken::Failed)));
}

#[test]
fn only_its_owner_may_look_into_the_quarantine() {
    assert_eq!(QUARANTINE_DIR_MODE, 0o700);
}
