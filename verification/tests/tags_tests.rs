use stat_diary_tools::codec::DataEntry;
use stat_diary_tools::tags::{apply_merge, DBError, TagList};

fn lines(v: &[&str]) -> Vec<String> {
    v.iter().map(|s| s.to_string()).collect()
}

#[test]
fn load_and_look_up() {
    let tl = TagList::from_file(&lines(&["0 Lunch", "1 Gym", "7 Reading"])).unwrap();
    assert_eq!(tl.get_id("Lunch").unwrap(), 0);
    assert_eq!(tl.get_id("Gym").unwrap(), 1);
    assert_eq!(tl.get_id("Reading").unwrap(), 7);
    assert_eq!(tl.get_tag(7).unwrap(), "Reading".to_string());
    assert!(matches!(tl.get_id("Dinner"), Err(DBError::UnknownTag(_))));
    assert!(matches!(tl.get_tag(3), Err(DBError::UnknownId(3))));
}

#[test]
fn load_rejects_duplicate_id() {
    let r = TagList::from_file(&lines(&["0 Lunch", "0 Gym"]));
    assert!(matches!(r, Err(DBError::CorruptedTagsFile(_))));
}

#[test]
fn load_rejects_duplicate_name() {
    let r = TagList::from_file(&lines(&["0 Lunch", "1 Lunch"]));
    assert!(matches!(r, Err(DBError::CorruptedTagsFile(_))));
}

#[test]
fn load_rejects_malformed_lines() {
    for bad in ["Lunch", "x Lunch", "70000 Lunch", "1 ", "1  Lunch", "1 a b", ""] {
        let r = TagList::from_file(&lines(&["0 Ok", bad]));
        assert!(matches!(r, Err(DBError::CorruptedTagsFile(_))), "accepted: {bad:?}");
    }
}

#[test]
fn loaded_names_are_unique_per_id() {
    let tl = TagList::from_file(&lines(&["0 Lunch", "1 Gym"])).unwrap();
    assert_ne!(tl.get_tag(0).unwrap(), tl.get_tag(1).unwrap());
}

#[test]
fn rename_repoints_both_directions() {
    let mut tl = TagList::from_file(&lines(&["0 Lunch", "1 Gym"])).unwrap();
    let before = tl.get_id("Lunch").unwrap();
    tl.rename_tag("Lunch".to_string(), "Dinner".to_string()).unwrap();
    assert_eq!(tl.get_id("Dinner").unwrap(), before);
    assert!(matches!(tl.get_id("Lunch"), Err(DBError::UnknownTag(_))));
}

#[test]
fn rename_collision_leaves_dictionary_unchanged() {
    let mut tl = TagList::from_file(&lines(&["0 Lunch", "1 Gym"])).unwrap();
    let before = tl.to_lines();
    let r = tl.rename_tag("Lunch".to_string(), "Gym".to_string());
    assert!(matches!(r, Err(DBError::TagAlreadyExists)));
    assert_eq!(tl.to_lines(), before);
}

#[test]
fn rename_unknown_old_tag_fails() {
    let mut tl = TagList::from_file(&lines(&["0 Lunch"])).unwrap();
    let before = tl.to_lines();
    let r = tl.rename_tag("Dinner".to_string(), "Supper".to_string());
    assert!(matches!(r, Err(DBError::UnknownTag(_))));
    assert_eq!(tl.to_lines(), before);
}

#[test]
fn to_lines_keeps_the_stored_order() {
    let tl = TagList::from_file(&lines(&["3 Walk", "0 Lunch"])).unwrap();
    assert_eq!(tl.to_lines(), lines(&["3 Walk", "0 Lunch"]));
}

#[test]
fn db_error_codes() {
    assert_eq!(DBError::IoError(String::new()).into_code(), 1);
    assert_eq!(DBError::CorruptedTagsFile(String::new()).into_code(), 2);
    assert_eq!(DBError::UnknownTag(String::new()).into_code(), 3);
    assert_eq!(DBError::UnknownId(9).into_code(), 4);
    assert_eq!(DBError::TagAlreadyExists.into_code(), 5);
}

#[test]
fn merge_picks_the_more_used_tag() {
    let mut tl = TagList::from_file(&lines(&["0 Lunch", "1 Gym"])).unwrap();
    let (winner, loser) = tl.merge_tags("Lunch", "Gym", 2, 9).unwrap();
    assert_eq!((winner, loser), (1, 0));
    assert_eq!(tl.to_lines(), lines(&["1 Gym"]));
}

#[test]
fn merge_tie_keeps_the_first_tag() {
    let mut tl = TagList::from_file(&lines(&["0 Lunch", "1 Gym"])).unwrap();
    let (winner, loser) = tl.merge_tags("Lunch", "Gym", 4, 4).unwrap();
    assert_eq!((winner, loser), (0, 1));
    assert_eq!(tl.to_lines(), lines(&["0 Lunch"]));
}

#[test]
fn merge_unknown_tag_fails() {
    let mut tl = TagList::from_file(&lines(&["0 Lunch"])).unwrap();
    assert!(matches!(tl.merge_tags("Nope", "Lunch", 0, 0), Err(DBError::UnknownTag(_))));
    assert!(matches!(tl.merge_tags("Lunch", "Nope", 0, 0), Err(DBError::UnknownTag(_))));
    assert_eq!(tl.to_lines(), lines(&["0 Lunch"]));
}

#[test]
fn merge_rewrites_entries_without_duplicates() {
    let entries = vec![
        DataEntry::new(9, 80, 70, vec![1, 2, 1]),
        DataEntry::new(10, 90, 60, vec![1]),
        DataEntry::new(11, 50, 50, vec![3]),
    ];
    let merged = apply_merge(&entries, 1, 2);
    assert_eq!(merged[0].tags, vec![2]);
    assert_eq!(merged[1].tags, vec![2]);
    assert_eq!(merged[2].tags, vec![3]);
}

#[test]
fn merge_rewrite_is_idempotent_per_file() {
    let entries = vec![
        DataEntry::new(9, 80, 70, vec![4, 9, 4, 2, 9]),
        DataEntry::new(10, 90, 60, vec![9, 9]),
    ];
    let once = apply_merge(&entries, 4, 9);
    let twice = apply_merge(&once, 4, 9);
    assert_eq!(once.len(), twice.len());
    for (a, b) in once.iter().zip(twice.iter()) {
        assert_eq!(a.tags, b.tags);
    }
}

#[test]
fn display_entry_names_known_tags() {
    let tl = TagList::from_file(&lines(&["0 Lunch"])).unwrap();
    let e = DataEntry::new(13, 85, 81, vec![0, 99]);
    assert_eq!(e.temp_display_entry(&tl), "\n 13:00 | 85 | 81 | Lunch UNKNOWN_ID ");
}
