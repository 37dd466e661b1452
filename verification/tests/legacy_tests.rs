use stat_diary_tools::averages::{regenerate_tag_sums, DBAveragesError, TagSumFile, Tags};
use stat_diary_tools::codec::{decode, DataEntry};
use stat_diary_tools::legacy::{
    day_of_week, transform_data_lines, transformed_file_name, ImportError, ImportTags,
};

fn lines(v: &[&str]) -> Vec<String> {
    v.iter().map(|s| s.to_string()).collect()
}

#[test]
fn transform_example_line() {
    let mut tags = ImportTags::new();
    let bytes = transform_data_lines(
        &lines(&["|13:00|85,8|81,5|Lunch Geoguessr Youtube"]),
        &mut tags,
    )
    .unwrap();
    assert_eq!(bytes, vec![13, 85, 81, 0, 0, 0, 1, 0, 2, 255, 255]);
    assert_eq!(tags.to_lines(), lines(&["0 Lunch", "1 Geoguessr", "2 Youtube"]));
}

#[test]
fn transform_reuses_known_tag_ids() {
    let mut tags = ImportTags::new();
    let bytes = transform_data_lines(
        &lines(&["|9:00|80,0|70,0|Lunch", "|10:00|90,0|60,0|Gym Lunch"]),
        &mut tags,
    )
    .unwrap();
    let entries = decode(&bytes).unwrap();
    assert_eq!(entries.len(), 2);
    assert_eq!(entries[0].tags, vec![0]);
    assert_eq!(entries[1].tags, vec![1, 0]);
    assert_eq!(tags.to_lines(), lines(&["0 Lunch", "1 Gym"]));
}

#[test]
fn transformed_bytes_decode_back() {
    let mut tags = ImportTags::new();
    let bytes =
        transform_data_lines(&lines(&["|23:30|255,0|0,9|Edge"]), &mut tags).unwrap();
    let entries: Vec<DataEntry> = decode(&bytes).unwrap();
    assert_eq!(entries[0].hour, 23);
    assert_eq!(entries[0].mental_score, 255);
    assert_eq!(entries[0].physical_score, 0);
    assert_eq!(entries[0].tags, vec![0]);
}

#[test]
fn transform_rejects_malformed_lines() {
    for bad in [
        "13:00|85,8|81,5|Lunch",
        "|13:00|85,8|81,5",
        "|aa:00|85,8|81,5|Lunch",
        "|13:00|300,8|81,5|Lunch",
        "|13:00|85,8|81,5|Lunch  Gym",
        "|13:00|85,8|81,5|",
    ] {
        let mut tags = ImportTags::new();
        let r = transform_data_lines(&lines(&[bad]), &mut tags);
        assert!(matches!(r, Err(ImportError::MalformedLine(_))), "accepted: {bad:?}");
    }
}

#[test]
fn weekday_names_map_to_indexes() {
    let names = ["Monday", "Tuesday", "Wednesday", "Thursday", "Friday", "Saturday", "Sunday"];
    for (i, n) in names.iter().enumerate() {
        assert_eq!(day_of_week(n), i as u8);
    }
    assert_eq!(day_of_week("Caturday"), 255);
}

#[test]
fn legacy_file_names_transform() {
    assert_eq!(transformed_file_name("21-Wednesday").unwrap(), "21-2.statdiary");
    assert_eq!(transformed_file_name("3-Sunday").unwrap(), "3-6.statdiary");
    assert_eq!(transformed_file_name("3-Nonday").unwrap(), "3-255.statdiary");
    assert!(transformed_file_name("nodash").is_none());
}

#[test]
fn tag_sums_count_occurrences() {
    let files = vec![
        TagSumFile {
            stem: "21-2".to_string(),
            entries: vec![
                DataEntry::new(9, 80, 70, vec![1, 2]),
                DataEntry::new(10, 90, 60, vec![1]),
            ],
        },
        TagSumFile {
            stem: "22-3".to_string(),
            entries: vec![DataEntry::new(9, 70, 70, vec![1, 1, 5])],
        },
    ];
    let sums = regenerate_tag_sums(&files).unwrap();
    assert_eq!(sums.get(1), 4);
    assert_eq!(sums.get(2), 1);
    assert_eq!(sums.get(5), 1);
    assert_eq!(sums.get(9), 0);
}

#[test]
fn tag_sums_reject_bad_file_stems() {
    let files = vec![TagSumFile { stem: "nodash".to_string(), entries: vec![] }];
    assert!(matches!(
        regenerate_tag_sums(&files),
        Err(DBAveragesError::InvalidFileName(_))
    ));
}

#[test]
fn tags_table_counts_by_hand() {
    let mut t = Tags::new();
    t.add(7);
    t.add(7);
    t.add(3);
    assert_eq!(t.get(7), 2);
    assert_eq!(t.get(3), 1);
    assert_eq!(t.get(0), 0);
}

#[test]
fn averages_error_codes() {
    assert_eq!(DBAveragesError::IoError(String::new()).into_code(), 1);
    assert_eq!(DBAveragesError::WalkDirError(String::new()).into_code(), 2);
    assert_eq!(DBAveragesError::InvalidFileName(String::new()).into_code(), 3);
}
