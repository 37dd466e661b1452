use stat_diary_tools::cache_handling::{
    compute_overview, regenerate_caches, MonthDir, MonthItem, RegenCachesError, YearDir, YearItem,
};
use stat_diary_tools::codec::{encode, DataEntry};
use stat_diary_tools::resume::{resume, ResumeOutcome};

fn day_file(name: &str, entries: Vec<DataEntry>) -> MonthItem {
    MonthItem::DayFile { name: name.to_string(), bytes: encode(&entries) }
}

fn day_a() -> Vec<DataEntry> {
    vec![DataEntry::new(9, 80, 70, vec![1]), DataEntry::new(10, 90, 60, vec![2])]
}

fn day_b() -> Vec<DataEntry> {
    vec![DataEntry::new(9, 70, 70, vec![1, 2])]
}

fn sample_year() -> Vec<YearDir> {
    let month = MonthDir {
        name: "8".to_string(),
        items: vec![day_file("02-3.statdiary", day_a()), day_file("03-4.statdiary", day_b())],
    };
    vec![YearDir { name: "2023".to_string(), items: vec![YearItem::MonthFolder(month)] }]
}

#[test]
fn day_overview_values() {
    let o = compute_overview(&day_a());
    assert_eq!(o.min_m_score, 80);
    assert_eq!(o.max_m_score, 90);
    assert_eq!(o.avg_m_micro, 85_000_000);
    assert_eq!(o.min_p_score, 60);
    assert_eq!(o.max_p_score, 70);
    assert_eq!(o.avg_p_micro, 65_000_000);
    assert_eq!(o.tags, vec![1, 2]);
    assert_eq!(o.avg_m_micro as f64 / 1e6, 85.0);
    assert_eq!(o.avg_p_micro as f64 / 1e6, 65.0);
}

#[test]
fn aggregation_scenario() {
    let out = regenerate_caches(&sample_year()).unwrap();
    assert_eq!(out.len(), 1);
    assert_eq!(out[0].name, "2023");
    assert_eq!(out[0].year_lines, vec!["8 | 77.5 | 67.5".to_string()]);
    assert_eq!(out[0].months.len(), 1);
    assert_eq!(out[0].months[0].name, "8");
    assert_eq!(
        out[0].months[0].lines,
        vec![
            "02-3.statdiary | 80 90 85 | 60 70 65 | 1 2".to_string(),
            "03-4.statdiary | 70 70 70 | 70 70 70 | 1 2".to_string(),
        ]
    );
}

#[test]
fn averages_render_leading_zero_fractions() {
    // Nineteen zero scores and a single one: the average is 0.05.
    let mut entries = vec![DataEntry::new(0, 1, 1, vec![])];
    for _ in 0..19 {
        entries.push(DataEntry::new(0, 0, 0, vec![]));
    }
    let o = compute_overview(&entries);
    assert_eq!(o.avg_m_micro, 50_000);
    assert_eq!(o.to_data_str(), "0 1 0.05 | 0 1 0.05 |");
}

#[test]
fn month_mean_truncates_non_terminating_averages() {
    let month = MonthDir {
        name: "8".to_string(),
        items: vec![
            day_file("01-1.statdiary", vec![DataEntry::new(8, 80, 80, vec![])]),
            day_file("02-2.statdiary", vec![DataEntry::new(8, 81, 81, vec![])]),
            day_file("03-3.statdiary", vec![DataEntry::new(8, 81, 81, vec![])]),
        ],
    };
    let data =
        vec![YearDir { name: "2023".to_string(), items: vec![YearItem::MonthFolder(month)] }];
    let out = regenerate_caches(&data).unwrap();
    assert_eq!(out[0].year_lines, vec!["8 | 80.666666 | 80.666666".to_string()]);
}

#[test]
fn month_named_13_is_an_anomaly() {
    let data = vec![YearDir {
        name: "2023".to_string(),
        items: vec![YearItem::MonthFolder(MonthDir { name: "13".to_string(), items: vec![] })],
    }];
    match regenerate_caches(&data) {
        Err(RegenCachesError::FoundUnknownFolder(p)) => assert_eq!(p, "2023/13"),
        other => panic!("expected FoundUnknownFolder, got {other:?}"),
    }
}

#[test]
fn month_named_abc_is_an_anomaly() {
    let data = vec![YearDir {
        name: "2023".to_string(),
        items: vec![YearItem::MonthFolder(MonthDir { name: "abc".to_string(), items: vec![] })],
    }];
    match regenerate_caches(&data) {
        Err(RegenCachesError::FoundUnknownFolder(p)) => assert_eq!(p, "2023/abc"),
        other => panic!("expected FoundUnknownFolder, got {other:?}"),
    }
}

#[test]
fn month_zero_is_an_anomaly() {
    let data = vec![YearDir {
        name: "2023".to_string(),
        items: vec![YearItem::MonthFolder(MonthDir { name: "0".to_string(), items: vec![] })],
    }];
    assert!(matches!(regenerate_caches(&data), Err(RegenCachesError::FoundUnknownFolder(_))));
}

#[test]
fn empty_day_file_is_rejected() {
    let data = vec![YearDir {
        name: "2023".to_string(),
        items: vec![YearItem::MonthFolder(MonthDir {
            name: "8".to_string(),
            items: vec![MonthItem::DayFile { name: "02-3.statdiary".to_string(), bytes: vec![] }],
        })],
    }];
    match regenerate_caches(&data) {
        Err(RegenCachesError::EmptyDayFile(p)) => assert_eq!(p, "2023/8/02-3.statdiary"),
        other => panic!("expected EmptyDayFile, got {other:?}"),
    }
}

#[test]
fn truncated_day_file_is_rejected() {
    let mut bytes = encode(&day_a());
    bytes.pop();
    let data = vec![YearDir {
        name: "2023".to_string(),
        items: vec![YearItem::MonthFolder(MonthDir {
            name: "8".to_string(),
            items: vec![MonthItem::DayFile { name: "02-3.statdiary".to_string(), bytes }],
        })],
    }];
    match regenerate_caches(&data) {
        Err(RegenCachesError::FormatError(p)) => assert_eq!(p, "2023/8/02-3.statdiary"),
        other => panic!("expected FormatError, got {other:?}"),
    }
}

#[test]
fn foreign_files_and_folders_are_rejected() {
    let data = vec![YearDir {
        name: "2023".to_string(),
        items: vec![YearItem::PlainFile { name: "notes.txt".to_string() }],
    }];
    assert!(matches!(regenerate_caches(&data), Err(RegenCachesError::FoundUnknownFile(_))));

    let data = vec![YearDir {
        name: "2023".to_string(),
        items: vec![YearItem::MonthFolder(MonthDir {
            name: "8".to_string(),
            items: vec![MonthItem::Subdir { name: "extra".to_string() }],
        })],
    }];
    assert!(matches!(regenerate_caches(&data), Err(RegenCachesError::FoundUnknownFolder(_))));

    let data = vec![YearDir {
        name: "2023".to_string(),
        items: vec![YearItem::MonthFolder(MonthDir {
            name: "8".to_string(),
            items: vec![MonthItem::DayFile { name: "02-3.bin".to_string(), bytes: vec![] }],
        })],
    }];
    assert!(matches!(regenerate_caches(&data), Err(RegenCachesError::FoundUnknownFile(_))));
}

#[test]
fn old_cache_files_are_skipped() {
    let month = MonthDir {
        name: "8".to_string(),
        items: vec![
            MonthItem::DayFile { name: "02-3.statdiary".to_string(), bytes: encode(&day_a()) },
            MonthItem::DayFile { name: "month_cache.txt".to_string(), bytes: vec![1, 2, 3] },
        ],
    };
    let data = vec![YearDir {
        name: "2023".to_string(),
        items: vec![
            YearItem::MonthFolder(month),
            YearItem::PlainFile { name: "year_cache.txt".to_string() },
        ],
    }];
    let out = regenerate_caches(&data).unwrap();
    assert_eq!(out[0].months[0].lines.len(), 1);
    assert_eq!(out[0].year_lines.len(), 1);
}

#[test]
fn empty_month_gets_no_year_line() {
    let data = vec![YearDir {
        name: "2023".to_string(),
        items: vec![YearItem::MonthFolder(MonthDir { name: "8".to_string(), items: vec![] })],
    }];
    let out = regenerate_caches(&data).unwrap();
    assert_eq!(out[0].year_lines.len(), 0);
    assert_eq!(out[0].months[0].lines.len(), 0);
}

#[test]
fn regen_error_codes() {
    assert_eq!(RegenCachesError::InvalidRoot.into_code(), 1);
    assert_eq!(RegenCachesError::IoError(String::new()).into_code(), 2);
    assert_eq!(RegenCachesError::FoundUnknownFile(String::new()).into_code(), 3);
    assert_eq!(RegenCachesError::FoundUnknownFolder(String::new()).into_code(), 4);
    assert_eq!(RegenCachesError::FormatError(String::new()).into_code(), 5);
    assert_eq!(RegenCachesError::EmptyDayFile(String::new()).into_code(), 6);
}

#[test]
fn resume_after_crashed_rebuild_matches_clean_run() {
    let data = sample_year();
    let clean = regenerate_caches(&data).unwrap();
    match resume(Some("1|".to_string()), &data) {
        Ok(ResumeOutcome::RebuildRun(Ok(redone))) => {
            assert_eq!(redone.len(), clean.len());
            for (a, b) in redone.iter().zip(clean.iter()) {
                assert_eq!(a.name, b.name);
                assert_eq!(a.year_lines, b.year_lines);
                assert_eq!(a.months.len(), b.months.len());
                for (ma, mb) in a.months.iter().zip(b.months.iter()) {
                    assert_eq!(ma.name, mb.name);
                    assert_eq!(ma.lines, mb.lines);
                }
            }
        }
        other => panic!("expected a recomputed rebuild, got {other:?}"),
    }
}

#[test]
fn resume_dispatches_on_the_recorded_task() {
    let data: Vec<YearDir> = vec![];
    assert!(matches!(resume(None, &data), Ok(ResumeOutcome::NothingPending)));
    assert!(matches!(resume(Some("0|".to_string()), &data), Ok(ResumeOutcome::NothingPending)));
    match resume(Some("2|Lunch Dinner".to_string()), &data) {
        Ok(ResumeOutcome::MergePending(a, b)) => {
            assert_eq!(a, "Lunch");
            assert_eq!(b, "Dinner");
        }
        other => panic!("expected a pending merge, got {other:?}"),
    }
    match resume(Some("3|Old New".to_string()), &data) {
        Ok(ResumeOutcome::RenamePending(a, b)) => {
            assert_eq!(a, "Old");
            assert_eq!(b, "New");
        }
        other => panic!("expected a pending rename, got {other:?}"),
    }
    assert!(resume(Some("nonsense".to_string()), &data).is_err());
}
