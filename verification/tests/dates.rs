use nextsyncengine::dates::{date_level_paths, date_path, depth_of_str, derive_levels, Depth};

#[test]
fn test_date_path_day_depth() {
    // the calendar date of 2024-03-05T10:00:00Z, at each depth
    assert_eq!(date_path(2024, 3, 5, Depth::Day), "2024/03/05".to_string());
}

#[test]
fn test_date_path_month_depth() {
    assert_eq!(date_path(2024, 3, 5, Depth::Month), "2024/03".to_string());
}

#[test]
fn test_date_path_year_depth() {
    assert_eq!(date_path(2024, 3, 5, Depth::Year), "2024".to_string());
}

#[test]
fn test_date_path_zero_pads_month_and_day() {
    assert_eq!(date_path(2023, 11, 9, Depth::Day), "2023/11/09".to_string());
    assert_eq!(date_path(2023, 1, 31, Depth::Day), "2023/01/31".to_string());
}

#[test]
fn test_depth_of_str() {
    assert_eq!(depth_of_str("year"), Depth::Year);
    assert_eq!(depth_of_str("month"), Depth::Month);
    assert_eq!(depth_of_str("day"), Depth::Day);
    // anything else selects the full day hierarchy
    assert_eq!(depth_of_str("weekly"), Depth::Day);
}

#[test]
fn test_date_level_paths_day() {
    let levels = date_level_paths("/Test", 2024, 3, 5, Depth::Day);
    assert_eq!(levels.len(), 3);
    assert_eq!(levels[0].parent, "/Test".to_string());
    assert_eq!(levels[0].name, "2024".to_string());
    assert_eq!(levels[0].full, "/Test/2024".to_string());
    assert_eq!(levels[1].parent, "/Test/2024".to_string());
    assert_eq!(levels[1].name, "03".to_string());
    assert_eq!(levels[1].full, "/Test/2024/03".to_string());
    assert_eq!(levels[2].parent, "/Test/2024/03".to_string());
    assert_eq!(levels[2].name, "05".to_string());
    assert_eq!(levels[2].full, "/Test/2024/03/05".to_string());
}

#[test]
fn test_date_level_paths_year() {
    let levels = date_level_paths("/Test", 2024, 3, 5, Depth::Year);
    assert_eq!(levels.len(), 1);
    assert_eq!(levels[0].full, "/Test/2024".to_string());
}

#[test]
fn test_derive_levels_epoch() {
    // the Unix epoch falls on 1969-12-31 or 1970-01-01 in every time zone
    match derive_levels("/Test", 0, Depth::Day) {
        Some(((y, m, d), levels)) => {
            assert!(y == 1969 || y == 1970);
            assert!((1..=12).contains(&m));
            assert!((1..=31).contains(&d));
            assert_eq!(levels.len(), 3);
            assert!(levels[0].full.starts_with("/Test/19"));
        }
        None => panic!("the epoch timestamp must map to a date"),
    }
}
