use delay_mirror::cache::{
    cleanup_cutoff, cutoff_at, is_fresh, is_valid, is_valid_at, usable, PackageMetadata,
};
use delay_mirror::json::Json;
use delay_mirror::timestamp::Timestamp;

fn at(secs: i64, nanos: u32) -> Timestamp {
    Timestamp { secs, nanos }
}

fn kept(secs: i64) -> PackageMetadata {
    PackageMetadata {
        package_name: "lodash".to_string(),
        metadata: Json::object().put("name", Json::string("lodash")),
        last_updated: at(secs, 0),
    }
}

#[test]
fn an_entry_is_fresh_up_to_its_age_limit() {
    let now = at(1_000_000, 500);
    assert!(is_fresh(&now, &at(1_000_000 - 3600, 500), 1));
    assert!(!is_fresh(&now, &at(1_000_000 - 3600, 499), 1));
    assert!(is_fresh(&now, &at(2_000_000, 0), 1));
    assert!(is_fresh(&now, &at(1_000_000 - 24 * 3600, 500), 24));
}

#[test]
fn an_older_limit_keeps_more() {
    let now = at(1_000_000, 0);
    for age in [0, 3599, 3600, 3601, 86_400] {
        if is_fresh(&now, &at(1_000_000 - age, 0), 1) {
            assert!(is_fresh(&now, &at(1_000_000 - age, 0), 2));
        }
    }
}

#[test]
fn only_a_kept_entry_is_valid() {
    let now = at(1_000_000, 0);
    assert!(is_valid_at(&now, &Some(kept(999_000)), 24));
    assert!(!is_valid_at(&now, &Some(kept(0)), 24));
    assert!(!is_valid_at(&now, &None, 24));
    assert!(!is_valid(&None, 24));
    assert!(!is_valid(&Some(kept(0)), 24));
}

#[test]
fn the_cutoff_lies_the_given_hours_back() {
    assert_eq!(cutoff_at(&at(1_000_000, 7), 2), at(992_800, 7));
    assert!(cleanup_cutoff(24).at_most(&cleanup_cutoff(1)));
}

#[test]
fn a_kept_entry_is_used_only_while_it_is_good() {
    assert_eq!(
        usable(Some(true), Some(kept(0))),
        Some(Json::object().put("name", Json::string("lodash")))
    );
    assert_eq!(usable(Some(false), Some(kept(0))), None);
    assert_eq!(usable(None, Some(kept(0))), None);
    assert_eq!(usable(Some(true), None), None);
}
