use bangumi::filter::{CombineMode, FilterRule, FilterSet};
use bangumi::renamer::BangumiInfo;

fn info(show: &str, episode: u64, tag: Option<&str>, category: Option<&str>) -> BangumiInfo {
    BangumiInfo {
        show_name: String::from(show),
        episode_name: None,
        display_name: tag.map(String::from),
        season: 1,
        episode,
        category: category.map(String::from),
    }
}

#[test]
fn test_empty_rule_set_matches_everything() {
    let all = FilterSet { mode: CombineMode::All, rules: vec![] };
    let any = FilterSet { mode: CombineMode::Any, rules: vec![] };
    let i = info("Show", 1, None, None);
    assert!(all.is_match(&i));
    assert!(any.is_match(&i));
}

#[test]
fn test_all_mode_is_conjunctive() {
    let set = FilterSet {
        mode: CombineMode::All,
        rules: vec![
            FilterRule::ShowNameIs(String::from("Show")),
            FilterRule::MinEpisode(5),
        ],
    };
    assert!(set.is_match(&info("Show", 5, None, None)));
    assert!(!set.is_match(&info("Show", 4, None, None)));
    assert!(!set.is_match(&info("Other", 9, None, None)));
}

#[test]
fn test_any_mode_is_disjunctive() {
    let set = FilterSet {
        mode: CombineMode::Any,
        rules: vec![
            FilterRule::ShowNameIs(String::from("Show")),
            FilterRule::MinEpisode(5),
        ],
    };
    assert!(set.is_match(&info("Show", 1, None, None)));
    assert!(set.is_match(&info("Other", 7, None, None)));
    assert!(!set.is_match(&info("Other", 1, None, None)));
}

#[test]
fn test_tag_rules() {
    let wants = FilterSet {
        mode: CombineMode::All,
        rules: vec![FilterRule::TagIs(String::from("1080p"))],
    };
    assert!(wants.is_match(&info("S", 1, Some("1080p"), None)));
    assert!(!wants.is_match(&info("S", 1, Some("720p"), None)));
    assert!(!wants.is_match(&info("S", 1, None, None)));

    let rejects = FilterSet {
        mode: CombineMode::All,
        rules: vec![FilterRule::TagIsNot(String::from("720p"))],
    };
    assert!(rejects.is_match(&info("S", 1, Some("1080p"), None)));
    assert!(rejects.is_match(&info("S", 1, None, None)));
    assert!(!rejects.is_match(&info("S", 1, Some("720p"), None)));
}

#[test]
fn test_category_rule() {
    let set = FilterSet {
        mode: CombineMode::All,
        rules: vec![FilterRule::CategoryIs(String::from("anime"))],
    };
    assert!(set.is_match(&info("S", 1, None, Some("anime"))));
    assert!(!set.is_match(&info("S", 1, None, Some("film"))));
    assert!(!set.is_match(&info("S", 1, None, None)));
}

#[test]
fn test_rule_order_irrelevant() {
    let a = FilterSet {
        mode: CombineMode::All,
        rules: vec![
            FilterRule::ShowNameIs(String::from("Show")),
            FilterRule::MinEpisode(5),
        ],
    };
    let b = FilterSet {
        mode: CombineMode::All,
        rules: vec![
            FilterRule::MinEpisode(5),
            FilterRule::ShowNameIs(String::from("Show")),
        ],
    };
    for i in [info("Show", 5, None, None), info("Show", 4, None, None), info("X", 9, None, None)] {
        assert_eq!(a.is_match(&i), b.is_match(&i));
    }
}
