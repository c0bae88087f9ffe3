use usage_aggregator::aggregate::Aggregate;
use usage_aggregator::log_parser::LogParser;
use usage_aggregator::owner_usage::OwnerUsage;

#[test]
fn set_replaces_an_owner_and_appends_a_new_one() {
    let mut aggregate = Aggregate::new();
    assert_eq!(aggregate.len(), 0);

    aggregate.set(5, OwnerUsage::new(1, 2));
    aggregate.set(9, OwnerUsage::new(3, 4));
    aggregate.set(5, OwnerUsage::new(10, 20));

    assert_eq!(aggregate.len(), 2);
    let five = aggregate.get(5).unwrap();
    assert_eq!(five.get_video_plays(), 10);
    assert_eq!(five.get_ad_impressions(), 20);
    assert!(aggregate.get(7).is_none());

    // Owners keep the position of their first insertion.
    assert_eq!(aggregate.entry_at(0).0, 5);
    assert_eq!(aggregate.entry_at(1).0, 9);
}

#[test]
fn merged_adds_shared_owners_and_keeps_the_rest() {
    let mut left = Aggregate::new();
    left.set(1, OwnerUsage::new(2, 3));
    left.set(2, OwnerUsage::new(1, 1));
    let mut right = Aggregate::new();
    right.set(1, OwnerUsage::new(10, 30));
    right.set(3, OwnerUsage::new(5, 5));

    let merged = left.merged(&right).unwrap();

    assert_eq!(merged.len(), 3);
    assert_eq!(merged.get(1).unwrap().get_video_plays(), 12);
    assert_eq!(merged.get(1).unwrap().get_ad_impressions(), 33);
    assert_eq!(merged.get(2).unwrap().get_video_plays(), 1);
    assert_eq!(merged.get(3).unwrap().get_ad_impressions(), 5);
}

#[test]
fn merged_reports_overflow_and_merges_both_ways_equally() {
    let mut left = Aggregate::new();
    left.set(1, OwnerUsage::new(u32::MAX, 0));
    let mut right = Aggregate::new();
    right.set(1, OwnerUsage::new(1, 0));

    assert!(left.merged(&right).is_none());
    assert!(right.merged(&left).is_none());

    let mut small = Aggregate::new();
    small.set(1, OwnerUsage::new(0, 1));
    let one_way = left.merged(&small).unwrap();
    let other_way = small.merged(&left).unwrap();
    assert_eq!(
        one_way.get(1).unwrap().get_video_plays(),
        other_way.get(1).unwrap().get_video_plays()
    );
    assert_eq!(
        one_way.get(1).unwrap().get_ad_impressions(),
        other_way.get(1).unwrap().get_ad_impressions()
    );
}

#[test]
fn an_owner_without_signals_still_gets_an_entry() {
    let parser = LogParser::new("log.txt");
    let aggregate = parser.parse_lines(&vec!["https://s/p?o=9\n".to_string()]).unwrap();

    let usage = aggregate.get(9).unwrap();
    assert_eq!(usage.get_video_plays(), 0);
    assert_eq!(usage.get_ad_impressions(), 0);
}

#[test]
fn signals_increment_by_one_whatever_their_values_are() {
    let parser = LogParser::new("log.txt");
    let aggregate = parser
        .parse_lines(&vec!["https://s/p?o=9&v=999999&i=123456\n".to_string()])
        .unwrap();

    let usage = aggregate.get(9).unwrap();
    assert_eq!(usage.get_video_plays(), 1);
    assert_eq!(usage.get_ad_impressions(), 1);
}
