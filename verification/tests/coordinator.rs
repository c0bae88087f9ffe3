use usage_aggregator::aggregate::Aggregate;
use usage_aggregator::coordinator::merge_outcomes;
use usage_aggregator::coordinator::NUMBER_OF_WORKERS;
use usage_aggregator::errors::LogParserError;
use usage_aggregator::log_parser::LogParser;
use usage_aggregator::owner_usage::OwnerUsage;

fn file_aggregate(owner: u32, video_plays: u32, ad_impressions: u32) -> Aggregate {
    let mut aggregate = Aggregate::new();
    aggregate.set(owner, OwnerUsage::new(video_plays, ad_impressions));
    aggregate
}

#[test]
fn round_trip_aggregate() {
    let lines = vec![
        "https://s/p?o=123&v=1&i=1\n".to_string(),
        "https://s/p?o=123&v=2\n".to_string(),
        "https://s/p?o=123&v=3\n".to_string(),
        "https://s/p?o=444&v=1&i=1\n".to_string(),
    ];
    let parser = LogParser::new("round_trip.txt");
    let outcomes = vec![parser.parse_lines(&lines)];

    let aggregate = merge_outcomes(&outcomes).unwrap();

    assert_eq!(aggregate.len(), 2);
    let usage_123 = aggregate.get(123).unwrap();
    assert_eq!(usage_123.get_video_plays(), 3);
    assert_eq!(usage_123.get_ad_impressions(), 1);
    let usage_444 = aggregate.get(444).unwrap();
    assert_eq!(usage_444.get_video_plays(), 1);
    assert_eq!(usage_444.get_ad_impressions(), 1);
}

#[test]
fn more_files_than_workers_still_merge_completely() {
    // More outcomes than the concurrency bound: every one must be merged.
    let count = NUMBER_OF_WORKERS + 2;
    let mut outcomes: Vec<Result<Aggregate, LogParserError>> = Vec::new();
    for owner in 0..count as u32 {
        outcomes.push(Ok(file_aggregate(owner, owner + 1, 1)));
    }
    // One owner shared by every file on top of that.
    for outcome in outcomes.iter_mut() {
        if let Ok(aggregate) = outcome.as_mut() {
            aggregate.set(1000, OwnerUsage::new(1, 2));
        }
    }

    let merged = merge_outcomes(&outcomes).unwrap();

    assert_eq!(merged.len(), count + 1);
    for owner in 0..count as u32 {
        let usage = merged.get(owner).unwrap();
        assert_eq!(usage.get_video_plays(), owner + 1);
        assert_eq!(usage.get_ad_impressions(), 1);
    }
    let shared = merged.get(1000).unwrap();
    assert_eq!(shared.get_video_plays(), count as u32);
    assert_eq!(shared.get_ad_impressions(), 2 * count as u32);
}

#[test]
fn zero_files_yield_the_empty_aggregate() {
    let outcomes: Vec<Result<Aggregate, LogParserError>> = Vec::new();

    let merged = merge_outcomes(&outcomes).unwrap();

    assert_eq!(merged.len(), 0);
    assert!(merged.get(0).is_none());
}

#[test]
fn the_first_error_outcome_is_surfaced_and_nothing_is_merged_after_it() {
    let outcomes = vec![
        Ok(file_aggregate(1, 1, 1)),
        Err(LogParserError::Custom("No query string found!".to_string())),
        Ok(file_aggregate(2, 1, 1)),
        Err(LogParserError::Io("open failed".to_string())),
    ];

    let result = merge_outcomes(&outcomes);

    match result {
        Err(LogParserError::Custom(message)) => {
            assert_eq!(message, "No query string found!");
        }
        other => panic!("expected the first error back, got {:?}", other),
    }
}

#[test]
fn a_merge_overflow_is_an_overflow_failure() {
    let outcomes = vec![
        Ok(file_aggregate(7, u32::MAX, 0)),
        Ok(file_aggregate(7, 1, 0)),
    ];

    let result = merge_outcomes(&outcomes);

    match result {
        Err(LogParserError::Overflow(message)) => {
            assert_eq!(
                message,
                "Possible overflow occured when merging per-file aggregates!"
            );
        }
        other => panic!("expected an overflow failure, got {:?}", other),
    }
}

#[test]
fn merging_in_any_order_yields_the_same_aggregate() {
    let a = file_aggregate(1, 2, 3);
    let b = {
        let mut aggregate = file_aggregate(1, 5, 7);
        aggregate.set(2, OwnerUsage::new(11, 13));
        aggregate
    };
    let c = file_aggregate(3, 1, 1);

    let one_order = vec![
        Ok(a),
        Ok(b),
        Ok(c),
    ];
    let other_order: Vec<Result<Aggregate, LogParserError>> = vec![
        Ok(file_aggregate(3, 1, 1)),
        Ok({
            let mut aggregate = file_aggregate(1, 5, 7);
            aggregate.set(2, OwnerUsage::new(11, 13));
            aggregate
        }),
        Ok(file_aggregate(1, 2, 3)),
    ];

    let merged_one = merge_outcomes(&one_order).unwrap();
    let merged_other = merge_outcomes(&other_order).unwrap();

    assert_eq!(merged_one.len(), merged_other.len());
    for owner in [1, 2, 3] {
        let left = merged_one.get(owner).unwrap();
        let right = merged_other.get(owner).unwrap();
        assert_eq!(left.get_video_plays(), right.get_video_plays());
        assert_eq!(left.get_ad_impressions(), right.get_ad_impressions());
    }
    assert_eq!(merged_one.get(1).unwrap().get_video_plays(), 7);
    assert_eq!(merged_one.get(1).unwrap().get_ad_impressions(), 10);
}
