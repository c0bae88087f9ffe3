use usage_aggregator::errors::LogParserError;
use usage_aggregator::log_parser::LogParser;
use usage_aggregator::owner_usage::OwnerUsage;
use usage_aggregator::query_params::QueryStringParameters;

#[test]
fn test_log_parser() {
    let test_log_path = "test_log.txt";
    let log_lines = vec![
        "https://www.mysite.com/pixel.gif?o=123&v=2222&i=123\n".to_string(),
        "https://www.mysite.com/pixel.gif?o=123&v=3333\n".to_string(),
        "https://www.mysite.com/pixel.gif?o=123&v=4444\n".to_string(),
        "https://www.mysite.com/pixel.gif?o=444&v=1111&i=4444\n".to_string(),
    ];

    let log_parser = LogParser::new(&test_log_path);
    let owner_usage_map = log_parser.parse_lines(&log_lines);

    assert!(!owner_usage_map.is_err());

    let owner_usage_map = owner_usage_map.unwrap();

    // Check first Owner
    let owner_usage_for_owner_123 = owner_usage_map.get(123).unwrap();

    assert_eq!(owner_usage_for_owner_123.get_video_plays(), 3);
    assert_eq!(owner_usage_for_owner_123.get_ad_impressions(), 1);
    // Check second owner
    let owner_usage_for_owner_444 = owner_usage_map.get(444).unwrap();

    assert_eq!(owner_usage_for_owner_444.get_video_plays(), 1);
    assert_eq!(owner_usage_for_owner_444.get_ad_impressions(), 1);
}

#[test]
fn test_increment_hash_map_field() {
    let test_log_file = "not_exist_log.txt";
    let log_parser = LogParser::new(test_log_file);
    let mut owner_usage_hash_map = OwnerUsage::default();
    let query_string = "o=111&v=222&i=333";

    log_parser
        .increment_hash_map_field(
            &mut owner_usage_hash_map,
            &query_string,
            &QueryStringParameters::resolve_query_string_parameter(
                &QueryStringParameters::VideoId,
            ),
            "video_plays",
        )
        .unwrap();

    log_parser
        .increment_hash_map_field(
            &mut owner_usage_hash_map,
            &query_string,
            &QueryStringParameters::resolve_query_string_parameter(
                &QueryStringParameters::AdUnitId,
            ),
            "ad_impressions",
        )
        .unwrap();

    assert_eq!(owner_usage_hash_map.get_video_plays(), 1);
    assert_eq!(owner_usage_hash_map.get_ad_impressions(), 1);

    let query_string_with_v_only = "o=111&v=333";

    log_parser
        .increment_hash_map_field(
            &mut owner_usage_hash_map,
            &query_string_with_v_only,
            &QueryStringParameters::resolve_query_string_parameter(
                &QueryStringParameters::VideoId,
            ),
            "video_plays",
        )
        .unwrap();

    assert_eq!(owner_usage_hash_map.get_video_plays(), 2);
    assert_eq!(owner_usage_hash_map.get_ad_impressions(), 1);

    let query_string_with_i_only = "o=111&i=333";

    log_parser
        .increment_hash_map_field(
            &mut owner_usage_hash_map,
            &query_string_with_i_only,
            &QueryStringParameters::resolve_query_string_parameter(
                &QueryStringParameters::AdUnitId,
            ),
            "ad_impressions",
        )
        .unwrap();

    assert_eq!(owner_usage_hash_map.get_video_plays(), 2);
    assert_eq!(owner_usage_hash_map.get_ad_impressions(), 2);
    // Test the overflow
    let mut owner_usage_hash_map = OwnerUsage::new(u32::MAX, u32::MAX);

    let increment_result_none = log_parser.increment_hash_map_field(
        &mut owner_usage_hash_map,
        &query_string,
        &QueryStringParameters::resolve_query_string_parameter(&QueryStringParameters::VideoId),
        "video_plays",
    );

    assert_eq!(increment_result_none, None);

    let increment_result_none = log_parser.increment_hash_map_field(
        &mut owner_usage_hash_map,
        &query_string,
        &QueryStringParameters::resolve_query_string_parameter(&QueryStringParameters::AdUnitId),
        "ad_impressions",
    );

    assert_eq!(increment_result_none, None);

    let test_log_file = "log.txt";
    let mut owner_usage_hash_map = OwnerUsage::default();
    let query_string = "o=111&v=222&i=333";
    let log_parser = LogParser::new(test_log_file);

    log_parser
        .increment_hash_map_field(
            &mut owner_usage_hash_map,
            &query_string,
            &QueryStringParameters::resolve_query_string_parameter(
                &QueryStringParameters::VideoId,
            ),
            "video_plays",
        )
        .unwrap();
}

#[test]
fn a_line_without_a_query_string_is_a_malformed_input_failure() {
    let log_parser = LogParser::new("log.txt");
    let result = log_parser.parse_lines(&vec!["https://s/p".to_string()]);

    match result {
        Err(LogParserError::Custom(message)) => {
            assert_eq!(message, "No query string found!");
        }
        other => panic!("expected a malformed-input failure, got {:?}", other),
    }
}

#[test]
fn a_line_without_an_owner_is_a_malformed_input_failure() {
    let log_parser = LogParser::new("log.txt");
    let result = log_parser.parse_lines(&vec!["https://s/p?v=1".to_string()]);

    match result {
        Err(LogParserError::Custom(message)) => {
            assert_eq!(message, "No owner id found in the query string!");
        }
        other => panic!("expected a malformed-input failure, got {:?}", other),
    }
}

#[test]
fn a_non_numeric_owner_is_a_numeric_parse_failure() {
    let log_parser = LogParser::new("log.txt");
    let result = log_parser.parse_lines(&vec!["https://s/p?o=abc".to_string()]);

    match result {
        Err(LogParserError::ParseIntError(text)) => {
            assert_eq!(text, "abc");
        }
        other => panic!("expected a numeric-parse failure, got {:?}", other),
    }
}

#[test]
fn a_non_numeric_signal_value_is_a_numeric_parse_failure() {
    let log_parser = LogParser::new("log.txt");
    let result = log_parser.parse_lines(&vec!["https://s/p?o=1&v=xyz".to_string()]);

    assert!(matches!(result, Err(LogParserError::ParseIntError(_))));
}

#[test]
fn the_first_bad_line_stops_the_file() {
    let log_parser = LogParser::new("log.txt");
    let lines = vec![
        "https://s/p?o=1&v=1\n".to_string(),
        "https://s/p\n".to_string(),
        "https://s/p?o=2&v=1\n".to_string(),
    ];
    let result = log_parser.parse_lines(&lines);

    assert!(matches!(result, Err(LogParserError::Custom(_))));
}

#[test]
fn error_messages_name_their_kind() {
    let io = LogParserError::Io("open failed".to_string());
    assert_eq!(io.message(), "IO error: open failed");

    let parse = LogParserError::ParseIntError("abc".to_string());
    assert_eq!(parse.message(), "Parse error: abc");

    let custom = LogParserError::Custom("No query string found!".to_string());
    assert_eq!(custom.message(), "Custom error: No query string found!");

    let overflow = LogParserError::Overflow("too much".to_string());
    assert_eq!(overflow.message(), "Overflow error: too much");
}
