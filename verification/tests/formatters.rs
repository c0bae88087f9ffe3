use usage_aggregator::aggregate::Aggregate;
use usage_aggregator::formatters::Formatter;
use usage_aggregator::formatters::FormatterFactory;
use usage_aggregator::formatters::JsonFormatter;
use usage_aggregator::formatters::StdoutFormatter;
use usage_aggregator::owner_usage::OwnerUsage;

fn sample_aggregate() -> Aggregate {
    let mut aggregate = Aggregate::new();
    aggregate.set(123, OwnerUsage::new(3, 1));
    aggregate.set(444, OwnerUsage::new(1, 1));
    aggregate
}

#[test]
fn should_resolve_correct_formatter() {
    assert_eq!(
        FormatterFactory::resolve_formatter(&"json").unwrap().identifier(),
        "json"
    );
    assert_eq!(
        FormatterFactory::resolve_formatter(&"stdout").unwrap().identifier(),
        "stdout"
    );
    assert!(FormatterFactory::resolve_formatter(&"unknown").is_err());
}

#[test]
fn unknown_formatters_are_named_in_the_error() {
    let error = FormatterFactory::resolve_formatter(&"yaml").unwrap_err();

    assert_eq!(error, "Unknown formatter: yaml");
}

#[test]
fn json_formatter_renders_the_aggregate() {
    let aggregate = sample_aggregate();
    let formatter = JsonFormatter {};

    let expected = "[{\n                        \"owner_id\": 123,\n                        \"usage\": {\n                            \"video_plays\": 3,\n                            \"ad_impressions\": 1\n                        }\n                    },{\n                        \"owner_id\": 444,\n                        \"usage\": {\n                            \"video_plays\": 1,\n                            \"ad_impressions\": 1\n                        }\n                    }]";

    assert_eq!(formatter.format(&aggregate), expected);
}

#[test]
fn json_formatter_renders_the_empty_aggregate_as_an_empty_array() {
    let formatter = JsonFormatter {};

    assert_eq!(formatter.format(&Aggregate::new()), "[]");
}

#[test]
fn stdout_formatter_renders_the_aggregate() {
    let aggregate = sample_aggregate();
    let formatter = StdoutFormatter {};

    let expected = "---------------------------------------\nOwner with id: 123\n\nUsage\n\n  Video plays: 3\n  Ad Impressions: 1\n---------------------------------------\nOwner with id: 444\n\nUsage\n\n  Video plays: 1\n  Ad Impressions: 1\n---------------------------------------\n";

    assert_eq!(formatter.format(&aggregate), expected);
}

#[test]
fn a_resolved_formatter_renders_like_its_formatter() {
    let aggregate = sample_aggregate();
    let resolved = FormatterFactory::resolve_formatter(&"json").unwrap();
    let direct = JsonFormatter {};

    assert_eq!(resolved.format(&aggregate), direct.format(&aggregate));

    let resolved = FormatterFactory::resolve_formatter(&"stdout").unwrap();
    let direct = StdoutFormatter {};

    assert_eq!(resolved.format(&aggregate), direct.format(&aggregate));
}
