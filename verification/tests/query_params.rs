use usage_aggregator::query_params::QueryStringParameters;

#[test]
fn should_resolve_random_parameters_successfully() {
    let video_id_param = QueryStringParameters::VideoId;

    assert_eq!(
        QueryStringParameters::resolve_query_string_parameter(&video_id_param),
        'v'
    );

    let ad_unit_param = QueryStringParameters::AdUnitId;

    assert_eq!(
        QueryStringParameters::resolve_query_string_parameter(&ad_unit_param),
        'i'
    );
}
