use std::rc::Rc;
use veda::camunda::{
    number_to_string, Configuration, DurationReportResultDto, MetricsApi, MetricsApiClient,
    PeriodUnit, ResultType, VersionApi, VersionApiClient,
};
use veda::ontology::{normalize_datetime_string, to_prefix_form};
use vstd::hash_map::StringHashMap;

fn configuration() -> Rc<Configuration> {
    Rc::new(Configuration {
        base_path: "http://localhost:8080/engine-rest".to_string(),
        user_agent: Some("veda/1".to_string()),
    })
}

fn pair(k: &str, v: &str) -> (String, String) {
    (k.to_string(), v.to_string())
}

#[test]
fn empty_duration_report() {
    let r = DurationReportResultDto::new();
    assert_eq!(
        r,
        DurationReportResultDto {
            period: None,
            period_unit: None,
            minimum: None,
            maximum: None,
            average: None
        }
    );
    assert_ne!(PeriodUnit::MONTH, PeriodUnit::QUARTER);
    assert_ne!(ResultType::Execution, ResultType::ProcessDefinition);
}

#[test]
fn request_for_a_metric() {
    let client = MetricsApiClient::new(configuration());
    let r = client.get_metrics("activity instance", Some("2020-01-01".to_string()), None);
    assert_eq!(r.base_path, "http://localhost:8080/engine-rest");
    assert_eq!(r.segments, vec!["metrics", "activity instance", "sum"]);
    assert_eq!(r.query, vec![pair("startDate", "2020-01-01")]);
    assert_eq!(r.user_agent, Some("veda/1".to_string()));
    let r = client.get_metrics("m", Some("a".to_string()), Some("b".to_string()));
    assert_eq!(r.query, vec![pair("startDate", "a"), pair("endDate", "b")]);
}

#[test]
fn request_for_an_interval() {
    let client = MetricsApiClient::new(Rc::new(Configuration {
        base_path: "base".to_string(),
        user_agent: None,
    }));
    let r = client.interval(None, None, None, None, None, None, None, None);
    assert_eq!(r.segments, vec!["metrics"]);
    assert!(r.query.is_empty());
    assert_eq!(r.user_agent, None);
    let r = client.interval(
        Some("n"),
        Some("r"),
        Some("s".to_string()),
        Some("e".to_string()),
        Some(-5),
        Some(100),
        Some("900"),
        Some("true"),
    );
    assert_eq!(
        r.query,
        vec![
            pair("name", "n"),
            pair("reporter", "r"),
            pair("startDate", "s"),
            pair("endDate", "e"),
            pair("firstResult", "-5"),
            pair("maxResults", "100"),
            pair("interval", "900"),
            pair("aggregateByReporter", "true"),
        ]
    );
    let r = client.interval(None, Some("r"), None, None, Some(0), None, None, None);
    assert_eq!(r.query, vec![pair("reporter", "r"), pair("firstResult", "0")]);
}

#[test]
fn request_for_the_version() {
    let client = VersionApiClient::new(configuration());
    let r = client.get_rest_api_version();
    assert_eq!(r.base_path, "http://localhost:8080/engine-rest");
    assert_eq!(r.segments, vec!["version"]);
    assert!(r.query.is_empty());
    assert_eq!(r.user_agent, Some("veda/1".to_string()));
}

#[test]
fn numbers_as_text() {
    for n in [0, 1, -1, 9, 10, 12345, -12345, i32::MAX, i32::MIN] {
        assert_eq!(number_to_string(n), n.to_string());
    }
}

#[test]
fn datetime_literals() {
    assert_eq!(normalize_datetime_string("2014-01-01T12:30:45.000Z"), "2014-01-01T12:30:45");
    assert_eq!(normalize_datetime_string("2014-01-01T12:30:45+0300"), "2014-01-01T12:30:45");
    assert_eq!(normalize_datetime_string("2014-01-01"), "2014-01-01T00:00:00");
    assert_eq!(normalize_datetime_string("2014-01-01T12:30:45Z"), "2014-01-01T12:30:45");
    assert_eq!(normalize_datetime_string("2014-01-01T12:30:45"), "2014-01-01T12:30:45");
    assert_eq!(normalize_datetime_string(""), "");
    assert_eq!(normalize_datetime_string("Z"), "");
    assert_eq!(normalize_datetime_string("ZZZZZZZZZZ"), "ZZZZZZZZZZT00:00:00");
    // 24 bytes whose 19th byte lies inside a character: nothing is cut off
    let odd = "aaaaaaaaaaaaaaaaaaéaaaa";
    assert_eq!(odd.len(), 24);
    assert_eq!(normalize_datetime_string(odd), odd);
}

#[test]
fn prefix_forms() {
    let mut ns: StringHashMap<String> = StringHashMap::new();
    ns.insert("http://www.w3.org/2000/01/rdf-schema".to_string(), "rdfs".to_string());
    ns.insert("http://semantic-machines.com/veda/veda-schema".to_string(), "v-s".to_string());
    assert_eq!(to_prefix_form("http://www.w3.org/2000/01/rdf-schema#label", &ns), "rdfs:label");
    assert_eq!(
        to_prefix_form("http://semantic-machines.com/veda/veda-schema/Person", &ns),
        "v-s:Person"
    );
    assert_eq!(to_prefix_form("http://www.w3.org/2000/01/rdf-schema", &ns), "rdfs:");
    assert_eq!(to_prefix_form("http://www.w3.org/2000/01/rdf-schema#", &ns), "rdfs:");
    assert_eq!(to_prefix_form("http://unknown.org/ns#x", &ns), "http://unknown.org/ns#x");
    assert_eq!(to_prefix_form("plain", &ns), "plain");
    assert_eq!(to_prefix_form("", &ns), "");
    assert_eq!(
        to_prefix_form("http://www.w3.org/2000/01/rdf-schema#метка", &ns),
        "rdfs:метка"
    );
}
