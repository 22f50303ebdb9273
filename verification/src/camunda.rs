//! The workflow engine's REST interface: result records, and the requests
//! that its clients send. A request is built here and sent elsewhere.

use std::rc::Rc;
use vstd::prelude::*;
use vstd::string::StringExecFns;

verus! {

/// The unit of a reporting period.
#[derive(Clone, Copy, Debug, PartialEq, Eq, Structural, Hash)]
pub enum PeriodUnit {
    MONTH,
    QUARTER,
}

/// How a message was correlated: to an intermediate catching event of a
/// running execution, or to a start event of a process definition.
#[derive(Clone, Copy, Debug, PartialEq, Eq, Structural, Hash)]
pub enum ResultType {
    Execution,
    ProcessDefinition,
}

/// Durations of the completed process instances that were started in one
/// period.
#[derive(Clone, Debug, PartialEq)]
pub struct DurationReportResultDto {
    /// A timespan within a year, to be read together with `period_unit`.
    pub period: Option<i32>,
    /// The unit of `period`.
    pub period_unit: Option<PeriodUnit>,
    /// The smallest duration in milliseconds.
    pub minimum: Option<i64>,
    /// The greatest duration in milliseconds.
    pub maximum: Option<i64>,
    /// The average duration in milliseconds.
    pub average: Option<i64>,
}

impl DurationReportResultDto {
    /// A report with no field set.
    pub fn new() -> (r: DurationReportResultDto)
        ensures
            r.period is None,
            r.period_unit is None,
            r.minimum is None,
            r.maximum is None,
            r.average is None,
    {
        DurationReportResultDto {
            period: None,
            period_unit: None,
            minimum: None,
            maximum: None,
            average: None,
        }
    }
}

/// Where the engine is and how a client names itself.
pub struct Configuration {
    /// The address that every path is appended to.
    pub base_path: String,
    /// The `User-Agent` header, if one is sent.
    pub user_agent: Option<String>,
}

/// A `GET` request, ready to be sent: the sender joins the segments to the
/// base path with `/`, each percent-encoded, and appends the query.
pub struct Request {
    pub base_path: String,
    pub segments: Vec<String>,
    pub query: Vec<(String, String)>,
    pub user_agent: Option<String>,
}

/// A request as mathematics.
pub struct RequestView {
    pub base_path: Seq<char>,
    pub segments: Seq<Seq<char>>,
    pub query: Seq<(Seq<char>, Seq<char>)>,
    pub user_agent: Option<Seq<char>>,
}

/// The view of an optional string.
pub open spec fn optional_text(o: Option<String>) -> Option<Seq<char>> {
    match o {
        Some(s) => Some(s@),
        None => None,
    }
}

/// The view of an optional string slice.
pub open spec fn optional_str(o: Option<&str>) -> Option<Seq<char>> {
    match o {
        Some(s) => Some(s@),
        None => None,
    }
}

impl View for Request {
    type V = RequestView;

    open spec fn view(&self) -> RequestView {
        RequestView {
            base_path: self.base_path@,
            segments: Seq::new(self.segments@.len(), |i: int| self.segments@[i]@),
            query: Seq::new(self.query@.len(), |i: int| (self.query@[i].0@, self.query@[i].1@)),
            user_agent: optional_text(self.user_agent),
        }
    }
}

/// The decimal digits of `n`, as text.
pub open spec fn digits_text(n: nat) -> Seq<char>
    decreases n,
{
    if n < 10 {
        seq![(48 + n) as char]
    } else {
        digits_text(n / 10).push((48 + n % 10) as char)
    }
}

/// A whole number as text: its digits, after a minus sign where it is
/// negative.
pub open spec fn number_text(n: int) -> Seq<char> {
    if n < 0 {
        seq!['-'] + digits_text((-n) as nat)
    } else {
        digits_text(n as nat)
    }
}

/// The query with `key` and the value, where there is a value; else the
/// query as it is.
pub open spec fn with_param(
    q: Seq<(Seq<char>, Seq<char>)>,
    key: Seq<char>,
    value: Option<Seq<char>>,
) -> Seq<(Seq<char>, Seq<char>)> {
    match value {
        Some(v) => q.push((key, v)),
        None => q,
    }
}

/// The text of an optional number.
pub open spec fn optional_number(o: Option<i32>) -> Option<Seq<char>> {
    match o {
        Some(n) => Some(number_text(n as int)),
        None => None,
    }
}

/// The request for the sum of a metric: the path `metrics/<name>/sum` and
/// the two dates, as far as they are given.
pub open spec fn metrics_request(
    c: Configuration,
    metrics_name: Seq<char>,
    start_date: Option<Seq<char>>,
    end_date: Option<Seq<char>>,
) -> RequestView {
    RequestView {
        base_path: c.base_path@,
        segments: seq!["metrics"@, metrics_name, "sum"@],
        query: with_param(
            with_param(Seq::empty(), "startDate"@, start_date),
            "endDate"@,
            end_date,
        ),
        user_agent: optional_text(c.user_agent),
    }
}

/// The parameters of an interval request, in the order in which they go
/// into the query.
pub struct IntervalParams {
    pub name: Option<Seq<char>>,
    pub reporter: Option<Seq<char>>,
    pub start_date: Option<Seq<char>>,
    pub end_date: Option<Seq<char>>,
    pub first_result: Option<i32>,
    pub max_results: Option<i32>,
    pub interval: Option<Seq<char>>,
    pub aggregate_by_reporter: Option<Seq<char>>,
}

/// The query of an interval request: each parameter that is given, under
/// its name, in the order of the parameters.
pub open spec fn interval_query(p: IntervalParams) -> Seq<(Seq<char>, Seq<char>)> {
    let q0 = with_param(Seq::empty(), "name"@, p.name);
    let q1 = with_param(q0, "reporter"@, p.reporter);
    let q2 = with_param(q1, "startDate"@, p.start_date);
    let q3 = with_param(q2, "endDate"@, p.end_date);
    let q4 = with_param(q3, "firstResult"@, optional_number(p.first_result));
    let q5 = with_param(q4, "maxResults"@, optional_number(p.max_results));
    let q6 = with_param(q5, "interval"@, p.interval);
    with_param(q6, "aggregateByReporter"@, p.aggregate_by_reporter)
}

/// The request for the metrics of an interval: the path `metrics` and the
/// parameters that are given.
pub open spec fn interval_request(c: Configuration, p: IntervalParams) -> RequestView {
    RequestView {
        base_path: c.base_path@,
        segments: seq!["metrics"@],
        query: interval_query(p),
        user_agent: optional_text(c.user_agent),
    }
}

/// The request for the version of the REST interface: the path `version`.
pub open spec fn version_request(c: Configuration) -> RequestView {
    RequestView {
        base_path: c.base_path@,
        segments: seq!["version"@],
        query: Seq::empty(),
        user_agent: optional_text(c.user_agent),
    }
}

/// The text of one decimal digit.
fn digit_text(d: u8) -> (t: &'static str)
    requires
        d < 10,
    ensures
        t@ == seq![(48 + d) as char],
{
    proof {
        reveal_strlit("0");
        reveal_strlit("1");
        reveal_strlit("2");
        reveal_strlit("3");
        reveal_strlit("4");
        reveal_strlit("5");
        reveal_strlit("6");
        reveal_strlit("7");
        reveal_strlit("8");
        reveal_strlit("9");
    }
    let t = if d == 0 {
        "0"
    } else if d == 1 {
        "1"
    } else if d == 2 {
        "2"
    } else if d == 3 {
        "3"
    } else if d == 4 {
        "4"
    } else if d == 5 {
        "5"
    } else if d == 6 {
        "6"
    } else if d == 7 {
        "7"
    } else if d == 8 {
        "8"
    } else {
        "9"
    };
    assert(t@ =~= seq![(48 + d) as char]);
    t
}

/// Appends the decimal digits of `n` to `out`.
fn append_digits(out: &mut String, n: u32)
    ensures
        final(out)@ == old(out)@ + digits_text(n as nat),
    decreases n,
{
    if n >= 10 {
        append_digits(out, n / 10);
    }
    out.append(digit_text((n % 10) as u8));
    assert(out@ =~= old(out)@ + digits_text(n as nat));
}

/// Writes a whole number as text.
pub fn number_to_string(n: i32) -> (s: String)
    ensures
        s@ == number_text(n as int),
{
    let mut s = String::new();
    if n < 0 {
        proof {
            reveal_strlit("-");
        }
        s.append("-");
        let magnitude: u32 = if n == i32::MIN {
            2147483648
        } else {
            (-n) as u32
        };
        append_digits(&mut s, magnitude);
        assert(s@ =~= number_text(n as int));
    } else {
        append_digits(&mut s, n as u32);
        assert(s@ =~= number_text(n as int));
    }
    s
}

/// Copies an optional string.
fn copy_text(o: &Option<String>) -> (r: Option<String>)
    ensures
        optional_text(r) == optional_text(*o),
{
    match o {
        Some(s) => Some(s.clone()),
        None => None,
    }
}

/// Adds a parameter to a query, where it has a value.
fn push_param(q: &mut Vec<(String, String)>, key: &str, value: Option<String>)
    ensures
        Seq::new(final(q)@.len(), |i: int| (final(q)@[i].0@, final(q)@[i].1@)) == with_param(
            Seq::new(old(q)@.len(), |i: int| (old(q)@[i].0@, old(q)@[i].1@)),
            key@,
            optional_text(value),
        ),
{
    let ghost before = Seq::new(q@.len(), |i: int| (q@[i].0@, q@[i].1@));
    match value {
        Some(v) => {
            q.push((String::from_str(key), v));
            assert(Seq::new(q@.len(), |i: int| (q@[i].0@, q@[i].1@)) =~= before.push((key@, v@)));
        },
        None => {
            assert(Seq::new(q@.len(), |i: int| (q@[i].0@, q@[i].1@)) =~= before);
        },
    }
}

/// Turns an optional string slice into an optional string.
fn own(o: Option<&str>) -> (r: Option<String>)
    ensures
        optional_text(r) == optional_str(o),
{
    match o {
        Some(s) => Some(String::from_str(s)),
        None => None,
    }
}

/// Turns an optional number into its text.
fn own_number(o: Option<i32>) -> (r: Option<String>)
    ensures
        optional_text(r) == optional_number(o),
{
    match o {
        Some(n) => Some(number_to_string(n)),
        None => None,
    }
}

/// The requests that ask for metrics.
pub trait MetricsApi {
    /// The configuration that the requests are built from.
    spec fn configuration(&self) -> Configuration;

    /// The request for the sum of the metric `metrics_name` between the two
    /// dates.
    fn get_metrics(
        &self,
        metrics_name: &str,
        start_date: Option<String>,
        end_date: Option<String>,
    ) -> (r: Request)
        ensures
            r@ == metrics_request(
                self.configuration(),
                metrics_name@,
                optional_text(start_date),
                optional_text(end_date),
            ),
    ;

    /// The request for the metrics of an interval.
    fn interval(
        &self,
        name: Option<&str>,
        reporter: Option<&str>,
        start_date: Option<String>,
        end_date: Option<String>,
        first_result: Option<i32>,
        max_results: Option<i32>,
        interval: Option<&str>,
        aggregate_by_reporter: Option<&str>,
    ) -> (r: Request)
        ensures
            r@ == interval_request(
                self.configuration(),
                IntervalParams {
                    name: optional_str(name),
                    reporter: optional_str(reporter),
                    start_date: optional_text(start_date),
                    end_date: optional_text(end_date),
                    first_result,
                    max_results,
                    interval: optional_str(interval),
                    aggregate_by_reporter: optional_str(aggregate_by_reporter),
                },
            ),
    ;
}

/// The requests that ask for the engine's version.
pub trait VersionApi {
    /// The configuration that the requests are built from.
    spec fn configuration(&self) -> Configuration;

    /// The request for the version of the REST interface.
    fn get_rest_api_version(&self) -> (r: Request)
        ensures
            r@ == version_request(self.configuration()),
    ;
}

/// A client for the metrics of the engine.
pub struct MetricsApiClient {
    configuration: Rc<Configuration>,
}

impl MetricsApiClient {
    /// A client that builds its requests from `configuration`.
    pub fn new(configuration: Rc<Configuration>) -> (c: MetricsApiClient)
        ensures
            c.configuration() == *configuration,
    {
        MetricsApiClient { configuration }
    }
}

impl MetricsApi for MetricsApiClient {
    closed spec fn configuration(&self) -> Configuration {
        *self.configuration
    }

    fn get_metrics(
        &self,
        metrics_name: &str,
        start_date: Option<String>,
        end_date: Option<String>,
    ) -> (r: Request) {
        let mut segments: Vec<String> = Vec::new();
        segments.push(String::from_str("metrics"));
        segments.push(String::from_str(metrics_name));
        segments.push(String::from_str("sum"));
        let mut query: Vec<(String, String)> = Vec::new();
        assert(Seq::new(query@.len(), |i: int| (query@[i].0@, query@[i].1@)) =~= Seq::<
            (Seq<char>, Seq<char>),
        >::empty());
        push_param(&mut query, "startDate", start_date);
        push_param(&mut query, "endDate", end_date);
        let r = Request {
            base_path: self.configuration.base_path.clone(),
            segments,
            query,
            user_agent: copy_text(&self.configuration.user_agent),
        };
        assert(r@.segments =~= seq!["metrics"@, metrics_name@, "sum"@]);
        r
    }

    fn interval(
        &self,
        name: Option<&str>,
        reporter: Option<&str>,
        start_date: Option<String>,
        end_date: Option<String>,
        first_result: Option<i32>,
        max_results: Option<i32>,
        interval: Option<&str>,
        aggregate_by_reporter: Option<&str>,
    ) -> (r: Request) {
        let mut segments: Vec<String> = Vec::new();
        segments.push(String::from_str("metrics"));
        let mut query: Vec<(String, String)> = Vec::new();
        assert(Seq::new(query@.len(), |i: int| (query@[i].0@, query@[i].1@)) =~= Seq::<
            (Seq<char>, Seq<char>),
        >::empty());
        push_param(&mut query, "name", own(name));
        push_param(&mut query, "reporter", own(reporter));
        push_param(&mut query, "startDate", start_date);
        push_param(&mut query, "endDate", end_date);
        push_param(&mut query, "firstResult", own_number(first_result));
        push_param(&mut query, "maxResults", own_number(max_results));
        push_param(&mut query, "interval", own(interval));
        push_param(&mut query, "aggregateByReporter", own(aggregate_by_reporter));
        let r = Request {
            base_path: self.configuration.base_path.clone(),
            segments,
            query,
            user_agent: copy_text(&self.configuration.user_agent),
        };
        assert(r@.segments =~= seq!["metrics"@]);
        r
    }
}

/// A client for the version of the engine.
pub struct VersionApiClient {
    configuration: Rc<Configuration>,
}

impl VersionApiClient {
    /// A client that builds its requests from `configuration`.
    pub fn new(configuration: Rc<Configuration>) -> (c: VersionApiClient)
        ensures
            c.configuration() == *configuration,
    {
        VersionApiClient { configuration }
    }
}

impl VersionApi for VersionApiClient {
    closed spec fn configuration(&self) -> Configuration {
        *self.configuration
    }

    fn get_rest_api_version(&self) -> (r: Request) {
        let mut segments: Vec<String> = Vec::new();
        segments.push(String::from_str("version"));
        let query: Vec<(String, String)> = Vec::new();
        let r = Request {
            base_path: self.configuration.base_path.clone(),
            segments,
            query,
            user_agent: copy_text(&self.configuration.user_agent),
        };
        assert(r@.segments =~= seq!["version"@]);
        assert(r@.query =~= Seq::<(Seq<char>, Seq<char>)>::empty());
        r
    }
}

} // verus!
