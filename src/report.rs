use vstd::prelude::*;

use crate::alert::{Alert, resolved_path};

verus! {

/// A JSON document, as the report reader needs it.
pub enum JsonValue {
    Null,
    Bool(bool),
    /// A number that is an integer within the range of `i64`.
    Integer(i64),
    /// Any other number; its value is not kept.
    OtherNumber,
    Str(String),
    Array(Vec<JsonValue>),
    /// The members of an object, in order.
    Object(Vec<(String, JsonValue)>),
}

/// Why a report could not be read.
#[derive(Clone, Copy, Debug, PartialEq, Eq, Structural)]
pub enum ReportError {
    /// `runs[0].results` is not an array.
    NoResults,
    /// A result has no `message.text` string.
    NoMessage,
    /// A result has no `locations` array.
    NoLocations,
    /// A location has no `physicalLocation.artifactLocation.uri` string.
    NoUri,
    /// A location has no non-negative integer `physicalLocation.region.startLine`.
    NoLine,
    /// A location's `startColumn` is there but not a non-negative integer.
    BadColumn,
}

/// The value of the first member of `fields` named `key`.
pub open spec fn member_in(fields: Seq<(String, JsonValue)>, key: Seq<char>) -> Option<JsonValue>
    decreases fields.len(),
{
    if fields.len() == 0 {
        None
    } else if fields[0].0@ == key {
        Some(fields[0].1)
    } else {
        member_in(fields.drop_first(), key)
    }
}

/// The member `key` of `v`, where `v` is an object that has it.
pub open spec fn field(v: Option<JsonValue>, key: Seq<char>) -> Option<JsonValue> {
    match v {
        Some(JsonValue::Object(fields)) => member_in(fields@, key),
        _ => None,
    }
}

/// The first item of `v`, where `v` is a non-empty array.
pub open spec fn first_item(v: Option<JsonValue>) -> Option<JsonValue> {
    match v {
        Some(JsonValue::Array(items)) => if items@.len() > 0 {
            Some(items@[0])
        } else {
            None
        },
        _ => None,
    }
}

/// An alert as values: (file, line, column, message).
pub type AlertRecord = (Seq<char>, usize, usize, Seq<char>);

pub open spec fn record_of(a: Alert) -> AlertRecord {
    (a.file@, a.line, a.column, a.message@)
}

/// The alert for one location of a result whose message is `msg`.
pub open spec fn location_alert(loc: JsonValue, msg: Seq<char>, dir: Seq<char>) -> Result<
    AlertRecord,
    ReportError,
> {
    let phys = field(Some(loc), "physicalLocation"@);
    let uri = field(field(phys, "artifactLocation"@), "uri"@);
    let region = field(phys, "region"@);
    let line = field(region, "startLine"@);
    let column = field(region, "startColumn"@);
    if !(uri matches Some(JsonValue::Str(_))) {
        Err(ReportError::NoUri)
    } else if !(line matches Some(JsonValue::Integer(n)) && 0 <= n <= usize::MAX) {
        Err(ReportError::NoLine)
    } else {
        let u = uri->Some_0->Str_0@;
        let l = line->Some_0->Integer_0 as usize;
        match column {
            None => Ok((resolved_path(u, dir), l, 1usize, msg)),
            Some(JsonValue::Null) => Ok((resolved_path(u, dir), l, 1usize, msg)),
            Some(JsonValue::Integer(c)) => if 0 <= c <= usize::MAX {
                Ok((resolved_path(u, dir), l, c as usize, msg))
            } else {
                Err(ReportError::BadColumn)
            },
            _ => Err(ReportError::BadColumn),
        }
    }
}

/// The alerts of `locs` in order, or the first location's error.
pub open spec fn locations_alerts(locs: Seq<JsonValue>, msg: Seq<char>, dir: Seq<char>) -> Result<
    Seq<AlertRecord>,
    ReportError,
>
    decreases locs.len(),
{
    if locs.len() == 0 {
        Ok(Seq::empty())
    } else {
        match locations_alerts(locs.drop_last(), msg, dir) {
            Err(e) => Err(e),
            Ok(prev) => match location_alert(locs.last(), msg, dir) {
                Err(e) => Err(e),
                Ok(a) => Ok(prev.push(a)),
            },
        }
    }
}

/// The alerts of one result: one for each of its locations.
pub open spec fn result_alerts(r: JsonValue, dir: Seq<char>) -> Result<
    Seq<AlertRecord>,
    ReportError,
> {
    let msg = field(field(Some(r), "message"@), "text"@);
    let locs = field(Some(r), "locations"@);
    if !(msg matches Some(JsonValue::Str(_))) {
        Err(ReportError::NoMessage)
    } else if !(locs matches Some(JsonValue::Array(_))) {
        Err(ReportError::NoLocations)
    } else {
        locations_alerts(locs->Some_0->Array_0@, msg->Some_0->Str_0@, dir)
    }
}

/// The alerts of `results` in order, or the first result's error.
pub open spec fn results_alerts(results: Seq<JsonValue>, dir: Seq<char>) -> Result<
    Seq<AlertRecord>,
    ReportError,
>
    decreases results.len(),
{
    if results.len() == 0 {
        Ok(Seq::empty())
    } else {
        match results_alerts(results.drop_last(), dir) {
            Err(e) => Err(e),
            Ok(prev) => match result_alerts(results.last(), dir) {
                Err(e) => Err(e),
                Ok(a) => Ok(prev + a),
            },
        }
    }
}

/// The alerts of a report: those of `runs[0].results`, in order.
pub open spec fn report_alerts(report: JsonValue, dir: Seq<char>) -> Result<
    Seq<AlertRecord>,
    ReportError,
> {
    match field(first_item(field(Some(report), "runs"@)), "results"@) {
        Some(JsonValue::Array(results)) => results_alerts(results@, dir),
        _ => Err(ReportError::NoResults),
    }
}

proof fn lemma_results_err_persists(s: Seq<JsonValue>, k: int, dir: Seq<char>)
    requires
        0 <= k <= s.len(),
        results_alerts(s.subrange(0, k), dir) is Err,
    ensures
        results_alerts(s, dir) == results_alerts(s.subrange(0, k), dir),
    decreases s.len(),
{
    if k == s.len() {
        assert(s.subrange(0, k) =~= s);
    } else {
        assert(s.drop_last().subrange(0, k) =~= s.subrange(0, k));
        lemma_results_err_persists(s.drop_last(), k, dir);
    }
}

proof fn lemma_locations_err_persists(s: Seq<JsonValue>, k: int, msg: Seq<char>, dir: Seq<char>)
    requires
        0 <= k <= s.len(),
        locations_alerts(s.subrange(0, k), msg, dir) is Err,
    ensures
        locations_alerts(s, msg, dir) == locations_alerts(s.subrange(0, k), msg, dir),
    decreases s.len(),
{
    if k == s.len() {
        assert(s.subrange(0, k) =~= s);
    } else {
        assert(s.drop_last().subrange(0, k) =~= s.subrange(0, k));
        lemma_locations_err_persists(s.drop_last(), k, msg, dir);
    }
}

/// The member `key` of `v`, where `v` is an object that has it.
fn member<'a>(v: &'a JsonValue, key: &str) -> (r: Option<&'a JsonValue>)
    ensures
        match r {
            Some(x) => field(Some(*v), key@) == Some(*x),
            None => field(Some(*v), key@) is None,
        },
{
    match v {
        JsonValue::Object(fields) => {
            let k = key.to_owned();
            let mut i: usize = 0;
            assert(fields@.subrange(0, fields@.len() as int) =~= fields@);
            assert(field(Some(*v), key@) == member_in(fields@, key@));
            while i < fields.len()
                invariant
                    field(Some(*v), key@) == member_in(fields@, key@),
                    k@ == key@,
                    i <= fields@.len(),
                    member_in(fields@, key@) == member_in(fields@.subrange(i as int, fields@.len() as int), key@),
                decreases fields@.len() - i,
            {
                let ghost rest = fields@.subrange(i as int, fields@.len() as int);
                assert(rest.drop_first() =~= fields@.subrange(i + 1, fields@.len() as int));
                assert(rest[0] == fields@[i as int]);
                if fields[i].0 == k {
                    assert(rest.len() > 0 && rest[0].0@ == key@);
                    assert(member_in(rest, key@) == Some(rest[0].1));
                    return Some(&fields[i].1);
                }
                i = i + 1;
            }
            None
        },
        _ => None,
    }
}

impl Alert {
    fn from_location(loc: &JsonValue, msg: &str, dir: &str) -> (r: Result<Alert, ReportError>)
        ensures
            match (r, location_alert(*loc, msg@, dir@)) {
                (Ok(a), Ok(s)) => record_of(a) == s,
                (Err(e), Err(f)) => e == f,
                _ => false,
            },
    {
        let phys = member(loc, "physicalLocation");
        let artifact = match phys {
            Some(p) => member(p, "artifactLocation"),
            None => None,
        };
        let uri = match artifact {
            Some(a) => member(a, "uri"),
            None => None,
        };
        let region = match phys {
            Some(p) => member(p, "region"),
            None => None,
        };
        let line = match region {
            Some(g) => member(g, "startLine"),
            None => None,
        };
        let column = match region {
            Some(g) => member(g, "startColumn"),
            None => None,
        };
        let uri = match uri {
            Some(JsonValue::Str(u)) => u,
            _ => {
                return Err(ReportError::NoUri);
            },
        };
        let line = match line {
            Some(JsonValue::Integer(n)) => if *n >= 0 && *n as u64 <= usize::MAX as u64 {
                *n as usize
            } else {
                return Err(ReportError::NoLine);
            },
            _ => {
                return Err(ReportError::NoLine);
            },
        };
        let column = match column {
            None => None,
            Some(JsonValue::Null) => None,
            Some(JsonValue::Integer(c)) => if *c >= 0 && *c as u64 <= usize::MAX as u64 {
                Some(*c as usize)
            } else {
                return Err(ReportError::BadColumn);
            },
            _ => {
                return Err(ReportError::BadColumn);
            },
        };
        Ok(Alert::new(uri.as_str(), dir, line, column, msg))
    }
}

/// The alerts of a report, one for each location of each result of its
/// first run, in order, with paths resolved under `source_dir`; or the
/// first malformed part's error.
pub fn parse_alerts(report: &JsonValue, source_dir: &str) -> (r: Result<Vec<Alert>, ReportError>)
    ensures
        match (r, report_alerts(*report, source_dir@)) {
            (Ok(v), Ok(s)) => v@.map_values(|a: Alert| record_of(a)) == s,
            (Err(e), Err(f)) => e == f,
            _ => false,
        },
{
    let runs = member(report, "runs");
    let first = match runs {
        Some(JsonValue::Array(items)) => if items.len() > 0 {
            Some(&items[0])
        } else {
            None
        },
        _ => None,
    };
    let results = match first {
        Some(f) => member(f, "results"),
        None => None,
    };
    let results = match results {
        Some(JsonValue::Array(rs)) => rs,
        _ => {
            return Err(ReportError::NoResults);
        },
    };
    let mut out: Vec<Alert> = Vec::new();
    let mut i: usize = 0;
    assert(results@.subrange(0, 0) =~= Seq::<JsonValue>::empty());
    assert(out@.map_values(|a: Alert| record_of(a)) =~= Seq::<AlertRecord>::empty());
    assert(report_alerts(*report, source_dir@) == results_alerts(results@, source_dir@));
    while i < results.len()
        invariant
            report_alerts(*report, source_dir@) == results_alerts(results@, source_dir@),
            i <= results@.len(),
            results_alerts(results@.subrange(0, i as int), source_dir@) == Ok::<
                Seq<AlertRecord>,
                ReportError,
            >(out@.map_values(|a: Alert| record_of(a))),
        decreases results@.len() - i,
    {
        let result = &results[i];
        assert(results@.subrange(0, i + 1).drop_last() =~= results@.subrange(0, i as int));
        assert(results@.subrange(0, i + 1).last() == results@[i as int]);
        let msg = match member(result, "message") {
            Some(m) => member(m, "text"),
            None => None,
        };
        let msg = match msg {
            Some(JsonValue::Str(s)) => s,
            _ => {
                proof {
                    lemma_results_err_persists(results@, i + 1, source_dir@);
                }
                return Err(ReportError::NoMessage);
            },
        };
        let locs = match member(result, "locations") {
            Some(JsonValue::Array(l)) => l,
            _ => {
                proof {
                    lemma_results_err_persists(results@, i + 1, source_dir@);
                }
                return Err(ReportError::NoLocations);
            },
        };
        let ghost before = out@.map_values(|a: Alert| record_of(a));
        assert(result_alerts(results@[i as int], source_dir@) == locations_alerts(
            locs@,
            msg@,
            source_dir@,
        ));
        let mut j: usize = 0;
        assert(locs@.subrange(0, 0) =~= Seq::<JsonValue>::empty());
        assert(before.subrange(0, before.len() as int) =~= before);
        assert(before.subrange(before.len() as int, before.len() as int) =~= Seq::<
            AlertRecord,
        >::empty());
        while j < locs.len()
            invariant
                report_alerts(*report, source_dir@) == results_alerts(results@, source_dir@),
                i < results@.len(),
                results@.subrange(0, i + 1).drop_last() == results@.subrange(0, i as int),
                results@.subrange(0, i + 1).last() == results@[i as int],
                results_alerts(results@.subrange(0, i as int), source_dir@) == Ok::<
                    Seq<AlertRecord>,
                    ReportError,
                >(before),
                result_alerts(results@[i as int], source_dir@) == locations_alerts(
                    locs@,
                    msg@,
                    source_dir@,
                ),
                j <= locs@.len(),
                before.len() <= out@.len(),
                out@.map_values(|a: Alert| record_of(a)).subrange(0, before.len() as int) == before,
                locations_alerts(locs@.subrange(0, j as int), msg@, source_dir@) == Ok::<
                    Seq<AlertRecord>,
                    ReportError,
                >(
                    out@.map_values(|a: Alert| record_of(a)).subrange(
                        before.len() as int,
                        out@.len() as int,
                    ),
                ),
            decreases locs@.len() - j,
        {
            assert(locs@.subrange(0, j + 1).drop_last() =~= locs@.subrange(0, j as int));
            let a = match Alert::from_location(&locs[j], msg.as_str(), source_dir) {
                Ok(a) => a,
                Err(e) => {
                    proof {
                        lemma_locations_err_persists(locs@, j + 1, msg@, source_dir@);
                        lemma_results_err_persists(results@, i + 1, source_dir@);
                    }
                    return Err(e);
                },
            };
            let ghost prev = out@.map_values(|a: Alert| record_of(a));
            out.push(a);
            let ghost now = out@.map_values(|a: Alert| record_of(a));
            assert(now =~= prev.push(record_of(a)));
            assert(now.subrange(0, before.len() as int) =~= prev.subrange(0, before.len() as int));
            assert(now.subrange(before.len() as int, now.len() as int) =~= prev.subrange(
                before.len() as int,
                prev.len() as int,
            ).push(record_of(a)));
            j = j + 1;
        }
        assert(locs@.subrange(0, j as int) =~= locs@);
        let ghost now = out@.map_values(|a: Alert| record_of(a));
        assert(now =~= before + now.subrange(before.len() as int, now.len() as int));
        i = i + 1;
    }
    assert(results@.subrange(0, i as int) =~= results@);
    Ok(out)
}

} // verus!
