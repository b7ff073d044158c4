use sarif_locator::report::{parse_alerts, JsonValue, ReportError};

fn s(x: &str) -> JsonValue {
    JsonValue::Str(x.to_string())
}

fn obj(members: Vec<(&str, JsonValue)>) -> JsonValue {
    JsonValue::Object(members.into_iter().map(|(k, v)| (k.to_string(), v)).collect())
}

fn location(uri: &str, line: JsonValue, column: Option<JsonValue>) -> JsonValue {
    let mut region = vec![("startLine", line)];
    if let Some(c) = column {
        region.push(("startColumn", c));
    }
    obj(vec![(
        "physicalLocation",
        obj(vec![
            ("artifactLocation", obj(vec![("uri", s(uri))])),
            ("region", obj(region)),
        ]),
    )])
}

fn report(results: Vec<JsonValue>) -> JsonValue {
    obj(vec![("runs", JsonValue::Array(vec![obj(vec![("results", JsonValue::Array(results))])]))])
}

fn result(message: &str, locations: Vec<JsonValue>) -> JsonValue {
    obj(vec![
        ("message", obj(vec![("text", s(message))])),
        ("locations", JsonValue::Array(locations)),
    ])
}

#[test]
fn one_result_one_location() {
    let doc = report(vec![result(
        "unused variable",
        vec![location("file:///src/main.c", JsonValue::Integer(5), Some(JsonValue::Integer(3)))],
    )]);
    let alerts = parse_alerts(&doc, "/root").unwrap();
    assert_eq!(alerts.len(), 1);
    assert_eq!(alerts[0].file, "/root/src/main.c");
    assert_eq!(alerts[0].line, 5);
    assert_eq!(alerts[0].column, 3);
    assert_eq!(alerts[0].message, "unused variable");
    assert_eq!(format!("{}:{}:{}", alerts[0].file, alerts[0].line, alerts[0].column), "/root/src/main.c:5:3");
}

#[test]
fn each_location_becomes_an_alert_in_order() {
    let doc = report(vec![
        result(
            "first",
            vec![
                location("a.c", JsonValue::Integer(1), None),
                location("b%20c.c", JsonValue::Integer(2), Some(JsonValue::Null)),
            ],
        ),
        result("second", vec![location("d.c", JsonValue::Integer(7), Some(JsonValue::Integer(9)))]),
    ]);
    let alerts = parse_alerts(&doc, "/r").unwrap();
    let got: Vec<(String, usize, usize, String)> = alerts
        .iter()
        .map(|a| (a.file.clone(), a.line, a.column, a.message.clone()))
        .collect();
    assert_eq!(
        got,
        vec![
            ("/r/a.c".to_string(), 1, 1, "first".to_string()),
            ("/r/b c.c".to_string(), 2, 1, "first".to_string()),
            ("/r/d.c".to_string(), 7, 9, "second".to_string()),
        ]
    );
}

#[test]
fn empty_results_give_no_alerts() {
    assert!(parse_alerts(&report(vec![]), "/r").unwrap().is_empty());
}

#[test]
fn missing_results_is_an_error() {
    let doc = obj(vec![("runs", JsonValue::Array(vec![]))]);
    assert_eq!(parse_alerts(&doc, "/r").unwrap_err(), ReportError::NoResults);
    assert_eq!(parse_alerts(&JsonValue::Null, "/r").unwrap_err(), ReportError::NoResults);
}

#[test]
fn result_without_message_is_an_error() {
    let doc = report(vec![obj(vec![("locations", JsonValue::Array(vec![]))])]);
    assert_eq!(parse_alerts(&doc, "/r").unwrap_err(), ReportError::NoMessage);
}

#[test]
fn result_without_locations_is_an_error() {
    let doc = report(vec![obj(vec![("message", obj(vec![("text", s("m"))]))])]);
    assert_eq!(parse_alerts(&doc, "/r").unwrap_err(), ReportError::NoLocations);
}

#[test]
fn location_errors() {
    let no_uri = report(vec![result("m", vec![obj(vec![("physicalLocation", obj(vec![]))])])]);
    assert_eq!(parse_alerts(&no_uri, "/r").unwrap_err(), ReportError::NoUri);
    let negative_line = report(vec![result("m", vec![location("a.c", JsonValue::Integer(-1), None)])]);
    assert_eq!(parse_alerts(&negative_line, "/r").unwrap_err(), ReportError::NoLine);
    let text_line = report(vec![result("m", vec![location("a.c", s("5"), None)])]);
    assert_eq!(parse_alerts(&text_line, "/r").unwrap_err(), ReportError::NoLine);
    let bad_column = report(vec![result("m", vec![location("a.c", JsonValue::Integer(5), Some(JsonValue::OtherNumber))])]);
    assert_eq!(parse_alerts(&bad_column, "/r").unwrap_err(), ReportError::BadColumn);
}

#[test]
fn first_member_of_a_name_is_read() {
    let doc = obj(vec![
        ("runs", JsonValue::Array(vec![obj(vec![("results", JsonValue::Array(vec![]))])])),
        ("runs", JsonValue::Null),
    ]);
    assert!(parse_alerts(&doc, "/r").unwrap().is_empty());
}
