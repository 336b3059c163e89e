use kit::json::{Json, JsonMember};
use kit::sources::mise::Mise;

fn obj(members: Vec<(&str, Json)>) -> Json {
    Json::Object(members.into_iter().map(|(k, v)| JsonMember { key: k.to_string(), value: v }).collect())
}

fn listing() -> Option<Json> {
    Some(obj(vec![
        (
            "python",
            Json::Array(vec![
                obj(vec![("version", Json::Str("3.11.9".into()))]),
                obj(vec![("version", Json::Str("3.12.4".into())), ("active", Json::Bool(true))]),
            ]),
        ),
        ("node", Json::Str("odd".into())),
        ("ruby", Json::Array(vec![obj(vec![("version", Json::Number("3".into()))])])),
    ]))
}

#[test]
fn tool_spec_text() {
    assert_eq!(Mise::tool_spec("python", Some("3.12")), "python@3.12");
    assert_eq!(Mise::tool_spec("node", None), "node");
}

#[test]
fn listing_decides_installed() {
    let l = listing();
    assert!(Mise::listing_reports_installed(&l, "python", None));
    assert!(Mise::listing_reports_installed(&l, "python", Some("3.12")));
    assert!(!Mise::listing_reports_installed(&l, "python", Some("3.13")));
    // A value that is not an array is taken as installed whatever the version.
    assert!(Mise::listing_reports_installed(&l, "node", Some("20")));
    // A version that is not a string matches nothing.
    assert!(!Mise::listing_reports_installed(&l, "ruby", Some("3")));
    assert!(!Mise::listing_reports_installed(&l, "go", None));
    assert!(!Mise::listing_reports_installed(&None, "python", None));
    assert!(!Mise::listing_reports_installed(&Some(Json::Null), "python", None));
}
