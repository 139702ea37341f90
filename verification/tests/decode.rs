use tab_session_manager::DecodeError;
use tab_session_manager::Field;
use tab_session_manager::JsonMember;
use tab_session_manager::JsonValue;
use tab_session_manager::TSMConfig;
use tab_session_manager::TSMSession;
use tab_session_manager::TSMTab;

fn decode_one(text: &str) -> TSMSession {
    let config = TSMConfig::decode(text).expect("document should decode");
    let mut sessions = config.into_sessions();
    assert_eq!(sessions.len(), 1);
    sessions.pop().unwrap()
}

#[test]
fn scenario_valid() {
    let text = r#"[{"name":"A","tabsNumber":2,"date":1,"tag":"t","sessionStartTime":"s","windows":{"w1":{"t1":{"url":"u1","title":"T1","favIconUrl":"f1"},"t2":{"url":"u2","title":"T2","favIconUrl":"f2"}}}}]"#;
    let session = decode_one(text);
    assert_eq!(session.name, "A");
    assert_eq!(session.tabs_number, 2);
    assert_eq!(session.date, 1);
    assert_eq!(session.tag, "t");
    assert_eq!(session.session_start_time, "s");
    assert_eq!(session.windows.len(), 1);
    let window = &session.windows[0];
    assert_eq!(window.id, "w1");
    assert_eq!(window.value.tabs.len(), 2);
    assert_eq!(window.value.tabs[0].id, "t1");
    assert_eq!(window.value.tabs[0].value.url, "u1");
    assert_eq!(window.value.tabs[0].value.title, "T1");
    assert_eq!(window.value.tabs[0].value.fav_icon_url, "f1");
    assert_eq!(window.value.tabs[1].id, "t2");
    assert_eq!(window.value.tabs[1].value.url, "u2");
    assert_eq!(window.value.tabs[1].value.title, "T2");
    assert_eq!(window.value.tabs[1].value.fav_icon_url, "f2");
    assert!(session.check_valid_tabs());
}

#[test]
fn scenario_mismatch() {
    let text = r#"[{"name":"A","tabsNumber":3,"date":1,"tag":"t","sessionStartTime":"s","windows":{"w1":{"t1":{"url":"u1","title":"T1","favIconUrl":"f1"},"t2":{"url":"u2","title":"T2","favIconUrl":"f2"}}}}]"#;
    let session = decode_one(text);
    assert!(!session.check_valid_tabs());
    assert_eq!(session.counted_tabs(), Some(2));
    assert_eq!(session.tabs_number, 3);
}

#[test]
fn malformed_date_type() {
    let text = r#"[{"name":"A","date":"notanumber"}]"#;
    let err = TSMConfig::decode(text).unwrap_err();
    assert_eq!(err, DecodeError::FieldType(Field::Date));
}

#[test]
fn window_key_order_preserved() {
    // Keys deliberately out of alphabetical order: the decoder must keep
    // the document's order, not a sorted or hashed one.
    let text = r#"[{"tabsNumber":0,"windows":{
        "b":{},
        "a":{"z":{"url":"u","title":"t","favIconUrl":"f"},
             "y":{"url":"u","title":"t","favIconUrl":"f"}},
        "c":{}
    }}]"#;
    let session = decode_one(text);
    assert_eq!(session.windows.len(), 3);
    assert_eq!(session.windows[0].id, "b");
    assert_eq!(session.windows[1].id, "a");
    assert_eq!(session.windows[2].id, "c");
    let tabs = &session.windows[1].value.tabs;
    assert_eq!(tabs.len(), 2);
    assert_eq!(tabs[0].id, "z");
    assert_eq!(tabs[1].id, "y");
}

#[test]
fn unknown_fields_tolerated() {
    let plain = r#"[{"name":"A","tabsNumber":1,"date":2,"tag":"g","sessionStartTime":"s",
        "windows":{"w":{"t":{"url":"u","title":"T","favIconUrl":"f"}}}}]"#;
    let extended = r#"[{"name":"A","extra":{"deep":[1,2,{"x":null}]},"tabsNumber":1,
        "date":2,"tag":"g","rating":-3.5,"sessionStartTime":"s",
        "windows":{"w":{"t":{"url":"u","pinned":true,"title":"T","favIconUrl":"f","index":7}}},
        "trailing":"ignored"}]"#;
    let a = decode_one(plain);
    let b = decode_one(extended);
    assert_eq!(a.name, b.name);
    assert_eq!(a.tabs_number, b.tabs_number);
    assert_eq!(a.date, b.date);
    assert_eq!(a.tag, b.tag);
    assert_eq!(a.session_start_time, b.session_start_time);
    assert_eq!(a.windows.len(), b.windows.len());
    assert_eq!(a.windows[0].id, b.windows[0].id);
    let ta = &a.windows[0].value.tabs[0];
    let tb = &b.windows[0].value.tabs[0];
    assert_eq!(ta.id, tb.id);
    assert_eq!(ta.value.url, tb.value.url);
    assert_eq!(ta.value.title, tb.value.title);
    assert_eq!(ta.value.fav_icon_url, tb.value.fav_icon_url);
    assert!(b.check_valid_tabs());
}

#[test]
fn top_level_not_array() {
    let err = TSMConfig::decode(r#"{"name":"A"}"#).unwrap_err();
    assert_eq!(err, DecodeError::ExpectedArray);
}

#[test]
fn session_not_object() {
    let err = TSMConfig::decode(r#"[17]"#).unwrap_err();
    assert_eq!(err, DecodeError::ExpectedSessionObject);
}

#[test]
fn windows_not_object() {
    let err = TSMConfig::decode(r#"[{"windows":[1,2]}]"#).unwrap_err();
    assert_eq!(err, DecodeError::FieldType(Field::Windows));
}

#[test]
fn window_value_not_object() {
    let err = TSMConfig::decode(r#"[{"windows":{"w1":3}}]"#).unwrap_err();
    assert_eq!(err, DecodeError::ExpectedWindowObject);
}

#[test]
fn tab_value_not_object() {
    let err = TSMConfig::decode(r#"[{"windows":{"w1":{"t1":"not a tab"}}}]"#).unwrap_err();
    assert_eq!(err, DecodeError::ExpectedTabObject);
}

#[test]
fn tab_missing_field() {
    let err = TSMConfig::decode(r#"[{"windows":{"w":{"t":{"title":"T","favIconUrl":"f"}}}}]"#)
        .unwrap_err();
    assert_eq!(err, DecodeError::FieldMissing(Field::Url));
}

#[test]
fn malformed_json_syntax() {
    assert!(matches!(
        TSMConfig::decode(r#"[{"name":}]"#),
        Err(DecodeError::Syntax(_))
    ));
    assert!(matches!(TSMConfig::decode(""), Err(DecodeError::Syntax(_))));
    assert!(matches!(
        TSMConfig::decode(r#"[] trailing"#),
        Err(DecodeError::Syntax(_))
    ));
    assert!(matches!(
        TSMConfig::decode(r#"[{"a":01}]"#),
        Err(DecodeError::Syntax(_))
    ));
}

#[test]
fn string_escapes_decoded() {
    let text = r#"[{"name":"line\nquote\"back\\slash\/AA","tag":"𝄞","tabsNumber":0,"windows":{}}]"#;
    let session = decode_one(text);
    assert_eq!(session.name, "line\nquote\"back\\slash/AA");
    assert_eq!(session.tag, "\u{1D11E}");
}

#[test]
fn missing_session_fields_default() {
    let session = decode_one(r#"[{}]"#);
    assert_eq!(session.name, "");
    assert_eq!(session.tabs_number, 0);
    assert_eq!(session.date, 0);
    assert_eq!(session.tag, "");
    assert_eq!(session.session_start_time, "");
    assert_eq!(session.windows.len(), 0);
    assert!(session.check_valid_tabs());
}

#[test]
fn tabs_number_wrong_type() {
    let fractional = TSMConfig::decode(r#"[{"tabsNumber":1.5}]"#).unwrap_err();
    assert_eq!(fractional, DecodeError::FieldType(Field::TabsNumber));
    let negative = TSMConfig::decode(r#"[{"tabsNumber":-2}]"#).unwrap_err();
    assert_eq!(negative, DecodeError::FieldType(Field::TabsNumber));
    let huge = TSMConfig::decode(r#"[{"tabsNumber":99999999999999999999999}]"#).unwrap_err();
    assert_eq!(huge, DecodeError::FieldType(Field::TabsNumber));
    let exponent = TSMConfig::decode(r#"[{"tabsNumber":1e2}]"#).unwrap_err();
    assert_eq!(exponent, DecodeError::FieldType(Field::TabsNumber));
}

#[test]
fn string_fields_wrong_type() {
    let name = TSMConfig::decode(r#"[{"name":1}]"#).unwrap_err();
    assert_eq!(name, DecodeError::FieldType(Field::Name));
    let tag = TSMConfig::decode(r#"[{"tag":null}]"#).unwrap_err();
    assert_eq!(tag, DecodeError::FieldType(Field::Tag));
    let start = TSMConfig::decode(r#"[{"sessionStartTime":[]}]"#).unwrap_err();
    assert_eq!(start, DecodeError::FieldType(Field::SessionStartTime));
    let url = TSMConfig::decode(r#"[{"windows":{"w":{"t":{"url":5}}}}]"#).unwrap_err();
    assert_eq!(url, DecodeError::FieldType(Field::Url));
    let title = TSMConfig::decode(r#"[{"windows":{"w":{"t":{"url":"u","title":false}}}}]"#)
        .unwrap_err();
    assert_eq!(title, DecodeError::FieldType(Field::Title));
    let fav = TSMConfig::decode(r#"[{"windows":{"w":{"t":{"url":"u","title":"T","favIconUrl":{}}}}}]"#)
        .unwrap_err();
    assert_eq!(fav, DecodeError::FieldType(Field::FavIconUrl));
}

#[test]
fn tab_missing_title_and_icon() {
    let title = TSMConfig::decode(r#"[{"windows":{"w":{"t":{"url":"u","favIconUrl":"f"}}}}]"#)
        .unwrap_err();
    assert_eq!(title, DecodeError::FieldMissing(Field::Title));
    let fav = TSMConfig::decode(r#"[{"windows":{"w":{"t":{"url":"u","title":"T"}}}}]"#)
        .unwrap_err();
    assert_eq!(fav, DecodeError::FieldMissing(Field::FavIconUrl));
}

#[test]
fn bad_strings_are_syntax_errors() {
    // Unterminated string.
    assert!(matches!(
        TSMConfig::decode(r#"[{"name":"unterminated}]"#),
        Err(DecodeError::Syntax(_))
    ));
    // A lone high surrogate escape names no character.
    assert!(matches!(
        TSMConfig::decode(r#"[{"name":"\uD834"}]"#),
        Err(DecodeError::Syntax(_))
    ));
    // Unknown escape.
    assert!(matches!(
        TSMConfig::decode(r#"[{"name":"\q"}]"#),
        Err(DecodeError::Syntax(_))
    ));
    // Misspelled literal.
    assert!(matches!(
        TSMConfig::decode(r#"[{"x":nul}]"#),
        Err(DecodeError::Syntax(_))
    ));
}

#[test]
fn duplicate_key_last_wins() {
    let session = decode_one(r#"[{"name":"first","name":"second"}]"#);
    assert_eq!(session.name, "second");
}

#[test]
fn date_large_value() {
    let session = decode_one(r#"[{"date":18446744073709551615}]"#);
    assert_eq!(session.date, u64::MAX);
}

#[test]
fn decode_value_direct() {
    // The decoders also work straight off a JSON value tree.
    let tab_value = JsonValue::Obj(vec![
        JsonMember { key: String::from("url"), value: JsonValue::Str(String::from("u")) },
        JsonMember { key: String::from("title"), value: JsonValue::Str(String::from("T")) },
        JsonMember { key: String::from("favIconUrl"), value: JsonValue::Str(String::from("f")) },
    ]);
    let tab = TSMTab::decode_value(&tab_value).expect("tab should decode");
    assert_eq!(tab.url, "u");
    assert_eq!(tab.title, "T");
    assert_eq!(tab.fav_icon_url, "f");
}

#[test]
fn empty_document() {
    let config = TSMConfig::decode("[]").expect("empty array should decode");
    assert_eq!(config.into_sessions().len(), 0);
}

#[test]
fn whitespace_tolerated() {
    let text = " [ { \"name\" : \"A\" ,\n\t\"tabsNumber\" : 0 , \"windows\" : { } } ] ";
    let session = decode_one(text);
    assert_eq!(session.name, "A");
    assert!(session.check_valid_tabs());
}

#[test]
fn session_order_preserved() {
    let text = r#"[{"name":"one","tabsNumber":0,"windows":{}},
                   {"name":"two","tabsNumber":1,"windows":{}}]"#;
    let config = TSMConfig::decode(text).expect("document should decode");
    let sessions = config.into_sessions();
    assert_eq!(sessions.len(), 2);
    assert_eq!(sessions[0].name, "one");
    assert_eq!(sessions[1].name, "two");
    assert!(sessions[0].check_valid_tabs());
    assert!(!sessions[1].check_valid_tabs());
}
