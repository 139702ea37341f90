use tab_session_manager::TSMConfig;
use tab_session_manager::TSMObject;
use tab_session_manager::TSMSession;
use tab_session_manager::TSMTab;
use tab_session_manager::TSMWindow;

fn tab(n: &str) -> TSMObject<TSMTab> {
    TSMObject {
        id: String::from(n),
        value: TSMTab {
            url: format!("https://example.test/{n}"),
            title: String::from(n),
            fav_icon_url: String::new(),
        },
    }
}

fn session_with(windows: Vec<TSMObject<TSMWindow>>, tabs_number: usize) -> TSMSession {
    TSMSession {
        windows,
        name: String::from("s"),
        tabs_number,
        date: 0,
        tag: String::new(),
        session_start_time: String::new(),
    }
}

#[test]
fn empty_session_valid_zero() {
    let text = r#"[{"name":"empty","tabsNumber":0,"windows":{}}]"#;
    let config = TSMConfig::decode(text).expect("document should decode");
    let sessions = config.into_sessions();
    assert!(sessions[0].check_valid_tabs());

    let text = r#"[{"name":"empty","tabsNumber":1,"windows":{}}]"#;
    let config = TSMConfig::decode(text).expect("document should decode");
    let sessions = config.into_sessions();
    assert!(!sessions[0].check_valid_tabs());
    assert_eq!(sessions[0].counted_tabs(), Some(0));
}

#[test]
fn round_trip_count() {
    let windows = vec![
        TSMObject { id: String::from("w1"), value: TSMWindow { tabs: vec![tab("a"), tab("b")] } },
        TSMObject { id: String::from("w2"), value: TSMWindow { tabs: vec![] } },
        TSMObject { id: String::from("w3"), value: TSMWindow { tabs: vec![tab("c")] } },
    ];
    let true_count: usize = windows.iter().map(|w| w.value.tabs.len()).sum();
    assert_eq!(true_count, 3);

    let exact = session_with(windows, true_count);
    assert!(exact.check_valid_tabs());
    assert_eq!(exact.counted_tabs(), Some(3));

    let mut above = exact;
    above.tabs_number = true_count + 1;
    assert!(!above.check_valid_tabs());

    let mut below = above;
    below.tabs_number = true_count - 1;
    assert!(!below.check_valid_tabs());
}

#[test]
fn counted_tabs_sums_all_windows() {
    let windows = vec![
        TSMObject { id: String::from("w1"), value: TSMWindow { tabs: vec![tab("a")] } },
        TSMObject {
            id: String::from("w2"),
            value: TSMWindow { tabs: vec![tab("b"), tab("c"), tab("d")] },
        },
    ];
    let s = session_with(windows, 0);
    assert_eq!(s.counted_tabs(), Some(4));
    assert!(!s.check_valid_tabs());
}

#[test]
fn no_windows_counts_zero() {
    let s = session_with(vec![], 0);
    assert_eq!(s.counted_tabs(), Some(0));
    assert!(s.check_valid_tabs());
}
