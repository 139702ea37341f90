//! Decoding a parsed JSON value into sessions, windows and tabs.
//!
//! Sessions and tabs are decoded by streaming over the object's members in
//! document order: each recognized key fills its field (a later duplicate
//! overwrites an earlier one), and members with unrecognized keys are
//! dropped without failing. A session's `windows` object and each window
//! object are id-keyed collections: every member becomes one entry, tagged
//! with its key, in the order the keys appear in the document.
//!
//! The spec functions in this module say exactly what decoding returns for
//! every JSON value, errors included; the executable decoders are proved to
//! return precisely that.

use vstd::prelude::*;

use crate::json::JMember;
use crate::json::JVal;
use crate::json::JsonValue;
use crate::json::chars_of;
use crate::json::jmembers_of;
use crate::json::jval_of;
use crate::json::jvals_of;
use crate::json::lemma_jmembers_of;
use crate::json::lemma_jvals_of;
use crate::json::parse_json;
use crate::json::spec_parse_json;
use crate::json::str_eq_str;
use crate::session::DecodeError;
use crate::session::Field;
use crate::session::ObjView;
use crate::session::SessionView;
use crate::session::TSMConfig;
use crate::session::TSMObject;
use crate::session::TSMSession;
use crate::session::TSMTab;
use crate::session::TSMWindow;
use crate::session::TabView;
use crate::session::WindowView;

verus! {

/// The view of a decode result: the value's view on success, the error
/// itself on failure.
pub open spec fn view_res<T: View>(r: Result<T, DecodeError>) -> Result<T::V, DecodeError> {
    match r {
        Ok(t) => Ok(t@),
        Err(e) => Err(e),
    }
}

/// The keys the session decoder recognizes.
pub open spec fn recognized_session_key(k: Seq<char>) -> bool {
    ||| k == "windows"@
    ||| k == "tabsNumber"@
    ||| k == "name"@
    ||| k == "date"@
    ||| k == "tag"@
    ||| k == "sessionStartTime"@
}

/// The keys the tab decoder recognizes.
pub open spec fn recognized_tab_key(k: Seq<char>) -> bool {
    ||| k == "url"@
    ||| k == "title"@
    ||| k == "favIconUrl"@
}

/// The members of an object value; an empty sequence for anything else.
pub open spec fn obj_members(v: JVal) -> Seq<JMember> {
    match v {
        JVal::Obj(ms) => ms,
        _ => Seq::empty(),
    }
}

/// The elements of an array value; an empty sequence for anything else.
pub open spec fn arr_elems(v: JVal) -> Seq<JVal> {
    match v {
        JVal::Arr(es) => es,
        _ => Seq::empty(),
    }
}

/// The keys of a member sequence, in order.
pub open spec fn keys_of(ms: Seq<JMember>) -> Seq<Seq<char>> {
    ms.map_values(|m: JMember| m.key)
}

/// The identifiers of a decoded id-tagged sequence, in order.
pub open spec fn ids_of<V>(ws: Seq<ObjView<V>>) -> Seq<Seq<char>> {
    ws.map_values(|w: ObjView<V>| w.id)
}

// ---------------------------------------------------------------------------
// Tabs
// ---------------------------------------------------------------------------

/// The tab fields seen so far while streaming over a tab object.
pub ghost struct TabAcc {
    pub url: Option<Seq<char>>,
    pub title: Option<Seq<char>>,
    pub fav_icon_url: Option<Seq<char>>,
}

/// How one member of a tab object changes the accumulated fields: a
/// recognized key must hold a string and overwrites the field; any other
/// key is ignored.
pub open spec fn spec_tab_step(acc: TabAcc, m: JMember) -> Result<TabAcc, DecodeError> {
    if m.key == "url"@ {
        match m.value {
            JVal::Str(s) => Ok(TabAcc { url: Some(s), ..acc }),
            _ => Err(DecodeError::FieldType(Field::Url)),
        }
    } else if m.key == "title"@ {
        match m.value {
            JVal::Str(s) => Ok(TabAcc { title: Some(s), ..acc }),
            _ => Err(DecodeError::FieldType(Field::Title)),
        }
    } else if m.key == "favIconUrl"@ {
        match m.value {
            JVal::Str(s) => Ok(TabAcc { fav_icon_url: Some(s), ..acc }),
            _ => Err(DecodeError::FieldType(Field::FavIconUrl)),
        }
    } else {
        Ok(acc)
    }
}

/// Streaming over a tab object's members, front to back.
pub open spec fn spec_tab_fold(ms: Seq<JMember>, acc: TabAcc) -> Result<TabAcc, DecodeError>
    decreases ms.len(),
{
    if ms.len() == 0 {
        Ok(acc)
    } else {
        match spec_tab_step(acc, ms[0]) {
            Ok(a2) => spec_tab_fold(ms.drop_first(), a2),
            Err(e) => Err(e),
        }
    }
}

/// A finished tab requires all three fields to have appeared.
pub open spec fn spec_tab_finish(acc: TabAcc) -> Result<TabView, DecodeError> {
    match acc.url {
        None => Err(DecodeError::FieldMissing(Field::Url)),
        Some(url) => match acc.title {
            None => Err(DecodeError::FieldMissing(Field::Title)),
            Some(title) => match acc.fav_icon_url {
                None => Err(DecodeError::FieldMissing(Field::FavIconUrl)),
                Some(fav_icon_url) => Ok(TabView { url, title, fav_icon_url }),
            },
        },
    }
}

/// What decoding one tab value returns: an object is streamed over,
/// anything else is refused.
pub open spec fn spec_decode_tab(v: JVal) -> Result<TabView, DecodeError> {
    match v {
        JVal::Obj(ms) => match spec_tab_fold(
            ms,
            TabAcc { url: None, title: None, fav_icon_url: None },
        ) {
            Ok(acc) => spec_tab_finish(acc),
            Err(e) => Err(e),
        },
        _ => Err(DecodeError::ExpectedTabObject),
    }
}

/// The view of an optional decoded string.
pub open spec fn view_opt(o: Option<String>) -> Option<Seq<char>> {
    match o {
        Some(s) => Some(s@),
        None => None,
    }
}

impl TSMTab {
    /// Decodes one tab from its JSON value, returning exactly what
    /// [`spec_decode_tab`] says.
    pub fn decode_value(v: &JsonValue) -> (r: Result<TSMTab, DecodeError>)
        ensures
            view_res(r) == spec_decode_tab(jval_of(*v)),
    {
        let ms = match v {
            JsonValue::Obj(ms) => ms,
            _ => {
                return Err(DecodeError::ExpectedTabObject);
            },
        };
        let ghost init = TabAcc { url: None, title: None, fav_icon_url: None };
        let ghost jms = jmembers_of(ms@);
        let mut url: Option<String> = None;
        let mut title: Option<String> = None;
        let mut fav: Option<String> = None;
        let mut i: usize = 0;
        proof {
            lemma_jmembers_of(ms@);
            assert(jms.skip(0) =~= jms);
        }
        while i < ms.len()
            invariant
                0 <= i <= ms@.len(),
                jval_of(*v) == JVal::Obj(jms),
                jms.len() == ms@.len(),
                forall|k: int|
                    0 <= k < ms@.len() ==> jms[k] == (JMember {
                        key: #[trigger] ms@[k].key@,
                        value: jval_of(ms@[k].value),
                    }),
                init == (TabAcc { url: None, title: None, fav_icon_url: None }),
                spec_tab_fold(jms, init) == spec_tab_fold(
                    jms.skip(i as int),
                    TabAcc { url: view_opt(url), title: view_opt(title), fav_icon_url: view_opt(fav) },
                ),
            decreases ms@.len() - i,
        {
            proof {
                assert(jms.skip(i as int)[0] == jms[i as int]);
                assert(jms.skip(i as int).drop_first() =~= jms.skip(i as int + 1));
            }
            let m = &ms[i];
            if str_eq_str(m.key.as_str(), "url") {
                match &m.value {
                    JsonValue::Str(s) => {
                        url = Some(s.clone());
                    },
                    _ => {
                        return Err(DecodeError::FieldType(Field::Url));
                    },
                }
            } else if str_eq_str(m.key.as_str(), "title") {
                match &m.value {
                    JsonValue::Str(s) => {
                        title = Some(s.clone());
                    },
                    _ => {
                        return Err(DecodeError::FieldType(Field::Title));
                    },
                }
            } else if str_eq_str(m.key.as_str(), "favIconUrl") {
                match &m.value {
                    JsonValue::Str(s) => {
                        fav = Some(s.clone());
                    },
                    _ => {
                        return Err(DecodeError::FieldType(Field::FavIconUrl));
                    },
                }
            }
            i = i + 1;
        }
        let u = match url {
            Some(s) => s,
            None => {
                return Err(DecodeError::FieldMissing(Field::Url));
            },
        };
        let ti = match title {
            Some(s) => s,
            None => {
                return Err(DecodeError::FieldMissing(Field::Title));
            },
        };
        let f = match fav {
            Some(s) => s,
            None => {
                return Err(DecodeError::FieldMissing(Field::FavIconUrl));
            },
        };
        Ok(TSMTab { url: u, title: ti, fav_icon_url: f })
    }
}

// ---------------------------------------------------------------------------
// Windows
// ---------------------------------------------------------------------------

/// Streaming over a window object's members: every member is one tab,
/// tagged with its key, in document order.
pub open spec fn spec_tabs_fold(ms: Seq<JMember>, acc: Seq<ObjView<TabView>>) -> Result<
    Seq<ObjView<TabView>>,
    DecodeError,
>
    decreases ms.len(),
{
    if ms.len() == 0 {
        Ok(acc)
    } else {
        match spec_decode_tab(ms[0].value) {
            Ok(tv) => spec_tabs_fold(
                ms.drop_first(),
                acc.push(ObjView { id: ms[0].key, value: tv }),
            ),
            Err(e) => Err(e),
        }
    }
}

/// What decoding one window value returns: an object whose members are all
/// tabs; anything else is refused.
pub open spec fn spec_decode_window(v: JVal) -> Result<WindowView, DecodeError> {
    match v {
        JVal::Obj(ms) => match spec_tabs_fold(ms, Seq::empty()) {
            Ok(ts) => Ok(WindowView { tabs: ts }),
            Err(e) => Err(e),
        },
        _ => Err(DecodeError::ExpectedWindowObject),
    }
}

/// The views of a vector of id-tagged tabs.
pub open spec fn tabs_view(ts: Seq<TSMObject<TSMTab>>) -> Seq<ObjView<TabView>> {
    ts.map_values(|t: TSMObject<TSMTab>| t@)
}

impl TSMWindow {
    /// Decodes one window from its JSON value, returning exactly what
    /// [`spec_decode_window`] says.
    pub fn decode_value(v: &JsonValue) -> (r: Result<TSMWindow, DecodeError>)
        ensures
            view_res(r) == spec_decode_window(jval_of(*v)),
    {
        let ms = match v {
            JsonValue::Obj(ms) => ms,
            _ => {
                return Err(DecodeError::ExpectedWindowObject);
            },
        };
        let ghost jms = jmembers_of(ms@);
        let mut tabs: Vec<TSMObject<TSMTab>> = Vec::new();
        let mut i: usize = 0;
        proof {
            lemma_jmembers_of(ms@);
            assert(jms.skip(0) =~= jms);
            assert(tabs_view(tabs@) =~= Seq::empty());
        }
        while i < ms.len()
            invariant
                0 <= i <= ms@.len(),
                jval_of(*v) == JVal::Obj(jms),
                jms.len() == ms@.len(),
                forall|k: int|
                    0 <= k < ms@.len() ==> jms[k] == (JMember {
                        key: #[trigger] ms@[k].key@,
                        value: jval_of(ms@[k].value),
                    }),
                spec_tabs_fold(jms, Seq::empty()) == spec_tabs_fold(
                    jms.skip(i as int),
                    tabs_view(tabs@),
                ),
            decreases ms@.len() - i,
        {
            proof {
                assert(jms.skip(i as int)[0] == jms[i as int]);
                assert(jms.skip(i as int).drop_first() =~= jms.skip(i as int + 1));
            }
            let m = &ms[i];
            match TSMTab::decode_value(&m.value) {
                Ok(tab) => {
                    let ghost before = tabs_view(tabs@);
                    let id = m.key.clone();
                    tabs.push(TSMObject { id, value: tab });
                    proof {
                        assert(tabs_view(tabs@) =~= before.push(
                            ObjView { id: ms@[i as int].key@, value: tab@ },
                        ));
                    }
                },
                Err(e) => {
                    return Err(e);
                },
            }
            i = i + 1;
        }
        let w = TSMWindow { tabs };
        proof {
            assert(w@.tabs =~= tabs_view(tabs@));
        }
        Ok(w)
    }
}

/// Streaming over a session's `windows` object: every member is one
/// window, tagged with its key, in document order.
pub open spec fn spec_windows_fold(ms: Seq<JMember>, acc: Seq<ObjView<WindowView>>) -> Result<
    Seq<ObjView<WindowView>>,
    DecodeError,
>
    decreases ms.len(),
{
    if ms.len() == 0 {
        Ok(acc)
    } else {
        match spec_decode_window(ms[0].value) {
            Ok(wv) => spec_windows_fold(
                ms.drop_first(),
                acc.push(ObjView { id: ms[0].key, value: wv }),
            ),
            Err(e) => Err(e),
        }
    }
}

/// What decoding a `windows` value returns: an object whose members are
/// all windows; anything else is a type error on the `windows` field.
pub open spec fn spec_decode_windows(v: JVal) -> Result<
    Seq<ObjView<WindowView>>,
    DecodeError,
> {
    match v {
        JVal::Obj(ms) => spec_windows_fold(ms, Seq::empty()),
        _ => Err(DecodeError::FieldType(Field::Windows)),
    }
}

/// The views of a vector of id-tagged windows.
pub open spec fn windows_view(ws: Seq<TSMObject<TSMWindow>>) -> Seq<ObjView<WindowView>> {
    ws.map_values(|w: TSMObject<TSMWindow>| w@)
}

/// Decodes a session's `windows` value, returning exactly what
/// [`spec_decode_windows`] says.
fn decode_windows(v: &JsonValue) -> (r: Result<Vec<TSMObject<TSMWindow>>, DecodeError>)
    ensures
        match r {
            Ok(ws) => spec_decode_windows(jval_of(*v)) == Ok::<
                Seq<ObjView<WindowView>>,
                DecodeError,
            >(windows_view(ws@)),
            Err(e) => spec_decode_windows(jval_of(*v)) == Err::<
                Seq<ObjView<WindowView>>,
                DecodeError,
            >(e),
        },
{
    let ms = match v {
        JsonValue::Obj(ms) => ms,
        _ => {
            return Err(DecodeError::FieldType(Field::Windows));
        },
    };
    let ghost jms = jmembers_of(ms@);
    let mut ws: Vec<TSMObject<TSMWindow>> = Vec::new();
    let mut i: usize = 0;
    proof {
        lemma_jmembers_of(ms@);
        assert(jms.skip(0) =~= jms);
        assert(windows_view(ws@) =~= Seq::empty());
    }
    while i < ms.len()
        invariant
            0 <= i <= ms@.len(),
            jval_of(*v) == JVal::Obj(jms),
            jms.len() == ms@.len(),
            forall|k: int|
                0 <= k < ms@.len() ==> jms[k] == (JMember {
                    key: #[trigger] ms@[k].key@,
                    value: jval_of(ms@[k].value),
                }),
            spec_windows_fold(jms, Seq::empty()) == spec_windows_fold(
                jms.skip(i as int),
                windows_view(ws@),
            ),
        decreases ms@.len() - i,
    {
        proof {
            assert(jms.skip(i as int)[0] == jms[i as int]);
            assert(jms.skip(i as int).drop_first() =~= jms.skip(i as int + 1));
        }
        let m = &ms[i];
        match TSMWindow::decode_value(&m.value) {
            Ok(w) => {
                let ghost before = windows_view(ws@);
                let id = m.key.clone();
                ws.push(TSMObject { id, value: w });
                proof {
                    assert(windows_view(ws@) =~= before.push(
                        ObjView { id: ms@[i as int].key@, value: w@ },
                    ));
                }
            },
            Err(e) => {
                return Err(e);
            },
        }
        i = i + 1;
    }
    Ok(ws)
}

// ---------------------------------------------------------------------------
// Sessions
// ---------------------------------------------------------------------------

/// The session every decode starts from: no windows, empty strings, zero
/// counters. Fields a session object does not mention keep these values.
pub open spec fn spec_empty_session() -> SessionView {
    SessionView {
        windows: Seq::empty(),
        name: Seq::empty(),
        tabs_number: 0,
        date: 0,
        tag: Seq::empty(),
        session_start_time: Seq::empty(),
    }
}

/// How one member of a session object changes the session built so far: a
/// recognized key must hold a value of its field's type and overwrites the
/// field; any other key is ignored.
pub open spec fn spec_session_step(acc: SessionView, m: JMember) -> Result<
    SessionView,
    DecodeError,
> {
    if m.key == "windows"@ {
        match spec_decode_windows(m.value) {
            Ok(ws) => Ok(SessionView { windows: ws, ..acc }),
            Err(e) => Err(e),
        }
    } else if m.key == "tabsNumber"@ {
        match m.value {
            JVal::Int(u) => if u <= usize::MAX as u64 {
                Ok(SessionView { tabs_number: u as int, ..acc })
            } else {
                Err(DecodeError::FieldType(Field::TabsNumber))
            },
            _ => Err(DecodeError::FieldType(Field::TabsNumber)),
        }
    } else if m.key == "name"@ {
        match m.value {
            JVal::Str(s) => Ok(SessionView { name: s, ..acc }),
            _ => Err(DecodeError::FieldType(Field::Name)),
        }
    } else if m.key == "date"@ {
        match m.value {
            JVal::Int(u) => Ok(SessionView { date: u as int, ..acc }),
            _ => Err(DecodeError::FieldType(Field::Date)),
        }
    } else if m.key == "tag"@ {
        match m.value {
            JVal::Str(s) => Ok(SessionView { tag: s, ..acc }),
            _ => Err(DecodeError::FieldType(Field::Tag)),
        }
    } else if m.key == "sessionStartTime"@ {
        match m.value {
            JVal::Str(s) => Ok(SessionView { session_start_time: s, ..acc }),
            _ => Err(DecodeError::FieldType(Field::SessionStartTime)),
        }
    } else {
        Ok(acc)
    }
}

/// Streaming over a session object's members, front to back.
pub open spec fn spec_session_fold(ms: Seq<JMember>, acc: SessionView) -> Result<
    SessionView,
    DecodeError,
>
    decreases ms.len(),
{
    if ms.len() == 0 {
        Ok(acc)
    } else {
        match spec_session_step(acc, ms[0]) {
            Ok(a2) => spec_session_fold(ms.drop_first(), a2),
            Err(e) => Err(e),
        }
    }
}

/// What decoding one session value returns: an object is streamed over,
/// anything else is refused.
pub open spec fn spec_decode_session(v: JVal) -> Result<SessionView, DecodeError> {
    match v {
        JVal::Obj(ms) => spec_session_fold(ms, spec_empty_session()),
        _ => Err(DecodeError::ExpectedSessionObject),
    }
}

impl TSMSession {
    /// Decodes one session from its JSON value, returning exactly what
    /// [`spec_decode_session`] says.
    pub fn decode_value(v: &JsonValue) -> (r: Result<TSMSession, DecodeError>)
        ensures
            view_res(r) == spec_decode_session(jval_of(*v)),
    {
        let ms = match v {
            JsonValue::Obj(ms) => ms,
            _ => {
                return Err(DecodeError::ExpectedSessionObject);
            },
        };
        let ghost jms = jmembers_of(ms@);
        let mut s = TSMSession {
            windows: Vec::new(),
            name: String::new(),
            tabs_number: 0,
            date: 0,
            tag: String::new(),
            session_start_time: String::new(),
        };
        let mut i: usize = 0;
        proof {
            lemma_jmembers_of(ms@);
            assert(jms.skip(0) =~= jms);
            assert(s@.windows =~= spec_empty_session().windows);
            assert(s@ == spec_empty_session());
        }
        while i < ms.len()
            invariant
                0 <= i <= ms@.len(),
                jval_of(*v) == JVal::Obj(jms),
                jms.len() == ms@.len(),
                forall|k: int|
                    0 <= k < ms@.len() ==> jms[k] == (JMember {
                        key: #[trigger] ms@[k].key@,
                        value: jval_of(ms@[k].value),
                    }),
                spec_session_fold(jms, spec_empty_session()) == spec_session_fold(
                    jms.skip(i as int),
                    s@,
                ),
            decreases ms@.len() - i,
        {
            proof {
                assert(jms.skip(i as int)[0] == jms[i as int]);
                assert(jms.skip(i as int).drop_first() =~= jms.skip(i as int + 1));
            }
            let m = &ms[i];
            if str_eq_str(m.key.as_str(), "windows") {
                match decode_windows(&m.value) {
                    Ok(ws) => {
                        s.windows = ws;
                    },
                    Err(e) => {
                        return Err(e);
                    },
                }
            } else if str_eq_str(m.key.as_str(), "tabsNumber") {
                match &m.value {
                    JsonValue::Int(u) => {
                        if *u <= usize::MAX as u64 {
                            s.tabs_number = *u as usize;
                        } else {
                            return Err(DecodeError::FieldType(Field::TabsNumber));
                        }
                    },
                    _ => {
                        return Err(DecodeError::FieldType(Field::TabsNumber));
                    },
                }
            } else if str_eq_str(m.key.as_str(), "name") {
                match &m.value {
                    JsonValue::Str(st) => {
                        s.name = st.clone();
                    },
                    _ => {
                        return Err(DecodeError::FieldType(Field::Name));
                    },
                }
            } else if str_eq_str(m.key.as_str(), "date") {
                match &m.value {
                    JsonValue::Int(u) => {
                        s.date = *u;
                    },
                    _ => {
                        return Err(DecodeError::FieldType(Field::Date));
                    },
                }
            } else if str_eq_str(m.key.as_str(), "tag") {
                match &m.value {
                    JsonValue::Str(st) => {
                        s.tag = st.clone();
                    },
                    _ => {
                        return Err(DecodeError::FieldType(Field::Tag));
                    },
                }
            } else if str_eq_str(m.key.as_str(), "sessionStartTime") {
                match &m.value {
                    JsonValue::Str(st) => {
                        s.session_start_time = st.clone();
                    },
                    _ => {
                        return Err(DecodeError::FieldType(Field::SessionStartTime));
                    },
                }
            }
            i = i + 1;
        }
        Ok(s)
    }
}

/// The views of a vector of sessions.
pub open spec fn sessions_view(ss: Seq<TSMSession>) -> Seq<SessionView> {
    ss.map_values(|s: TSMSession| s@)
}

/// Streaming over the top-level array: every element is one session, in
/// array order.
pub open spec fn spec_sessions_fold(es: Seq<JVal>, acc: Seq<SessionView>) -> Result<
    Seq<SessionView>,
    DecodeError,
>
    decreases es.len(),
{
    if es.len() == 0 {
        Ok(acc)
    } else {
        match spec_decode_session(es[0]) {
            Ok(sv) => spec_sessions_fold(es.drop_first(), acc.push(sv)),
            Err(e) => Err(e),
        }
    }
}

/// What decoding a whole document value returns: a top-level array of
/// sessions; anything else is refused.
pub open spec fn spec_decode_config(v: JVal) -> Result<Seq<SessionView>, DecodeError> {
    match v {
        JVal::Arr(es) => spec_sessions_fold(es, Seq::empty()),
        _ => Err(DecodeError::ExpectedArray),
    }
}

impl TSMConfig {
    /// Decodes a whole document from its JSON value, returning exactly what
    /// [`spec_decode_config`] says.
    pub fn decode_value(v: &JsonValue) -> (r: Result<TSMConfig, DecodeError>)
        ensures
            view_res(r) == spec_decode_config(jval_of(*v)),
    {
        let es = match v {
            JsonValue::Arr(es) => es,
            _ => {
                return Err(DecodeError::ExpectedArray);
            },
        };
        let ghost jes = jvals_of(es@);
        let mut ss: Vec<TSMSession> = Vec::new();
        let mut i: usize = 0;
        proof {
            lemma_jvals_of(es@);
            assert(jes.skip(0) =~= jes);
            assert(sessions_view(ss@) =~= Seq::empty());
        }
        while i < es.len()
            invariant
                0 <= i <= es@.len(),
                jval_of(*v) == JVal::Arr(jes),
                jes.len() == es@.len(),
                forall|k: int| 0 <= k < es@.len() ==> jes[k] == jval_of(#[trigger] es@[k]),
                spec_sessions_fold(jes, Seq::empty()) == spec_sessions_fold(
                    jes.skip(i as int),
                    sessions_view(ss@),
                ),
            decreases es@.len() - i,
        {
            proof {
                assert(jes.skip(i as int)[0] == jes[i as int]);
                assert(jes.skip(i as int).drop_first() =~= jes.skip(i as int + 1));
            }
            match TSMSession::decode_value(&es[i]) {
                Ok(sess) => {
                    let ghost before = sessions_view(ss@);
                    ss.push(sess);
                    proof {
                        assert(sessions_view(ss@) =~= before.push(sess@));
                    }
                },
                Err(e) => {
                    return Err(e);
                },
            }
            i = i + 1;
        }
        let c = TSMConfig(ss);
        proof {
            assert(c@ =~= sessions_view(ss@));
        }
        Ok(c)
    }

    /// Decodes a whole document from its JSON text: the text is parsed,
    /// then decoded, and the result is exactly what [`spec_decode_text`]
    /// says for these characters.
    pub fn decode(text: &str) -> (r: Result<TSMConfig, DecodeError>)
        ensures
            view_res(r) == spec_decode_text(text@),
    {
        let cs = chars_of(text);
        let v = match parse_json(&cs) {
            Ok(v) => v,
            Err(p) => {
                return Err(DecodeError::Syntax(p));
            },
        };
        Self::decode_value(&v)
    }
}

/// What decoding a whole JSON text returns: the decode of the parsed
/// value, or a syntax error carrying the position at which parsing stops.
pub open spec fn spec_decode_text(t: Seq<char>) -> Result<Seq<SessionView>, DecodeError> {
    match spec_parse_json(t) {
        Ok(jv) => spec_decode_config(jv),
        Err(p) => Err(DecodeError::Syntax(p as usize)),
    }
}

// ---------------------------------------------------------------------------
// Order preservation
// ---------------------------------------------------------------------------

proof fn lemma_windows_fold_order(
    ms: Seq<JMember>,
    acc: Seq<ObjView<WindowView>>,
    ws: Seq<ObjView<WindowView>>,
)
    requires
        spec_windows_fold(ms, acc) == Ok::<Seq<ObjView<WindowView>>, DecodeError>(ws),
    ensures
        ids_of(ws) == ids_of(acc) + keys_of(ms),
    decreases ms.len(),
{
    if ms.len() == 0 {
        assert(ws == acc);
        assert(ids_of(acc) + keys_of(ms) =~= ids_of(acc));
    } else {
        match spec_decode_window(ms[0].value) {
            Ok(wv) => {
                let acc2 = acc.push(ObjView { id: ms[0].key, value: wv });
                lemma_windows_fold_order(ms.drop_first(), acc2, ws);
                assert(ids_of(acc2) =~= ids_of(acc).push(ms[0].key));
                assert(ids_of(acc).push(ms[0].key) + keys_of(ms.drop_first()) =~= ids_of(acc)
                    + keys_of(ms));
            },
            Err(_) => {
                assert(false);
            },
        }
    }
}

/// Order preservation for windows: when a `windows` object decodes, the
/// decoded sequence of window identifiers equals the object's keys in
/// exactly the order they appear in the document.
pub proof fn lemma_window_order(v: JVal, ws: Seq<ObjView<WindowView>>)
    requires
        spec_decode_windows(v) == Ok::<Seq<ObjView<WindowView>>, DecodeError>(ws),
    ensures
        ids_of(ws) == keys_of(obj_members(v)),
{
    match v {
        JVal::Obj(ms) => {
            lemma_windows_fold_order(ms, Seq::empty(), ws);
            assert(ids_of(Seq::<ObjView<WindowView>>::empty()) + keys_of(ms) =~= keys_of(ms));
        },
        _ => {
            assert(false);
        },
    }
}

proof fn lemma_tabs_fold_order(
    ms: Seq<JMember>,
    acc: Seq<ObjView<TabView>>,
    ts: Seq<ObjView<TabView>>,
)
    requires
        spec_tabs_fold(ms, acc) == Ok::<Seq<ObjView<TabView>>, DecodeError>(ts),
    ensures
        ids_of(ts) == ids_of(acc) + keys_of(ms),
    decreases ms.len(),
{
    if ms.len() == 0 {
        assert(ts == acc);
        assert(ids_of(acc) + keys_of(ms) =~= ids_of(acc));
    } else {
        match spec_decode_tab(ms[0].value) {
            Ok(tv) => {
                let acc2 = acc.push(ObjView { id: ms[0].key, value: tv });
                lemma_tabs_fold_order(ms.drop_first(), acc2, ts);
                assert(ids_of(acc2) =~= ids_of(acc).push(ms[0].key));
                assert(ids_of(acc).push(ms[0].key) + keys_of(ms.drop_first()) =~= ids_of(acc)
                    + keys_of(ms));
            },
            Err(_) => {
                assert(false);
            },
        }
    }
}

/// Order preservation for tabs: when a window object decodes, the decoded
/// sequence of tab identifiers equals the object's keys in exactly the
/// order they appear in the document.
pub proof fn lemma_tab_order(v: JVal, w: WindowView)
    requires
        spec_decode_window(v) == Ok::<WindowView, DecodeError>(w),
    ensures
        ids_of(w.tabs) == keys_of(obj_members(v)),
{
    match v {
        JVal::Obj(ms) => {
            lemma_tabs_fold_order(ms, Seq::empty(), w.tabs);
            assert(ids_of(Seq::<ObjView<TabView>>::empty()) + keys_of(ms) =~= keys_of(ms));
        },
        _ => {
            assert(false);
        },
    }
}

proof fn lemma_sessions_fold_order(es: Seq<JVal>, acc: Seq<SessionView>, ss: Seq<SessionView>)
    requires
        spec_sessions_fold(es, acc) == Ok::<Seq<SessionView>, DecodeError>(ss),
    ensures
        ss.len() == acc.len() + es.len(),
        forall|k: int| 0 <= k < acc.len() ==> ss[k] == acc[k],
        forall|k: int|
            0 <= k < es.len() ==> spec_decode_session(#[trigger] es[k]) == Ok::<
                SessionView,
                DecodeError,
            >(ss[acc.len() + k]),
    decreases es.len(),
{
    if es.len() == 0 {
        assert(ss == acc);
    } else {
        match spec_decode_session(es[0]) {
            Ok(sv) => {
                let acc2 = acc.push(sv);
                lemma_sessions_fold_order(es.drop_first(), acc2, ss);
                assert forall|k: int| 0 <= k < es.len() implies spec_decode_session(
                    #[trigger] es[k],
                ) == Ok::<SessionView, DecodeError>(ss[acc.len() + k]) by {
                    if k == 0 {
                        assert(ss[acc.len() as int] == acc2[acc.len() as int]);
                    } else {
                        assert(es[k] == es.drop_first()[k - 1]);
                    }
                }
            },
            Err(_) => {
                assert(false);
            },
        }
    }
}

/// One decoded session per input element, in input order: when a document
/// decodes, the decoded sequence has exactly one session for each element
/// of the top-level array, and the k-th session is the decode of the k-th
/// element.
pub proof fn lemma_session_order(v: JVal, ss: Seq<SessionView>)
    requires
        spec_decode_config(v) == Ok::<Seq<SessionView>, DecodeError>(ss),
    ensures
        ss.len() == arr_elems(v).len(),
        forall|k: int|
            0 <= k < ss.len() ==> spec_decode_session(#[trigger] arr_elems(v)[k]) == Ok::<
                SessionView,
                DecodeError,
            >(ss[k]),
{
    match v {
        JVal::Arr(es) => {
            lemma_sessions_fold_order(es, Seq::empty(), ss);
        },
        _ => {
            assert(false);
        },
    }
}

proof fn lemma_session_fold_split(ms: Seq<JMember>, acc: SessionView, j: int)
    requires
        0 <= j <= ms.len(),
    ensures
        spec_session_fold(ms, acc) == (match spec_session_fold(ms.subrange(0, j), acc) {
            Ok(a) => spec_session_fold(ms.skip(j), a),
            Err(e) => Err(e),
        }),
    decreases j,
{
    if j == 0 {
        assert(ms.subrange(0, 0) =~= Seq::<JMember>::empty());
        assert(ms.skip(0) =~= ms);
    } else {
        assert(ms.len() > 0);
        assert(ms.subrange(0, j)[0] == ms[0]);
        assert(ms.subrange(0, j).drop_first() =~= ms.drop_first().subrange(0, j - 1));
        assert(ms.skip(j) =~= ms.drop_first().skip(j - 1));
        match spec_session_step(acc, ms[0]) {
            Ok(a1) => {
                lemma_session_fold_split(ms.drop_first(), a1, j - 1);
            },
            Err(_) => {
            },
        }
    }
}

/// An ill-typed recognized field names itself in the error: when every
/// member before a `date` member decodes cleanly and that member's value
/// is not an integer, the session decode fails with exactly the error
/// naming `date`.
pub proof fn lemma_date_type_error(v: JVal, j: int)
    requires
        v is Obj,
        0 <= j < obj_members(v).len(),
        spec_session_fold(obj_members(v).subrange(0, j), spec_empty_session()) is Ok,
        obj_members(v)[j].key == "date"@,
        !(obj_members(v)[j].value is Int),
    ensures
        spec_decode_session(v) == Err::<SessionView, DecodeError>(
            DecodeError::FieldType(Field::Date),
        ),
{
    let ms = obj_members(v);
    lemma_session_fold_split(ms, spec_empty_session(), j);
    assert(ms.skip(j)[0] == ms[j]);
    reveal_strlit("date");
    reveal_strlit("windows");
    reveal_strlit("tabsNumber");
    reveal_strlit("name");
    assert("date"@.len() == 4);
    assert("windows"@.len() == 7);
    assert("tabsNumber"@.len() == 10);
    assert("date"@[0] == 'd');
    assert("name"@[0] == 'n');
    match spec_session_fold(ms.subrange(0, j), spec_empty_session()) {
        Ok(a) => {
            assert(spec_session_step(a, ms[j]) == Err::<SessionView, DecodeError>(
                DecodeError::FieldType(Field::Date),
            ));
        },
        Err(_) => {
            assert(false);
        },
    }
}

// ---------------------------------------------------------------------------
// Unknown-field tolerance
// ---------------------------------------------------------------------------

proof fn lemma_session_fold_insert(ms: Seq<JMember>, acc: SessionView, m: JMember, j: int)
    requires
        0 <= j <= ms.len(),
        !recognized_session_key(m.key),
    ensures
        spec_session_fold(ms.insert(j, m), acc) == spec_session_fold(ms, acc),
    decreases ms.len(),
{
    let ms2 = ms.insert(j, m);
    if j == 0 {
        assert(ms2[0] == m);
        assert(spec_session_step(acc, m) == Ok::<SessionView, DecodeError>(acc));
        assert(ms2.drop_first() =~= ms);
    } else {
        assert(ms2[0] == ms[0]);
        assert(ms2.drop_first() =~= ms.drop_first().insert(j - 1, m));
        match spec_session_step(acc, ms[0]) {
            Ok(a2) => {
                lemma_session_fold_insert(ms.drop_first(), a2, m, j - 1);
            },
            Err(_) => {
            },
        }
    }
}

/// Unknown-field tolerance for sessions: inserting a member whose key the
/// session decoder does not recognize, at any position of a session
/// object, leaves the decoded session unchanged — it neither fails nor
/// alters any recognized field.
pub proof fn lemma_session_unknown_field(v1: JVal, v2: JVal, m: JMember, j: int)
    requires
        v1 is Obj,
        v2 is Obj,
        0 <= j <= obj_members(v1).len(),
        obj_members(v2) == obj_members(v1).insert(j, m),
        !recognized_session_key(m.key),
    ensures
        spec_decode_session(v2) == spec_decode_session(v1),
{
    lemma_session_fold_insert(obj_members(v1), spec_empty_session(), m, j);
}

proof fn lemma_tab_fold_insert(ms: Seq<JMember>, acc: TabAcc, m: JMember, j: int)
    requires
        0 <= j <= ms.len(),
        !recognized_tab_key(m.key),
    ensures
        spec_tab_fold(ms.insert(j, m), acc) == spec_tab_fold(ms, acc),
    decreases ms.len(),
{
    let ms2 = ms.insert(j, m);
    if j == 0 {
        assert(ms2[0] == m);
        assert(spec_tab_step(acc, m) == Ok::<TabAcc, DecodeError>(acc));
        assert(ms2.drop_first() =~= ms);
    } else {
        assert(ms2[0] == ms[0]);
        assert(ms2.drop_first() =~= ms.drop_first().insert(j - 1, m));
        match spec_tab_step(acc, ms[0]) {
            Ok(a2) => {
                lemma_tab_fold_insert(ms.drop_first(), a2, m, j - 1);
            },
            Err(_) => {
            },
        }
    }
}

/// Unknown-field tolerance for tabs: inserting a member whose key the tab
/// decoder does not recognize, at any position of a tab object, leaves the
/// decoded tab unchanged — it neither fails nor alters any recognized
/// field.
pub proof fn lemma_tab_unknown_field(v1: JVal, v2: JVal, m: JMember, j: int)
    requires
        v1 is Obj,
        v2 is Obj,
        0 <= j <= obj_members(v1).len(),
        obj_members(v2) == obj_members(v1).insert(j, m),
        !recognized_tab_key(m.key),
    ensures
        spec_decode_tab(v2) == spec_decode_tab(v1),
{
    lemma_tab_fold_insert(
        obj_members(v1),
        TabAcc { url: None, title: None, fav_icon_url: None },
        m,
        j,
    );
}

} // verus!
