//! The decoded session entities and the tab-count validator.
//!
//! A session document is an array of sessions; each session owns an ordered
//! sequence of windows, each window an ordered sequence of tabs. Windows and
//! tabs come from id-keyed JSON objects, so every one of them carries the
//! string identifier it was keyed by in the source document.

use vstd::prelude::*;

verus! {

/// One entry of an id-keyed JSON object: the key it was stored under,
/// together with the decoded value.
#[derive(Debug, Clone)]
pub struct TSMObject<T> {
    pub id: String,
    pub value: T,
}

/// Ghost image of a [`TSMObject`]: the identifier as a character sequence
/// beside the view of the value.
pub ghost struct ObjView<V> {
    pub id: Seq<char>,
    pub value: V,
}

impl<T: View> View for TSMObject<T> {
    type V = ObjView<T::V>;

    open spec fn view(&self) -> ObjView<T::V> {
        ObjView { id: self.id@, value: self.value@ }
    }
}

/// One recorded browser tab.
#[derive(Debug, Clone)]
pub struct TSMTab {
    pub url: String,
    pub title: String,
    pub fav_icon_url: String,
}

/// Ghost image of a [`TSMTab`].
pub ghost struct TabView {
    pub url: Seq<char>,
    pub title: Seq<char>,
    pub fav_icon_url: Seq<char>,
}

impl View for TSMTab {
    type V = TabView;

    open spec fn view(&self) -> TabView {
        TabView { url: self.url@, title: self.title@, fav_icon_url: self.fav_icon_url@ }
    }
}

/// One browser window: the tabs it holds, each tagged with the tab
/// identifier it was keyed by, in document order.
#[derive(Debug, Clone)]
pub struct TSMWindow {
    pub tabs: Vec<TSMObject<TSMTab>>,
}

/// Ghost image of a [`TSMWindow`].
pub ghost struct WindowView {
    pub tabs: Seq<ObjView<TabView>>,
}

impl View for TSMWindow {
    type V = WindowView;

    open spec fn view(&self) -> WindowView {
        WindowView { tabs: self.tabs@.map_values(|t: TSMObject<TSMTab>| t@) }
    }
}

/// One saved session: its windows in document order, each tagged with its
/// window identifier, and the session's own metadata fields. `tabs_number`
/// is the total the document claims, to be checked against the tabs that
/// are actually present.
#[derive(Debug)]
pub struct TSMSession {
    pub windows: Vec<TSMObject<TSMWindow>>,
    pub name: String,
    pub tabs_number: usize,
    pub date: u64,
    pub tag: String,
    pub session_start_time: String,
}

/// Ghost image of a [`TSMSession`]. The two counters are widened to `int`
/// so that contracts can speak of exact arithmetic.
pub ghost struct SessionView {
    pub windows: Seq<ObjView<WindowView>>,
    pub name: Seq<char>,
    pub tabs_number: int,
    pub date: int,
    pub tag: Seq<char>,
    pub session_start_time: Seq<char>,
}

impl View for TSMSession {
    type V = SessionView;

    open spec fn view(&self) -> SessionView {
        SessionView {
            windows: self.windows@.map_values(|w: TSMObject<TSMWindow>| w@),
            name: self.name@,
            tabs_number: self.tabs_number as int,
            date: self.date as int,
            tag: self.tag@,
            session_start_time: self.session_start_time@,
        }
    }
}

/// A whole decoded document: the sessions in the order of the top-level
/// JSON array.
#[derive(Debug)]
pub struct TSMConfig(pub Vec<TSMSession>);

impl View for TSMConfig {
    type V = Seq<SessionView>;

    open spec fn view(&self) -> Seq<SessionView> {
        self.0@.map_values(|s: TSMSession| s@)
    }
}

/// The fixed field names the decoder recognizes; decode errors carry one of
/// these to say which field was at fault.
#[derive(Clone, Copy, Debug, PartialEq, Eq, Structural)]
pub enum Field {
    Name,
    TabsNumber,
    Date,
    Tag,
    SessionStartTime,
    Windows,
    Url,
    Title,
    FavIconUrl,
}

/// Why a document failed to decode.
#[derive(Clone, Copy, Debug, PartialEq, Eq, Structural)]
pub enum DecodeError {
    /// The text is not well-formed JSON; carries the character position at
    /// which parsing failed.
    Syntax(usize),
    /// The top level of the document is not an array.
    ExpectedArray,
    /// An element of the top-level array is not an object.
    ExpectedSessionObject,
    /// A value inside a `windows` object is not an object.
    ExpectedWindowObject,
    /// A value inside a window's tab object is not an object.
    ExpectedTabObject,
    /// A recognized field is present but its value has the wrong JSON type.
    FieldType(Field),
    /// A required tab field is absent.
    FieldMissing(Field),
}

/// The number of tabs a sequence of windows actually holds: the sum of the
/// per-window tab counts.
pub open spec fn spec_counted_tabs(ws: Seq<ObjView<WindowView>>) -> int
    decreases ws.len(),
{
    if ws.len() == 0 {
        0
    } else {
        ws[0].value.tabs.len() + spec_counted_tabs(ws.drop_first())
    }
}

/// A session is valid when the tab total it declares equals the number of
/// tabs its windows actually hold.
pub open spec fn spec_session_valid(s: SessionView) -> bool {
    s.tabs_number == spec_counted_tabs(s.windows)
}

pub proof fn lemma_counted_tabs_nonneg(ws: Seq<ObjView<WindowView>>)
    ensures
        spec_counted_tabs(ws) >= 0,
    decreases ws.len(),
{
    if ws.len() > 0 {
        lemma_counted_tabs_nonneg(ws.drop_first());
    }
}

proof fn lemma_counted_tabs_skip(ws: Seq<ObjView<WindowView>>, i: int)
    requires
        0 <= i < ws.len(),
    ensures
        spec_counted_tabs(ws.skip(i)) == ws[i].value.tabs.len() + spec_counted_tabs(
            ws.skip(i + 1),
        ),
{
    assert(ws.skip(i).len() > 0);
    assert(ws.skip(i)[0] == ws[i]);
    assert(ws.skip(i).drop_first() =~= ws.skip(i + 1));
}

impl TSMSession {
    /// The number of tabs actually present across this session's windows,
    /// or `None` when that total does not fit in `usize`.
    pub fn counted_tabs(&self) -> (r: Option<usize>)
        ensures
            match r {
                Some(n) => n as int == spec_counted_tabs(self@.windows),
                None => spec_counted_tabs(self@.windows) > usize::MAX,
            },
    {
        let ghost wsv = self@.windows;
        let mut acc: usize = 0;
        let mut i: usize = 0;
        proof {
            assert(wsv.skip(0) =~= wsv);
        }
        while i < self.windows.len()
            invariant
                0 <= i <= self.windows.len(),
                wsv == self@.windows,
                wsv.len() == self.windows.len(),
                spec_counted_tabs(wsv) == acc + spec_counted_tabs(wsv.skip(i as int)),
            decreases self.windows.len() - i,
        {
            let wlen = self.windows[i].value.tabs.len();
            proof {
                assert(wsv[i as int] == self.windows@[i as int]@);
                assert(wsv[i as int].value.tabs.len() == wlen);
                lemma_counted_tabs_skip(wsv, i as int);
                lemma_counted_tabs_nonneg(wsv.skip(i as int + 1));
            }
            if wlen > usize::MAX - acc {
                return None;
            }
            acc = acc + wlen;
            i = i + 1;
        }
        proof {
            assert(wsv.skip(wsv.len() as int) =~= Seq::<ObjView<WindowView>>::empty());
        }
        Some(acc)
    }

    /// Whether the tab total this session declares equals the number of
    /// tabs its windows actually hold.
    pub fn check_valid_tabs(&self) -> (r: bool)
        ensures
            r == spec_session_valid(self@),
    {
        match self.counted_tabs() {
            Some(n) => n == self.tabs_number,
            None => false,
        }
    }
}

impl TSMConfig {
    /// Hands out the decoded sessions, in document order.
    pub fn into_sessions(self) -> (v: Vec<TSMSession>)
        ensures
            v@.map_values(|s: TSMSession| s@) == self@,
    {
        self.0
    }
}

/// A session that declares the tab total its windows actually hold is
/// valid, and any session with the same windows but a total perturbed away
/// from the true count is invalid.
pub proof fn lemma_count_round_trip(s: SessionView, t: SessionView)
    requires
        s.tabs_number == spec_counted_tabs(s.windows),
        t.windows == s.windows,
        t.tabs_number != s.tabs_number,
    ensures
        spec_session_valid(s),
        !spec_session_valid(t),
{
}

/// A session with no windows is valid exactly when it declares zero tabs.
pub proof fn lemma_empty_session(s: SessionView)
    requires
        s.windows.len() == 0,
    ensures
        spec_session_valid(s) <==> s.tabs_number == 0,
{
}

} // verus!
