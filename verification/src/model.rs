//! Entity model: requests, responses, collections, and the full application
//! state, together with their mathematical views and well-formedness.
//!
//! Invariants (kept by every transition of the reducer):
//! - every request's `headers` and `params` hold at least one pair;
//! - `main_current` stays inside the working collection whenever that
//!   collection is non-empty.

use vstd::prelude::*;

verus! {

/// HTTP method of a request.
#[derive(Debug, Clone, Copy, PartialEq, Eq, Structural)]
pub enum Method {
    GET,
    POST,
    PUT,
    PATCH,
    DELETE,
}

/// Which page of the application is shown; decides how the active request
/// is addressed.
#[derive(Debug, Clone, Copy, PartialEq, Eq, Structural)]
pub enum Page {
    Home,
    Collections,
}

/// Content type of a response body, as reported by the executor.
#[derive(Debug, Clone, Copy, PartialEq, Eq, Structural)]
pub enum ResponseType {
    TEXT,
    JSON,
}

/// The tab open in the request editor.
#[derive(Debug, Clone, Copy, PartialEq, Eq, Structural)]
pub enum RequestTab {
    Body,
    Params,
    Headers,
}

/// The tab open in the response viewer.
#[derive(Debug, Clone, Copy, PartialEq, Eq, Structural)]
pub enum ResponseTab {
    Body,
    Headers,
}

/// Selection on the `Collections` page: which collection, and which
/// request inside it.
#[derive(Debug, Clone, Copy, PartialEq, Eq, Structural)]
pub struct ColSelection {
    pub col: usize,
    pub req: usize,
}

/// A response slot embedded in a request. A slot whose request was never
/// sent holds the default value: status 0, empty body, `failed` false.
#[derive(Debug, Clone, PartialEq)]
pub struct Response {
    pub status: u16,
    pub body: String,
    pub headers: Vec<(String, String)>,
    pub time: u32,
    pub size: u64,
    pub response_type: ResponseType,
    /// Index of the slot the request occupied when it was last selected;
    /// carried through the executor and stored back for display only.
    pub request_index: usize,
    pub failed: bool,
}

/// One HTTP request being authored, with its embedded response slot.
#[derive(Debug, Clone, PartialEq)]
pub struct Request {
    pub url: String,
    pub body: String,
    pub headers: Vec<(String, String)>,
    pub params: Vec<(String, String)>,
    pub method: Method,
    pub response: Response,
    pub name: String,
    pub req_tab: RequestTab,
    pub resp_tab: ResponseTab,
}

/// A named, collapsible group of requests.
#[derive(Debug, Clone, PartialEq)]
pub struct Collection {
    pub name: String,
    pub requests: Vec<Request>,
    pub collapsed: bool,
}

/// The full application state: current page, selection indices, the
/// always-present working collection, and the named collections.
#[derive(Debug, Clone, PartialEq)]
pub struct BoltContext {
    pub page: Page,
    /// Selection into the working collection, used on the `Home` page.
    pub main_current: usize,
    /// Selection `(collection, request)` used on the `Collections` page.
    pub col_current: ColSelection,
    /// The unnamed working collection; never deletable.
    pub main_col: Collection,
    pub collections: Vec<Collection>,
}

/// The state tree as held by the running application.
#[derive(Debug, Clone, PartialEq)]
pub struct BoltState {
    pub bctx: BoltContext,
}

/// The persisted shape of the state: exactly the fields of `BoltContext`.
#[derive(Debug, Clone, PartialEq)]
pub struct SaveState {
    pub page: Page,
    pub main_current: usize,
    pub col_current: ColSelection,
    pub main_col: Collection,
    pub collections: Vec<Collection>,
}

/// Mathematical view of a `Response`.
#[verifier::ext_equal]
pub ghost struct ResponseV {
    pub status: u16,
    pub body: Seq<char>,
    pub headers: Seq<(Seq<char>, Seq<char>)>,
    pub time: u32,
    pub size: u64,
    pub response_type: ResponseType,
    pub request_index: usize,
    pub failed: bool,
}

/// Mathematical view of a `Request`.
#[verifier::ext_equal]
pub ghost struct RequestV {
    pub url: Seq<char>,
    pub body: Seq<char>,
    pub headers: Seq<(Seq<char>, Seq<char>)>,
    pub params: Seq<(Seq<char>, Seq<char>)>,
    pub method: Method,
    pub response: ResponseV,
    pub name: Seq<char>,
    pub req_tab: RequestTab,
    pub resp_tab: ResponseTab,
}

/// Mathematical view of a `Collection`.
#[verifier::ext_equal]
pub ghost struct CollectionV {
    pub name: Seq<char>,
    pub requests: Seq<RequestV>,
    pub collapsed: bool,
}

/// Mathematical view of the full state.
#[verifier::ext_equal]
pub ghost struct StateV {
    pub page: Page,
    pub main_current: usize,
    pub col_current: ColSelection,
    pub main_col: CollectionV,
    pub collections: Seq<CollectionV>,
}

pub open spec fn pairs_view(v: Seq<(String, String)>) -> Seq<(Seq<char>, Seq<char>)> {
    Seq::new(v.len(), |i: int| (v[i].0@, v[i].1@))
}

impl View for Response {
    type V = ResponseV;

    open spec fn view(&self) -> ResponseV {
        ResponseV {
            status: self.status,
            body: self.body@,
            headers: pairs_view(self.headers@),
            time: self.time,
            size: self.size,
            response_type: self.response_type,
            request_index: self.request_index,
            failed: self.failed,
        }
    }
}

impl View for Request {
    type V = RequestV;

    open spec fn view(&self) -> RequestV {
        RequestV {
            url: self.url@,
            body: self.body@,
            headers: pairs_view(self.headers@),
            params: pairs_view(self.params@),
            method: self.method,
            response: self.response@,
            name: self.name@,
            req_tab: self.req_tab,
            resp_tab: self.resp_tab,
        }
    }
}

impl View for Collection {
    type V = CollectionV;

    open spec fn view(&self) -> CollectionV {
        CollectionV {
            name: self.name@,
            requests: self.requests@.map_values(|r: Request| r@),
            collapsed: self.collapsed,
        }
    }
}

impl View for BoltContext {
    type V = StateV;

    open spec fn view(&self) -> StateV {
        StateV {
            page: self.page,
            main_current: self.main_current,
            col_current: self.col_current,
            main_col: self.main_col@,
            collections: self.collections@.map_values(|c: Collection| c@),
        }
    }
}

impl View for BoltState {
    type V = StateV;

    open spec fn view(&self) -> StateV {
        self.bctx@
    }
}

impl View for SaveState {
    type V = StateV;

    open spec fn view(&self) -> StateV {
        StateV {
            page: self.page,
            main_current: self.main_current,
            col_current: self.col_current,
            main_col: self.main_col@,
            collections: self.collections@.map_values(|c: Collection| c@),
        }
    }
}

/// View of the default (unsent) response slot.
pub open spec fn default_response_v() -> ResponseV {
    ResponseV {
        status: 0,
        body: Seq::empty(),
        headers: Seq::empty(),
        time: 0,
        size: 0,
        response_type: ResponseType::TEXT,
        request_index: 0,
        failed: false,
    }
}

/// View of a freshly constructed request: GET, one blank header pair, one
/// blank param pair, default response, and the name prefix every new
/// request starts from.
pub open spec fn new_request_v() -> RequestV {
    RequestV {
        url: Seq::empty(),
        body: Seq::empty(),
        headers: seq![(Seq::<char>::empty(), Seq::<char>::empty())],
        params: seq![(Seq::<char>::empty(), Seq::<char>::empty())],
        method: Method::GET,
        response: default_response_v(),
        name: "New Request "@,
        req_tab: RequestTab::Body,
        resp_tab: ResponseTab::Body,
    }
}

/// View of a freshly constructed collection: empty, expanded, named with
/// the prefix every new collection starts from.
pub open spec fn new_collection_v() -> CollectionV {
    CollectionV { name: "New Collection "@, requests: Seq::empty(), collapsed: false }
}

/// A request is well formed when its editor rows exist: at least one
/// header pair and one param pair.
pub open spec fn request_wf(r: RequestV) -> bool {
    &&& r.headers.len() >= 1
    &&& r.params.len() >= 1
}

/// Every request of the collection is well formed.
pub open spec fn collection_wf(c: CollectionV) -> bool {
    forall|i: int| 0 <= i < c.requests.len() ==> request_wf(#[trigger] c.requests[i])
}

/// Well-formedness of the full state: every request everywhere keeps its
/// editor rows, and the working-collection selection is in bounds whenever
/// the working collection is non-empty. An emptied working collection
/// leaves the selection at zero — the only way to empty it is to remove
/// its last request, which clamps the index to zero first — so the bound
/// holds again as soon as a request is added.
pub open spec fn state_wf(s: StateV) -> bool {
    &&& collection_wf(s.main_col)
    &&& forall|i: int| 0 <= i < s.collections.len() ==> collection_wf(#[trigger] s.collections[i])
    &&& s.main_col.requests.len() > 0 ==> (s.main_current as int) < s.main_col.requests.len()
    &&& s.main_col.requests.len() == 0 ==> s.main_current == 0
}

impl Response {
    /// The default response slot of a request that was never sent.
    pub fn new() -> (r: Response)
        ensures
            r@ == default_response_v(),
    {
        let r = Response {
            status: 0,
            body: String::new(),
            headers: Vec::new(),
            time: 0,
            size: 0,
            response_type: ResponseType::TEXT,
            request_index: 0,
            failed: false,
        };
        proof {
            assert(r@.body =~= default_response_v().body);
            assert(r@.headers =~= default_response_v().headers);
        }
        r
    }
}

impl Request {
    /// A fresh request: GET, blank url and body, one blank header pair and
    /// one blank param pair, default response.
    pub fn new() -> (r: Request)
        ensures
            r@ == new_request_v(),
            request_wf(r@),
    {
        let mut headers: Vec<(String, String)> = Vec::new();
        headers.push((String::new(), String::new()));
        let mut params: Vec<(String, String)> = Vec::new();
        params.push((String::new(), String::new()));
        let r = Request {
            url: String::new(),
            body: String::new(),
            headers,
            params,
            method: Method::GET,
            response: Response::new(),
            name: "New Request ".to_owned(),
            req_tab: RequestTab::Body,
            resp_tab: ResponseTab::Body,
        };
        proof {
            assert(r@.headers =~= new_request_v().headers);
            assert(r@.params =~= new_request_v().params);
            assert(r@.url =~= new_request_v().url);
            assert(r@.body =~= new_request_v().body);
        }
        r
    }
}

impl Collection {
    /// A fresh, empty, expanded collection.
    pub fn new() -> (c: Collection)
        ensures
            c@ == new_collection_v(),
    {
        let c = Collection {
            name: "New Collection ".to_owned(),
            requests: Vec::new(),
            collapsed: false,
        };
        proof {
            assert(c@.requests =~= new_collection_v().requests);
        }
        c
    }
}

impl BoltContext {
    /// The empty context: `Home` page, selections at zero, empty working
    /// collection, no named collections.
    pub fn new() -> (s: BoltContext)
        ensures
            s@.page == Page::Home,
            s@.main_current == 0,
            s@.col_current == (ColSelection { col: 0usize, req: 0usize }),
            s@.main_col == new_collection_v(),
            s@.collections =~= Seq::<CollectionV>::empty(),
            state_wf(s@),
    {
        let s = BoltContext {
            page: Page::Home,
            main_current: 0,
            col_current: ColSelection { col: 0, req: 0 },
            main_col: Collection::new(),
            collections: Vec::new(),
        };
        proof {
            assert(s@.collections =~= Seq::<CollectionV>::empty());
        }
        s
    }
}

impl BoltState {
    /// The empty state tree.
    pub fn new() -> (s: BoltState)
        ensures
            s@.page == Page::Home,
            s@.main_current == 0,
            s@.col_current == (ColSelection { col: 0usize, req: 0usize }),
            s@.main_col == new_collection_v(),
            s@.collections =~= Seq::<CollectionV>::empty(),
            state_wf(s@),
    {
        BoltState { bctx: BoltContext::new() }
    }
}

} // verus!
