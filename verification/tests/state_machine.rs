use bolt_core::BoltContext;
use bolt_core::ColSelection;
use bolt_core::Effect;
use bolt_core::Method;
use bolt_core::Msg;
use bolt_core::Page;
use bolt_core::Request;
use bolt_core::Response;
use bolt_core::ResponseType;
use bolt_core::StateError;
use bolt_core::default_state;
use bolt_core::deserialize;
use bolt_core::from_save;
use bolt_core::get_dist;
use bolt_core::load_state;
use bolt_core::process;
use bolt_core::receive_response;
use bolt_core::serialize;
use bolt_core::to_save;

fn seeded() -> BoltContext {
    let mut b = from_save(default_state());
    assert_eq!(b.main_col.requests.len(), 1);
    b.page = Page::Home;
    b
}

fn arrived(body: &str, rtype: ResponseType, index: usize) -> Response {
    Response {
        status: 200,
        body: body.to_string(),
        headers: vec![("server".to_string(), "test".to_string())],
        time: 12,
        size: 34,
        response_type: rtype,
        request_index: index,
        failed: false,
    }
}

#[test]
fn default_seed_shape() {
    let s = default_state();
    assert_eq!(s.page, Page::Home);
    assert_eq!(s.main_current, 0);
    assert_eq!(s.col_current, ColSelection { col: 0, req: 0 });
    assert!(s.collections.is_empty());
    assert_eq!(s.main_col.requests.len(), 1);
    assert_eq!(s.main_col.requests[0].name, "New Request 1");
    assert_eq!(s.main_col.requests[0].method, Method::GET);
    assert_eq!(s.main_col.requests[0].headers, vec![(String::new(), String::new())]);
    assert_eq!(s.main_col.requests[0].params, vec![(String::new(), String::new())]);
    assert_eq!(s.main_col.requests[0].response.status, 0);
    assert!(!s.main_col.requests[0].response.failed);
}

#[test]
fn load_state_of_empty_document_yields_seed() {
    let empty: Vec<char> = Vec::new();
    let s = load_state(&empty);
    assert_eq!(s, default_state());
}

#[test]
fn deserialize_rejects_garbage() {
    let junk: Vec<char> = "not a state".chars().collect();
    assert_eq!(deserialize(&junk), Err(StateError::CorruptState));
    let trailing: Vec<char> = {
        let mut v = serialize(&default_state());
        v.push('x');
        v
    };
    assert_eq!(deserialize(&trailing), Err(StateError::CorruptState));
}

#[test]
fn round_trip_of_a_worked_state() {
    let mut b = seeded();
    process(&mut b, Msg::AddRequest);
    process(&mut b, Msg::UrlChanged("https://example.test/a?x".to_string()));
    process(&mut b, Msg::AddHeader);
    process(&mut b, Msg::HeaderChanged(1, "accept".to_string(), "text/plain".to_string()));
    process(&mut b, Msg::AddCollection);
    process(&mut b, Msg::AddToCollection(0));
    process(&mut b, Msg::ToggleCollapsed(0));
    process(&mut b, Msg::SwitchPage(Page::Collections));
    let saved = to_save(b);
    let doc = serialize(&saved);
    let back = deserialize(&doc).expect("own document must parse");
    assert_eq!(back, saved);
}

#[test]
fn add_request_numbers_names() {
    let mut b = seeded();
    process(&mut b, Msg::AddRequest);
    process(&mut b, Msg::AddRequest);
    assert_eq!(b.main_col.requests[1].name, "New Request 2");
    assert_eq!(b.main_col.requests[2].name, "New Request 3");
    process(&mut b, Msg::AddCollection);
    assert_eq!(b.collections[0].name, "New Collection 1");
}

#[test]
fn remove_request_clamps_selection() {
    let mut b = seeded();
    process(&mut b, Msg::AddRequest);
    process(&mut b, Msg::AddRequest);
    process(&mut b, Msg::SelectRequest(2));
    process(&mut b, Msg::RemoveRequest(2));
    assert_eq!(b.main_current, 1);
    assert_eq!(b.main_col.requests.len(), 2);
}

#[test]
fn removal_in_collections_resets_selection() {
    let mut b = seeded();
    process(&mut b, Msg::AddCollection);
    process(&mut b, Msg::AddCollection);
    process(&mut b, Msg::AddToCollection(1));
    process(&mut b, Msg::SelectFromCollection(1, 0));
    assert_eq!(b.col_current, ColSelection { col: 1, req: 0 });
    process(&mut b, Msg::RemoveFromCollection(1, 0));
    assert_eq!(b.col_current, ColSelection { col: 0, req: 0 });
}

#[test]
fn remove_collection_resets_selection() {
    let mut b = seeded();
    process(&mut b, Msg::AddCollection);
    process(&mut b, Msg::AddCollection);
    process(&mut b, Msg::AddToCollection(0));
    process(&mut b, Msg::SelectFromCollection(0, 0));
    process(&mut b, Msg::RemoveCollection(1));
    assert_eq!(b.col_current, ColSelection { col: 0, req: 0 });
}

#[test]
fn select_then_send_carries_index() {
    let mut b = seeded();
    process(&mut b, Msg::AddRequest);
    process(&mut b, Msg::AddRequest);
    let (_, _) = process(&mut b, Msg::SelectRequest(2));
    assert_eq!(b.main_col.requests[2].response.request_index, 2);
    let (redraw, eff) = process(&mut b, Msg::SendPressed);
    assert!(redraw);
    match eff {
        Effect::Send(p) => assert_eq!(p.index, 2),
        _ => panic!("send must produce a snapshot"),
    }
}

#[test]
fn send_merges_params_into_query() {
    let mut b = seeded();
    process(&mut b, Msg::UrlChanged("https://example.test/q".to_string()));
    process(&mut b, Msg::ParamChanged(0, "a".to_string(), "1".to_string()));
    process(&mut b, Msg::AddParam);
    process(&mut b, Msg::ParamChanged(1, "b".to_string(), "2".to_string()));
    let (_, eff) = process(&mut b, Msg::SendPressed);
    match eff {
        Effect::Send(p) => assert_eq!(p.url, "https://example.test/q?a=1&b=2"),
        _ => panic!("send must produce a snapshot"),
    }
}

#[test]
fn misrouted_response_goes_to_current_selection() {
    let mut b = seeded();
    process(&mut b, Msg::AddRequest);
    assert_eq!(b.main_col.requests.len(), 2);
    process(&mut b, Msg::SelectRequest(0));
    let (_, eff) = process(&mut b, Msg::SendPressed);
    let sent_index = match eff {
        Effect::Send(p) => p.index,
        _ => panic!("send must produce a snapshot"),
    };
    assert_eq!(sent_index, 0);
    process(&mut b, Msg::SelectRequest(1));
    let resp = arrived("hello", ResponseType::TEXT, sent_index);
    receive_response(&mut b, resp);
    assert_eq!(b.main_col.requests[1].response.status, 200);
    assert_eq!(b.main_col.requests[1].response.body, "hello");
    assert_eq!(b.main_col.requests[0].response.status, 0);
    // the carried index is stored for display only
    assert_eq!(b.main_col.requests[1].response.request_index, 0);
}

#[test]
fn json_response_body_is_rendered() {
    let mut b = seeded();
    process(&mut b, Msg::SelectRequest(0));
    let resp = arrived("{\"a\":1}", ResponseType::JSON, 0);
    receive_response(&mut b, resp);
    let stored = &b.main_col.requests[0].response.body;
    assert_ne!(stored, "{\"a\":1}");
    assert_eq!(stored, "{\n  \"a\": 1\n}");
}

#[test]
fn text_response_body_is_stored_as_is() {
    let mut b = seeded();
    process(&mut b, Msg::SelectRequest(0));
    let resp = arrived("{\"a\":1}", ResponseType::TEXT, 0);
    receive_response(&mut b, resp);
    assert_eq!(b.main_col.requests[0].response.body, "{\"a\":1}");
}

#[test]
fn header_rows_never_vanish() {
    let mut b = seeded();
    process(&mut b, Msg::AddHeader);
    process(&mut b, Msg::RemoveHeader(1));
    assert_eq!(b.main_col.requests[0].headers.len(), 1);
    process(&mut b, Msg::AddParam);
    process(&mut b, Msg::RemoveParam(0));
    assert_eq!(b.main_col.requests[0].params.len(), 1);
}

#[test]
fn field_edits_land_on_the_target() {
    let mut b = seeded();
    process(&mut b, Msg::SelectedMethod(Method::POST));
    assert_eq!(b.main_col.requests[0].method, Method::POST);
    process(&mut b, Msg::MethodChanged(Method::DELETE));
    assert_eq!(b.main_col.requests[0].method, Method::DELETE);
    process(&mut b, Msg::BodyChanged("abc".to_string()));
    assert_eq!(b.main_col.requests[0].body, "abc");
    process(&mut b, Msg::UrlChanged("u1".to_string()));
    assert_eq!(b.main_col.requests[0].url, "u1");
    assert_eq!(b.main_col.requests[0].name, "u1");
}

#[test]
fn nothing_asks_no_redraw() {
    let mut b = seeded();
    let (redraw, _) = process(&mut b, Msg::Nothing);
    assert!(!redraw);
    let (redraw2, _) = process(&mut b, Msg::Update);
    assert!(redraw2);
}

#[test]
fn help_opens_the_project_page() {
    let mut b = seeded();
    let (_, eff) = process(&mut b, Msg::HelpPressed);
    match eff {
        Effect::OpenLink(u) => assert_eq!(u, "https://github.com/hiro-codes/bolt"),
        _ => panic!("help must open a link"),
    }
}

#[test]
fn get_dist_appends_dist_dir() {
    assert_eq!(get_dist("/home/u/bolt/"), "/home/u/bolt/dist/");
}

#[test]
fn constructors_have_default_shapes() {
    let r = Request::new();
    assert_eq!(r.method, Method::GET);
    assert_eq!(r.name, "New Request ");
    assert_eq!(r.headers.len(), 1);
    assert_eq!(r.params.len(), 1);
    let resp = Response::new();
    assert_eq!(resp.status, 0);
    assert_eq!(resp.body, "");
    let c = bolt_core::Collection::new();
    assert_eq!(c.name, "New Collection ");
    assert!(c.requests.is_empty());
    assert!(!c.collapsed);
    let b = BoltContext::new();
    assert_eq!(b.page, Page::Home);
    assert_eq!(b.main_current, 0);
    let st = bolt_core::BoltState::new();
    assert_eq!(st.bctx.page, Page::Home);
}
