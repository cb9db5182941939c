//! The state reducer and the send/receive correlation protocol.
//!
//! `process` is a total function from the current state and one action to
//! the next state, a redraw request, and an effect for the surrounding
//! layer. `step` is its mathematical statement: every action's outcome is
//! written there, and `process` is proved to realise it.
//!
//! Correlation: selecting a request stamps its slot index into its embedded
//! response (`request_index`); a send snapshot carries that stamp verbatim.
//! An arriving response is written into the request the *current*
//! navigation state addresses — the carried index is stored for display
//! only, never used for addressing. A removal of a collection or of a
//! request inside one resets the collection selection to `(0, 0)`
//! unconditionally; this mirrors the system's documented behaviour and is
//! deliberately not "repaired" here.

use vstd::prelude::*;
use crate::model::BoltContext;
use crate::model::ColSelection;
use crate::model::CollectionV;
use crate::model::Collection;
use crate::model::Method;
use crate::model::Page;
use crate::model::Request;
use crate::model::RequestTab;
use crate::model::RequestV;
use crate::model::Response;
use crate::model::ResponseTab;
use crate::model::ResponseType;
use crate::model::ResponseV;
use crate::model::StateV;
use crate::model::new_collection_v;
use crate::model::new_request_v;
use crate::model::pairs_view;
use crate::model::request_wf;
use crate::model::state_wf;
use crate::msg::Effect;
use crate::msg::EffectV;
use crate::msg::Msg;
use crate::msg::SendPayload;
use crate::msg::SendPayloadV;
use crate::numerals::dec_digits;
use crate::render::render_json;
use crate::render::render_of;
use crate::strings::numbered_name;
use crate::url::build_merged_url;
use crate::url::merged_url;

verus! {

/// Whether the current navigation state addresses an existing request:
/// on `Home`, the working-collection selection is in bounds; on
/// `Collections`, the collection selection is.
pub open spec fn has_target(s: StateV) -> bool {
    if s.page == Page::Home {
        (s.main_current as int) < s.main_col.requests.len()
    } else {
        &&& (s.col_current.col as int) < s.collections.len()
        &&& (s.col_current.req as int) < s.collections[s.col_current.col as int].requests.len()
    }
}

/// The request the current navigation state addresses.
pub open spec fn cur_request(s: StateV) -> RequestV
    recommends
        has_target(s),
{
    if s.page == Page::Home {
        s.main_col.requests[s.main_current as int]
    } else {
        s.collections[s.col_current.col as int].requests[s.col_current.req as int]
    }
}

/// The state with the currently addressed request replaced by `r`.
pub open spec fn with_cur_request(s: StateV, r: RequestV) -> StateV
    recommends
        has_target(s),
{
    if s.page == Page::Home {
        StateV {
            main_col: CollectionV {
                requests: s.main_col.requests.update(s.main_current as int, r),
                ..s.main_col
            },
            ..s
        }
    } else {
        let ci = s.col_current.col as int;
        let ri = s.col_current.req as int;
        let c = s.collections[ci];
        StateV {
            collections: s.collections.update(
                ci,
                CollectionV { requests: c.requests.update(ri, r), ..c },
            ),
            ..s
        }
    }
}

/// The view of a fresh request whose name carries the number `n`.
pub open spec fn numbered_request_v(n: nat) -> RequestV {
    RequestV { name: "New Request "@ + dec_digits(n), ..new_request_v() }
}

/// The view of a fresh collection whose name carries the number `n`.
pub open spec fn numbered_collection_v(n: nat) -> CollectionV {
    CollectionV { name: "New Collection "@ + dec_digits(n), ..new_collection_v() }
}

/// The outcome of one action: the complete next state. This is the
/// reducer's specification; `process` realises it.
pub open spec fn step(s: StateV, m: Msg) -> StateV {
    match m {
        Msg::Nothing => s,
        Msg::Update => s,
        Msg::ReceivedResponse => s,
        Msg::HelpPressed => s,
        Msg::SendPressed => s,
        Msg::SelectedMethod(meth) => with_cur_request(
            s,
            RequestV { method: meth, ..cur_request(s) },
        ),
        Msg::MethodChanged(meth) => with_cur_request(
            s,
            RequestV { method: meth, ..cur_request(s) },
        ),
        Msg::ReqBodyPressed => with_cur_request(
            s,
            RequestV { req_tab: RequestTab::Body, ..cur_request(s) },
        ),
        Msg::ReqParamsPressed => with_cur_request(
            s,
            RequestV { req_tab: RequestTab::Params, ..cur_request(s) },
        ),
        Msg::ReqHeadersPressed => with_cur_request(
            s,
            RequestV { req_tab: RequestTab::Headers, ..cur_request(s) },
        ),
        Msg::RespBodyPressed => with_cur_request(
            s,
            RequestV { resp_tab: ResponseTab::Body, ..cur_request(s) },
        ),
        Msg::RespHeadersPressed => with_cur_request(
            s,
            RequestV { resp_tab: ResponseTab::Headers, ..cur_request(s) },
        ),
        Msg::AddHeader => with_cur_request(
            s,
            RequestV {
                headers: cur_request(s).headers.push(
                    (Seq::<char>::empty(), Seq::<char>::empty()),
                ),
                ..cur_request(s)
            },
        ),
        Msg::RemoveHeader(i) => with_cur_request(
            s,
            RequestV { headers: cur_request(s).headers.remove(i as int), ..cur_request(s) },
        ),
        Msg::AddParam => with_cur_request(
            s,
            RequestV {
                params: cur_request(s).params.push(
                    (Seq::<char>::empty(), Seq::<char>::empty()),
                ),
                ..cur_request(s)
            },
        ),
        Msg::RemoveParam(i) => with_cur_request(
            s,
            RequestV { params: cur_request(s).params.remove(i as int), ..cur_request(s) },
        ),
        Msg::UrlChanged(url) => with_cur_request(
            s,
            RequestV { url: url@, name: url@, ..cur_request(s) },
        ),
        Msg::BodyChanged(body) => with_cur_request(
            s,
            RequestV { body: body@, ..cur_request(s) },
        ),
        Msg::HeaderChanged(i, name, value) => with_cur_request(
            s,
            RequestV {
                headers: cur_request(s).headers.update(i as int, (name@, value@)),
                ..cur_request(s)
            },
        ),
        Msg::ParamChanged(i, name, value) => with_cur_request(
            s,
            RequestV {
                params: cur_request(s).params.update(i as int, (name@, value@)),
                ..cur_request(s)
            },
        ),
        Msg::AddRequest => StateV {
            main_col: CollectionV {
                requests: s.main_col.requests.push(
                    numbered_request_v((s.main_col.requests.len() + 1) as nat),
                ),
                ..s.main_col
            },
            ..s
        },
        Msg::RemoveRequest(i) => {
            let reqs = s.main_col.requests.remove(i as int);
            let clamped = if reqs.len() > 0 && (s.main_current as int) > reqs.len() - 1 {
                (reqs.len() - 1) as usize
            } else {
                s.main_current
            };
            StateV {
                main_current: clamped,
                main_col: CollectionV { requests: reqs, ..s.main_col },
                ..s
            }
        },
        Msg::SelectRequest(i) => {
            let r = s.main_col.requests[i as int];
            let stamped = RequestV {
                response: ResponseV { request_index: i, ..r.response },
                ..r
            };
            StateV {
                main_current: i,
                main_col: CollectionV {
                    requests: s.main_col.requests.update(i as int, stamped),
                    ..s.main_col
                },
                ..s
            }
        },
        Msg::AddCollection => StateV {
            collections: s.collections.push(
                numbered_collection_v((s.collections.len() + 1) as nat),
            ),
            ..s
        },
        Msg::RemoveCollection(i) => StateV {
            collections: s.collections.remove(i as int),
            col_current: ColSelection { col: 0, req: 0 },
            ..s
        },
        Msg::AddToCollection(ci) => {
            let c = s.collections[ci as int];
            StateV {
                collections: s.collections.update(
                    ci as int,
                    CollectionV {
                        requests: c.requests.push(
                            numbered_request_v((c.requests.len() + 1) as nat),
                        ),
                        ..c
                    },
                ),
                ..s
            }
        },
        Msg::SelectFromCollection(ci, ri) => {
            let c = s.collections[ci as int];
            let r = c.requests[ri as int];
            let stamped = RequestV {
                response: ResponseV { request_index: ri, ..r.response },
                ..r
            };
            StateV {
                col_current: ColSelection { col: ci, req: ri },
                collections: s.collections.update(
                    ci as int,
                    CollectionV { requests: c.requests.update(ri as int, stamped), ..c },
                ),
                ..s
            }
        },
        Msg::RemoveFromCollection(ci, ri) => {
            let c = s.collections[ci as int];
            StateV {
                collections: s.collections.update(
                    ci as int,
                    CollectionV { requests: c.requests.remove(ri as int), ..c },
                ),
                col_current: ColSelection { col: 0, req: 0 },
                ..s
            }
        },
        Msg::ToggleCollapsed(ci) => {
            let c = s.collections[ci as int];
            StateV {
                collections: s.collections.update(
                    ci as int,
                    CollectionV { collapsed: !c.collapsed, ..c },
                ),
                ..s
            }
        },
        Msg::SwitchPage(p) => StateV { page: p, ..s },
    }
}

/// The caller's obligation for each action: the addressed request,
/// collection, header or param must exist; a removal may not empty a
/// request's last header or param row; a numbered name must fit the
/// machine's count.
pub open spec fn msg_valid(s: StateV, m: Msg) -> bool {
    match m {
        Msg::Nothing => true,
        Msg::Update => true,
        Msg::ReceivedResponse => true,
        Msg::HelpPressed => true,
        Msg::SwitchPage(_) => true,
        Msg::SendPressed => has_target(s),
        Msg::SelectedMethod(_) => has_target(s),
        Msg::MethodChanged(_) => has_target(s),
        Msg::UrlChanged(_) => has_target(s),
        Msg::BodyChanged(_) => has_target(s),
        Msg::ReqBodyPressed => has_target(s),
        Msg::ReqParamsPressed => has_target(s),
        Msg::ReqHeadersPressed => has_target(s),
        Msg::RespBodyPressed => has_target(s),
        Msg::RespHeadersPressed => has_target(s),
        Msg::AddHeader => has_target(s),
        Msg::AddParam => has_target(s),
        Msg::RemoveHeader(i) => has_target(s) && (i as int) < cur_request(s).headers.len()
            && cur_request(s).headers.len() > 1,
        Msg::RemoveParam(i) => has_target(s) && (i as int) < cur_request(s).params.len()
            && cur_request(s).params.len() > 1,
        Msg::HeaderChanged(i, _, _) => has_target(s) && (i as int) < cur_request(
            s,
        ).headers.len(),
        Msg::ParamChanged(i, _, _) => has_target(s) && (i as int) < cur_request(s).params.len(),
        Msg::AddRequest => s.main_col.requests.len() < usize::MAX,
        Msg::RemoveRequest(i) => (i as int) < s.main_col.requests.len(),
        Msg::SelectRequest(i) => (i as int) < s.main_col.requests.len(),
        Msg::AddCollection => s.collections.len() < usize::MAX,
        Msg::RemoveCollection(i) => (i as int) < s.collections.len(),
        Msg::AddToCollection(ci) => (ci as int) < s.collections.len() && s.collections[
            ci as int
        ].requests.len() < usize::MAX,
        Msg::SelectFromCollection(ci, ri) => (ci as int) < s.collections.len() && (ri as int)
            < s.collections[ci as int].requests.len(),
        Msg::RemoveFromCollection(ci, ri) => (ci as int) < s.collections.len() && (ri as int)
            < s.collections[ci as int].requests.len(),
        Msg::ToggleCollapsed(ci) => (ci as int) < s.collections.len(),
    }
}

/// Whether an action asks for a redraw: every action does, except the
/// explicit no-op.
pub open spec fn redraw_of(m: Msg) -> bool {
    !(m is Nothing)
}

/// The send snapshot taken of a request: its url with the params merged
/// into the query string, and the correlation index read verbatim from its
/// response slot.
pub open spec fn payload_v(r: RequestV) -> SendPayloadV {
    SendPayloadV {
        url: merged_url(r.url, r.params),
        method: r.method,
        body: r.body,
        headers: r.headers,
        index: r.response.request_index,
    }
}

/// The effect of one action: pressing send hands the executor a snapshot
/// of the currently addressed request; asking for help opens the project
/// page; everything else asks for nothing.
pub open spec fn effect_v(s: StateV, m: Msg) -> EffectV {
    match m {
        Msg::SendPressed => EffectV::Send(payload_v(cur_request(s))),
        Msg::HelpPressed => EffectV::OpenLink("https://github.com/hiro-codes/bolt"@),
        _ => EffectV::Nothing,
    }
}

fn set_method(bctx: &mut BoltContext, meth: Method)
    requires
        has_target(old(bctx)@),
    ensures
        final(bctx)@ == with_cur_request(
            old(bctx)@,
            (RequestV { method: meth, ..cur_request(old(bctx)@) }),
        ),
{
    if bctx.page == Page::Home {
        let current = bctx.main_current;
        bctx.main_col.requests[current].method = meth;
    } else {
        let ci = bctx.col_current.col;
        let ri = bctx.col_current.req;
        bctx.collections[ci].requests[ri].method = meth;
    }
    proof {
        assert(bctx@ =~~= with_cur_request(
            old(bctx)@,
            (RequestV { method: meth, ..cur_request(old(bctx)@) }),
        ));
    }
}

fn set_url_and_name(bctx: &mut BoltContext, url: String)
    requires
        has_target(old(bctx)@),
    ensures
        final(bctx)@ == with_cur_request(
            old(bctx)@,
            (RequestV { url: url@, name: url@, ..cur_request(old(bctx)@) }),
        ),
{
    if bctx.page == Page::Home {
        let current = bctx.main_current;
        bctx.main_col.requests[current].url = url.clone();
        bctx.main_col.requests[current].name = url;
    } else {
        let ci = bctx.col_current.col;
        let ri = bctx.col_current.req;
        bctx.collections[ci].requests[ri].url = url.clone();
        bctx.collections[ci].requests[ri].name = url;
    }
    proof {
        assert(bctx@ =~~= with_cur_request(
            old(bctx)@,
            (RequestV { url: url@, name: url@, ..cur_request(old(bctx)@) }),
        ));
    }
}

fn set_body(bctx: &mut BoltContext, body: String)
    requires
        has_target(old(bctx)@),
    ensures
        final(bctx)@ == with_cur_request(
            old(bctx)@,
            (RequestV { body: body@, ..cur_request(old(bctx)@) }),
        ),
{
    if bctx.page == Page::Home {
        let current = bctx.main_current;
        bctx.main_col.requests[current].body = body;
    } else {
        let ci = bctx.col_current.col;
        let ri = bctx.col_current.req;
        bctx.collections[ci].requests[ri].body = body;
    }
    proof {
        assert(bctx@ =~~= with_cur_request(
            old(bctx)@,
            (RequestV { body: body@, ..cur_request(old(bctx)@) }),
        ));
    }
}

fn set_req_tab(bctx: &mut BoltContext, t: RequestTab)
    requires
        has_target(old(bctx)@),
    ensures
        final(bctx)@ == with_cur_request(
            old(bctx)@,
            (RequestV { req_tab: t, ..cur_request(old(bctx)@) }),
        ),
{
    if bctx.page == Page::Home {
        let current = bctx.main_current;
        bctx.main_col.requests[current].req_tab = t;
    } else {
        let ci = bctx.col_current.col;
        let ri = bctx.col_current.req;
        bctx.collections[ci].requests[ri].req_tab = t;
    }
    proof {
        assert(bctx@ =~~= with_cur_request(
            old(bctx)@,
            (RequestV { req_tab: t, ..cur_request(old(bctx)@) }),
        ));
    }
}

fn set_resp_tab(bctx: &mut BoltContext, t: ResponseTab)
    requires
        has_target(old(bctx)@),
    ensures
        final(bctx)@ == with_cur_request(
            old(bctx)@,
            (RequestV { resp_tab: t, ..cur_request(old(bctx)@) }),
        ),
{
    if bctx.page == Page::Home {
        let current = bctx.main_current;
        bctx.main_col.requests[current].resp_tab = t;
    } else {
        let ci = bctx.col_current.col;
        let ri = bctx.col_current.req;
        bctx.collections[ci].requests[ri].resp_tab = t;
    }
    proof {
        assert(bctx@ =~~= with_cur_request(
            old(bctx)@,
            (RequestV { resp_tab: t, ..cur_request(old(bctx)@) }),
        ));
    }
}

fn push_blank_header(bctx: &mut BoltContext)
    requires
        has_target(old(bctx)@),
    ensures
        final(bctx)@ == with_cur_request(
            old(bctx)@,
            (RequestV {
                headers: cur_request(old(bctx)@).headers.push(
                    (Seq::<char>::empty(), Seq::<char>::empty()),
                ),
                ..cur_request(old(bctx)@)
            }),
        ),
{
    if bctx.page == Page::Home {
        let current = bctx.main_current;
        bctx.main_col.requests[current].headers.push((String::new(), String::new()));
    } else {
        let ci = bctx.col_current.col;
        let ri = bctx.col_current.req;
        bctx.collections[ci].requests[ri].headers.push((String::new(), String::new()));
    }
    proof {
        assert(bctx@ =~~= with_cur_request(
            old(bctx)@,
            (RequestV {
                headers: cur_request(old(bctx)@).headers.push(
                    (Seq::<char>::empty(), Seq::<char>::empty()),
                ),
                ..cur_request(old(bctx)@)
            }),
        ));
    }
}

fn push_blank_param(bctx: &mut BoltContext)
    requires
        has_target(old(bctx)@),
    ensures
        final(bctx)@ == with_cur_request(
            old(bctx)@,
            (RequestV {
                params: cur_request(old(bctx)@).params.push(
                    (Seq::<char>::empty(), Seq::<char>::empty()),
                ),
                ..cur_request(old(bctx)@)
            }),
        ),
{
    if bctx.page == Page::Home {
        let current = bctx.main_current;
        bctx.main_col.requests[current].params.push((String::new(), String::new()));
    } else {
        let ci = bctx.col_current.col;
        let ri = bctx.col_current.req;
        bctx.collections[ci].requests[ri].params.push((String::new(), String::new()));
    }
    proof {
        assert(bctx@ =~~= with_cur_request(
            old(bctx)@,
            (RequestV {
                params: cur_request(old(bctx)@).params.push(
                    (Seq::<char>::empty(), Seq::<char>::empty()),
                ),
                ..cur_request(old(bctx)@)
            }),
        ));
    }
}

fn remove_header_at(bctx: &mut BoltContext, i: usize)
    requires
        has_target(old(bctx)@),
        (i as int) < cur_request(old(bctx)@).headers.len(),
    ensures
        final(bctx)@ == with_cur_request(
            old(bctx)@,
            (RequestV {
                headers: cur_request(old(bctx)@).headers.remove(i as int),
                ..cur_request(old(bctx)@)
            }),
        ),
{
    if bctx.page == Page::Home {
        let current = bctx.main_current;
        let _removed = bctx.main_col.requests[current].headers.remove(i);
    } else {
        let ci = bctx.col_current.col;
        let ri = bctx.col_current.req;
        let _removed = bctx.collections[ci].requests[ri].headers.remove(i);
    }
    proof {
        assert(bctx@ =~~= with_cur_request(
            old(bctx)@,
            (RequestV {
                headers: cur_request(old(bctx)@).headers.remove(i as int),
                ..cur_request(old(bctx)@)
            }),
        ));
    }
}

fn remove_param_at(bctx: &mut BoltContext, i: usize)
    requires
        has_target(old(bctx)@),
        (i as int) < cur_request(old(bctx)@).params.len(),
    ensures
        final(bctx)@ == with_cur_request(
            old(bctx)@,
            (RequestV {
                params: cur_request(old(bctx)@).params.remove(i as int),
                ..cur_request(old(bctx)@)
            }),
        ),
{
    if bctx.page == Page::Home {
        let current = bctx.main_current;
        let _removed = bctx.main_col.requests[current].params.remove(i);
    } else {
        let ci = bctx.col_current.col;
        let ri = bctx.col_current.req;
        let _removed = bctx.collections[ci].requests[ri].params.remove(i);
    }
    proof {
        assert(bctx@ =~~= with_cur_request(
            old(bctx)@,
            (RequestV {
                params: cur_request(old(bctx)@).params.remove(i as int),
                ..cur_request(old(bctx)@)
            }),
        ));
    }
}

fn set_header_at(bctx: &mut BoltContext, i: usize, name: String, value: String)
    requires
        has_target(old(bctx)@),
        (i as int) < cur_request(old(bctx)@).headers.len(),
    ensures
        final(bctx)@ == with_cur_request(
            old(bctx)@,
            (RequestV {
                headers: cur_request(old(bctx)@).headers.update(i as int, (name@, value@)),
                ..cur_request(old(bctx)@)
            }),
        ),
{
    if bctx.page == Page::Home {
        let current = bctx.main_current;
        bctx.main_col.requests[current].headers[i] = (name, value);
    } else {
        let ci = bctx.col_current.col;
        let ri = bctx.col_current.req;
        bctx.collections[ci].requests[ri].headers[i] = (name, value);
    }
    proof {
        assert(bctx@ =~~= with_cur_request(
            old(bctx)@,
            (RequestV {
                headers: cur_request(old(bctx)@).headers.update(i as int, (name@, value@)),
                ..cur_request(old(bctx)@)
            }),
        ));
    }
}

fn set_param_at(bctx: &mut BoltContext, i: usize, name: String, value: String)
    requires
        has_target(old(bctx)@),
        (i as int) < cur_request(old(bctx)@).params.len(),
    ensures
        final(bctx)@ == with_cur_request(
            old(bctx)@,
            (RequestV {
                params: cur_request(old(bctx)@).params.update(i as int, (name@, value@)),
                ..cur_request(old(bctx)@)
            }),
        ),
{
    if bctx.page == Page::Home {
        let current = bctx.main_current;
        bctx.main_col.requests[current].params[i] = (name, value);
    } else {
        let ci = bctx.col_current.col;
        let ri = bctx.col_current.req;
        bctx.collections[ci].requests[ri].params[i] = (name, value);
    }
    proof {
        assert(bctx@ =~~= with_cur_request(
            old(bctx)@,
            (RequestV {
                params: cur_request(old(bctx)@).params.update(i as int, (name@, value@)),
                ..cur_request(old(bctx)@)
            }),
        ));
    }
}

fn clone_pairs(v: &Vec<(String, String)>) -> (r: Vec<(String, String)>)
    ensures
        pairs_view(r@) == pairs_view(v@),
{
    let mut r: Vec<(String, String)> = Vec::new();
    proof {
        assert(pairs_view(r@) =~= pairs_view(v@).take(0));
    }
    let mut i: usize = 0;
    while i < v.len()
        invariant
            i <= v.len(),
            pairs_view(r@) == pairs_view(v@).take(i as int),
        decreases v.len() - i,
    {
        let ghost r_old = r@;
        let k = v[i].0.clone();
        let w = v[i].1.clone();
        let ghost kv = k@;
        let ghost wv = w@;
        r.push((k, w));
        proof {
            assert(pairs_view(r_old).len() == r_old.len());
            assert(r_old.len() == i);
            assert(r@.len() == i + 1);
            assert(kv == v@[i as int].0@);
            assert(wv == v@[i as int].1@);
            assert(r@[i as int].0@ == kv);
            assert(r@[i as int].1@ == wv);
            assert(forall|j: int| 0 <= j < i ==> r@[j] == r_old[j]);
            assert forall|j: int| 0 <= j < r@.len() implies pairs_view(r@)[j] == pairs_view(
                v@,
            ).take(i + 1)[j] by {
                if j < i {
                    assert(pairs_view(r_old)[j] == pairs_view(v@).take(i as int)[j]);
                }
            }
            assert(pairs_view(r@) =~= pairs_view(v@).take(i + 1));
        }
        i = i + 1;
    }
    proof {
        assert(pairs_view(v@).take(v@.len() as int) =~= pairs_view(v@));
    }
    r
}

/// The snapshot of one request, as handed to the executor on send.
fn snapshot_payload(req: &Request) -> (p: SendPayload)
    ensures
        p@ == payload_v(req@),
{
    let p = SendPayload {
        url: build_merged_url(&req.url, &req.params),
        method: req.method,
        body: req.body.clone(),
        headers: clone_pairs(&req.headers),
        index: req.response.request_index,
    };
    proof {
        assert(p@ =~~= payload_v(req@));
    }
    p
}

fn do_add_request(bctx: &mut BoltContext)
    requires
        old(bctx)@.main_col.requests.len() < usize::MAX,
    ensures
        final(bctx)@ == (StateV {
            main_col: CollectionV {
                requests: old(bctx)@.main_col.requests.push(
                    numbered_request_v((old(bctx)@.main_col.requests.len() + 1) as nat),
                ),
                ..old(bctx)@.main_col
            },
            ..old(bctx)@
        }),
{
    let n = bctx.main_col.requests.len();
    let mut r = Request::new();
    r.name = numbered_name("New Request ", (n as u64) + 1);
    bctx.main_col.requests.push(r);
    proof {
        assert(bctx@ =~~= (StateV {
            main_col: CollectionV {
                requests: old(bctx)@.main_col.requests.push(
                    numbered_request_v((old(bctx)@.main_col.requests.len() + 1) as nat),
                ),
                ..old(bctx)@.main_col
            },
            ..old(bctx)@
        }));
    }
}

fn do_remove_request(bctx: &mut BoltContext, i: usize)
    requires
        (i as int) < old(bctx)@.main_col.requests.len(),
    ensures
        final(bctx)@ == (StateV {
            main_current: (if old(bctx)@.main_col.requests.remove(i as int).len() > 0 && (old(
                bctx,
            )@.main_current as int) > old(bctx)@.main_col.requests.remove(i as int).len() - 1 {
                (old(bctx)@.main_col.requests.remove(i as int).len() - 1) as usize
            } else {
                old(bctx)@.main_current
            }),
            main_col: CollectionV {
                requests: old(bctx)@.main_col.requests.remove(i as int),
                ..old(bctx)@.main_col
            },
            ..old(bctx)@
        }),
{
    let _removed = bctx.main_col.requests.remove(i);
    if bctx.main_col.requests.len() > 0 && bctx.main_current > bctx.main_col.requests.len() - 1 {
        bctx.main_current = bctx.main_col.requests.len() - 1;
    }
    proof {
        assert(bctx@.main_col =~~= (CollectionV {
            requests: old(bctx)@.main_col.requests.remove(i as int),
            ..old(bctx)@.main_col
        }));
        assert(bctx@ =~~= (StateV {
            main_current: bctx@.main_current,
            main_col: CollectionV {
                requests: old(bctx)@.main_col.requests.remove(i as int),
                ..old(bctx)@.main_col
            },
            ..old(bctx)@
        }));
    }
}

fn do_select_request(bctx: &mut BoltContext, i: usize)
    requires
        (i as int) < old(bctx)@.main_col.requests.len(),
    ensures
        final(bctx)@ == (StateV {
            main_current: i,
            main_col: CollectionV {
                requests: old(bctx)@.main_col.requests.update(
                    i as int,
                    (RequestV {
                        response: ResponseV {
                            request_index: i,
                            ..old(bctx)@.main_col.requests[i as int].response
                        },
                        ..old(bctx)@.main_col.requests[i as int]
                    }),
                ),
                ..old(bctx)@.main_col
            },
            ..old(bctx)@
        }),
{
    bctx.main_current = i;
    bctx.main_col.requests[i].response.request_index = i;
    proof {
        assert(bctx@ =~~= (StateV {
            main_current: i,
            main_col: CollectionV {
                requests: old(bctx)@.main_col.requests.update(
                    i as int,
                    (RequestV {
                        response: ResponseV {
                            request_index: i,
                            ..old(bctx)@.main_col.requests[i as int].response
                        },
                        ..old(bctx)@.main_col.requests[i as int]
                    }),
                ),
                ..old(bctx)@.main_col
            },
            ..old(bctx)@
        }));
    }
}

fn do_add_collection(bctx: &mut BoltContext)
    requires
        old(bctx)@.collections.len() < usize::MAX,
    ensures
        final(bctx)@ == (StateV {
            collections: old(bctx)@.collections.push(
                numbered_collection_v((old(bctx)@.collections.len() + 1) as nat),
            ),
            ..old(bctx)@
        }),
{
    let n = bctx.collections.len();
    let mut c = Collection::new();
    c.name = numbered_name("New Collection ", (n as u64) + 1);
    bctx.collections.push(c);
    proof {
        assert(bctx@ =~~= (StateV {
            collections: old(bctx)@.collections.push(
                numbered_collection_v((old(bctx)@.collections.len() + 1) as nat),
            ),
            ..old(bctx)@
        }));
    }
}

fn do_remove_collection(bctx: &mut BoltContext, i: usize)
    requires
        (i as int) < old(bctx)@.collections.len(),
    ensures
        final(bctx)@ == (StateV {
            collections: old(bctx)@.collections.remove(i as int),
            col_current: (ColSelection { col: 0, req: 0 }),
            ..old(bctx)@
        }),
{
    let _removed = bctx.collections.remove(i);
    bctx.col_current = ColSelection { col: 0, req: 0 };
    proof {
        assert(bctx@ =~~= (StateV {
            collections: old(bctx)@.collections.remove(i as int),
            col_current: (ColSelection { col: 0, req: 0 }),
            ..old(bctx)@
        }));
    }
}

fn do_add_to_collection(bctx: &mut BoltContext, ci: usize)
    requires
        (ci as int) < old(bctx)@.collections.len(),
        old(bctx)@.collections[ci as int].requests.len() < usize::MAX,
    ensures
        final(bctx)@ == (StateV {
            collections: old(bctx)@.collections.update(
                ci as int,
                (CollectionV {
                    requests: old(bctx)@.collections[ci as int].requests.push(
                        numbered_request_v(
                            (old(bctx)@.collections[ci as int].requests.len() + 1) as nat,
                        ),
                    ),
                    ..old(bctx)@.collections[ci as int]
                }),
            ),
            ..old(bctx)@
        }),
{
    let n = bctx.collections[ci].requests.len();
    let mut r = Request::new();
    r.name = numbered_name("New Request ", (n as u64) + 1);
    bctx.collections[ci].requests.push(r);
    proof {
        assert(bctx@ =~~= (StateV {
            collections: old(bctx)@.collections.update(
                ci as int,
                (CollectionV {
                    requests: old(bctx)@.collections[ci as int].requests.push(
                        numbered_request_v(
                            (old(bctx)@.collections[ci as int].requests.len() + 1) as nat,
                        ),
                    ),
                    ..old(bctx)@.collections[ci as int]
                }),
            ),
            ..old(bctx)@
        }));
    }
}

fn do_select_from_collection(bctx: &mut BoltContext, ci: usize, ri: usize)
    requires
        (ci as int) < old(bctx)@.collections.len(),
        (ri as int) < old(bctx)@.collections[ci as int].requests.len(),
    ensures
        final(bctx)@ == (StateV {
            col_current: (ColSelection { col: ci, req: ri }),
            collections: old(bctx)@.collections.update(
                ci as int,
                (CollectionV {
                    requests: old(bctx)@.collections[ci as int].requests.update(
                        ri as int,
                        (RequestV {
                            response: ResponseV {
                                request_index: ri,
                                ..old(bctx)@.collections[ci as int].requests[ri as int].response
                            },
                            ..old(bctx)@.collections[ci as int].requests[ri as int]
                        }),
                    ),
                    ..old(bctx)@.collections[ci as int]
                }),
            ),
            ..old(bctx)@
        }),
{
    bctx.col_current = ColSelection { col: ci, req: ri };
    bctx.collections[ci].requests[ri].response.request_index = ri;
    proof {
        assert(bctx@ =~~= (StateV {
            col_current: (ColSelection { col: ci, req: ri }),
            collections: old(bctx)@.collections.update(
                ci as int,
                (CollectionV {
                    requests: old(bctx)@.collections[ci as int].requests.update(
                        ri as int,
                        (RequestV {
                            response: ResponseV {
                                request_index: ri,
                                ..old(bctx)@.collections[ci as int].requests[ri as int].response
                            },
                            ..old(bctx)@.collections[ci as int].requests[ri as int]
                        }),
                    ),
                    ..old(bctx)@.collections[ci as int]
                }),
            ),
            ..old(bctx)@
        }));
    }
}

fn do_remove_from_collection(bctx: &mut BoltContext, ci: usize, ri: usize)
    requires
        (ci as int) < old(bctx)@.collections.len(),
        (ri as int) < old(bctx)@.collections[ci as int].requests.len(),
    ensures
        final(bctx)@ == (StateV {
            collections: old(bctx)@.collections.update(
                ci as int,
                (CollectionV {
                    requests: old(bctx)@.collections[ci as int].requests.remove(ri as int),
                    ..old(bctx)@.collections[ci as int]
                }),
            ),
            col_current: (ColSelection { col: 0, req: 0 }),
            ..old(bctx)@
        }),
{
    let _removed = bctx.collections[ci].requests.remove(ri);
    bctx.col_current = ColSelection { col: 0, req: 0 };
    proof {
        assert(bctx@ =~~= (StateV {
            collections: old(bctx)@.collections.update(
                ci as int,
                (CollectionV {
                    requests: old(bctx)@.collections[ci as int].requests.remove(ri as int),
                    ..old(bctx)@.collections[ci as int]
                }),
            ),
            col_current: (ColSelection { col: 0, req: 0 }),
            ..old(bctx)@
        }));
    }
}

fn do_toggle_collapsed(bctx: &mut BoltContext, ci: usize)
    requires
        (ci as int) < old(bctx)@.collections.len(),
    ensures
        final(bctx)@ == (StateV {
            collections: old(bctx)@.collections.update(
                ci as int,
                (CollectionV {
                    collapsed: !old(bctx)@.collections[ci as int].collapsed,
                    ..old(bctx)@.collections[ci as int]
                }),
            ),
            ..old(bctx)@
        }),
{
    let was = bctx.collections[ci].collapsed;
    bctx.collections[ci].collapsed = !was;
    proof {
        assert(bctx@ =~~= (StateV {
            collections: old(bctx)@.collections.update(
                ci as int,
                (CollectionV {
                    collapsed: !old(bctx)@.collections[ci as int].collapsed,
                    ..old(bctx)@.collections[ci as int]
                }),
            ),
            ..old(bctx)@
        }));
    }
}

fn do_switch_page(bctx: &mut BoltContext, p: Page)
    ensures
        final(bctx)@ == (StateV { page: p, ..old(bctx)@ }),
{
    bctx.page = p;
    proof {
        assert(bctx@ =~~= (StateV { page: p, ..old(bctx)@ }));
    }
}

/// Applies one action to the state. Returns whether the view must be
/// redrawn, and the effect the surrounding layer must perform: the send
/// snapshot to dispatch, or a link to open.
#[verifier::rlimit(100)]
pub fn process(bctx: &mut BoltContext, msg: Msg) -> (r: (bool, Effect))
    requires
        msg_valid(old(bctx)@, msg),
    ensures
        final(bctx)@ == step(old(bctx)@, msg),
        r.0 == redraw_of(msg),
        r.1@ == effect_v(old(bctx)@, msg),
{
    let ghost s0 = bctx@;
    match msg {
        Msg::Nothing => (false, Effect::Nothing),
        Msg::Update => (true, Effect::Nothing),
        Msg::ReceivedResponse => (true, Effect::Nothing),
        Msg::HelpPressed => {
            (true, Effect::OpenLink("https://github.com/hiro-codes/bolt".to_owned()))
        },
        Msg::SendPressed => {
            let p = if bctx.page == Page::Home {
                snapshot_payload(&bctx.main_col.requests[bctx.main_current])
            } else {
                let ci = bctx.col_current.col;
                let ri = bctx.col_current.req;
                snapshot_payload(&bctx.collections[ci].requests[ri])
            };
            (true, Effect::Send(p))
        },
        Msg::SelectedMethod(meth) => {
            set_method(bctx, meth);
            (true, Effect::Nothing)
        },
        Msg::MethodChanged(meth) => {
            set_method(bctx, meth);
            (true, Effect::Nothing)
        },
        Msg::ReqBodyPressed => {
            set_req_tab(bctx, RequestTab::Body);
            (true, Effect::Nothing)
        },
        Msg::ReqParamsPressed => {
            set_req_tab(bctx, RequestTab::Params);
            (true, Effect::Nothing)
        },
        Msg::ReqHeadersPressed => {
            set_req_tab(bctx, RequestTab::Headers);
            (true, Effect::Nothing)
        },
        Msg::RespBodyPressed => {
            set_resp_tab(bctx, ResponseTab::Body);
            (true, Effect::Nothing)
        },
        Msg::RespHeadersPressed => {
            set_resp_tab(bctx, ResponseTab::Headers);
            (true, Effect::Nothing)
        },
        Msg::AddHeader => {
            push_blank_header(bctx);
            (true, Effect::Nothing)
        },
        Msg::RemoveHeader(i) => {
            remove_header_at(bctx, i);
            (true, Effect::Nothing)
        },
        Msg::AddParam => {
            push_blank_param(bctx);
            (true, Effect::Nothing)
        },
        Msg::RemoveParam(i) => {
            remove_param_at(bctx, i);
            (true, Effect::Nothing)
        },
        Msg::UrlChanged(url) => {
            set_url_and_name(bctx, url);
            (true, Effect::Nothing)
        },
        Msg::BodyChanged(body) => {
            set_body(bctx, body);
            (true, Effect::Nothing)
        },
        Msg::HeaderChanged(i, name, value) => {
            set_header_at(bctx, i, name, value);
            (true, Effect::Nothing)
        },
        Msg::ParamChanged(i, name, value) => {
            set_param_at(bctx, i, name, value);
            (true, Effect::Nothing)
        },
        Msg::AddRequest => {
            do_add_request(bctx);
            (true, Effect::Nothing)
        },
        Msg::RemoveRequest(i) => {
            do_remove_request(bctx, i);
            (true, Effect::Nothing)
        },
        Msg::SelectRequest(i) => {
            do_select_request(bctx, i);
            (true, Effect::Nothing)
        },
        Msg::AddCollection => {
            do_add_collection(bctx);
            (true, Effect::Nothing)
        },
        Msg::RemoveCollection(i) => {
            do_remove_collection(bctx, i);
            (true, Effect::Nothing)
        },
        Msg::AddToCollection(ci) => {
            do_add_to_collection(bctx, ci);
            (true, Effect::Nothing)
        },
        Msg::SelectFromCollection(ci, ri) => {
            do_select_from_collection(bctx, ci, ri);
            (true, Effect::Nothing)
        },
        Msg::RemoveFromCollection(ci, ri) => {
            do_remove_from_collection(bctx, ci, ri);
            (true, Effect::Nothing)
        },
        Msg::ToggleCollapsed(ci) => {
            do_toggle_collapsed(bctx, ci);
            (true, Effect::Nothing)
        },
        Msg::SwitchPage(p) => {
            do_switch_page(bctx, p);
            (true, Effect::Nothing)
        },
    }
}

/// The response as stored: a JSON body is first put through the external
/// display transform; a text body is stored as it came.
pub open spec fn stored_response_v(r: ResponseV) -> ResponseV {
    if r.response_type == ResponseType::JSON {
        ResponseV { body: render_of(r.body), ..r }
    } else {
        r
    }
}

/// The state after a response arrives: the *currently* addressed request's
/// response slot is overwritten; the correlation index the payload carries
/// is stored for display and plays no part in the addressing.
pub open spec fn received_step(s: StateV, r: ResponseV) -> StateV {
    with_cur_request(s, RequestV { response: stored_response_v(r), ..cur_request(s) })
}

/// Writes an arriving response into the request the current navigation
/// state addresses, transforming a JSON body for display first. Always
/// asks for a redraw.
pub fn receive_response(bctx: &mut BoltContext, response: Response) -> (redraw: bool)
    requires
        has_target(old(bctx)@),
    ensures
        final(bctx)@ == received_step(old(bctx)@, response@),
        redraw == true,
{
    let ghost r0 = response@;
    let mut response = response;
    if response.response_type == ResponseType::JSON {
        response.body = render_json(&response.body);
    }
    proof {
        assert(response@ =~~= stored_response_v(r0));
    }
    if bctx.page == Page::Home {
        let current = bctx.main_current;
        bctx.main_col.requests[current].response = response;
    } else {
        let ci = bctx.col_current.col;
        let ri = bctx.col_current.req;
        bctx.collections[ci].requests[ri].response = response;
    }
    proof {
        assert(bctx@ =~~= received_step(old(bctx)@, r0));
    }
    true
}

/// The request the current navigation state addresses, for display.
pub fn selected_request(bctx: &BoltContext) -> (r: &Request)
    requires
        has_target(bctx@),
    ensures
        r@ == cur_request(bctx@),
{
    if bctx.page == Page::Home {
        &bctx.main_col.requests[bctx.main_current]
    } else {
        &bctx.collections[bctx.col_current.col].requests[bctx.col_current.req]
    }
}

} // verus!
