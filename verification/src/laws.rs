//! The library's stated laws, proved against the reducer's specification.

use vstd::prelude::*;
use crate::codec::bounded_state;
use crate::codec::deser_spec;
use crate::codec::lemma_codec_round_trip;
use crate::codec::ser_state;
use crate::model::ColSelection;
use crate::model::StateV;
use crate::model::request_wf;
use crate::model::state_wf;
use crate::msg::Msg;
use crate::msg::EffectV;
use crate::reducer::cur_request;
use crate::reducer::effect_v;
use crate::reducer::has_target;
use crate::reducer::msg_valid;
use crate::reducer::step;
use crate::reducer::with_cur_request;

verus! {

/// Replacing the addressed request with a well-formed one keeps the whole
/// state well formed: the selections and every other request are untouched.
proof fn lemma_with_cur_request_wf(s: StateV, r: crate::model::RequestV)
    requires
        state_wf(s),
        has_target(s),
        request_wf(r),
    ensures
        state_wf(with_cur_request(s, r)),
{
    let s2 = with_cur_request(s, r);
    assert forall|i: int| 0 <= i < s2.main_col.requests.len() implies request_wf(
        #[trigger] s2.main_col.requests[i],
    ) by {
        assert(request_wf(s.main_col.requests[i]));
    }
    assert forall|i: int| 0 <= i < s2.collections.len() implies crate::model::collection_wf(
        #[trigger] s2.collections[i],
    ) by {
        assert(crate::model::collection_wf(s.collections[i]));
        assert forall|j: int| 0 <= j < s2.collections[i].requests.len() implies request_wf(
            #[trigger] s2.collections[i].requests[j],
        ) by {
            assert(request_wf(s.collections[i].requests[j]));
        }
    }
}

/// Every valid action keeps the state well formed: every request
/// everywhere keeps at least one header pair and one param pair, and the
/// working-collection selection stays in bounds whenever that collection
/// is non-empty.
#[verifier::rlimit(100)]
#[verifier::spinoff_prover]
pub proof fn lemma_step_preserves_wf(s: StateV, m: Msg)
    requires
        state_wf(s),
        msg_valid(s, m),
    ensures
        state_wf(step(s, m)),
{
    let s2 = step(s, m);
    match m {
        Msg::SelectedMethod(meth) => {
            assert(request_wf(cur_request(s)));
            lemma_with_cur_request_wf(
                s,
                (crate::model::RequestV { method: meth, ..cur_request(s) }),
            );
        },
        Msg::MethodChanged(meth) => {
            assert(request_wf(cur_request(s)));
            lemma_with_cur_request_wf(
                s,
                (crate::model::RequestV { method: meth, ..cur_request(s) }),
            );
        },
        Msg::UrlChanged(url) => {
            assert(request_wf(cur_request(s)));
            lemma_with_cur_request_wf(
                s,
                (crate::model::RequestV { url: url@, name: url@, ..cur_request(s) }),
            );
        },
        Msg::BodyChanged(body) => {
            assert(request_wf(cur_request(s)));
            lemma_with_cur_request_wf(
                s,
                (crate::model::RequestV { body: body@, ..cur_request(s) }),
            );
        },
        Msg::ReqBodyPressed => {
            assert(request_wf(cur_request(s)));
            lemma_with_cur_request_wf(
                s,
                (crate::model::RequestV {
                    req_tab: crate::model::RequestTab::Body,
                    ..cur_request(s)
                }),
            );
        },
        Msg::ReqParamsPressed => {
            assert(request_wf(cur_request(s)));
            lemma_with_cur_request_wf(
                s,
                (crate::model::RequestV {
                    req_tab: crate::model::RequestTab::Params,
                    ..cur_request(s)
                }),
            );
        },
        Msg::ReqHeadersPressed => {
            assert(request_wf(cur_request(s)));
            lemma_with_cur_request_wf(
                s,
                (crate::model::RequestV {
                    req_tab: crate::model::RequestTab::Headers,
                    ..cur_request(s)
                }),
            );
        },
        Msg::RespBodyPressed => {
            assert(request_wf(cur_request(s)));
            lemma_with_cur_request_wf(
                s,
                (crate::model::RequestV {
                    resp_tab: crate::model::ResponseTab::Body,
                    ..cur_request(s)
                }),
            );
        },
        Msg::RespHeadersPressed => {
            assert(request_wf(cur_request(s)));
            lemma_with_cur_request_wf(
                s,
                (crate::model::RequestV {
                    resp_tab: crate::model::ResponseTab::Headers,
                    ..cur_request(s)
                }),
            );
        },
        Msg::AddHeader => {
            assert(request_wf(cur_request(s)));
            lemma_with_cur_request_wf(
                s,
                (crate::model::RequestV {
                    headers: cur_request(s).headers.push(
                        (Seq::<char>::empty(), Seq::<char>::empty()),
                    ),
                    ..cur_request(s)
                }),
            );
        },
        Msg::AddParam => {
            assert(request_wf(cur_request(s)));
            lemma_with_cur_request_wf(
                s,
                (crate::model::RequestV {
                    params: cur_request(s).params.push(
                        (Seq::<char>::empty(), Seq::<char>::empty()),
                    ),
                    ..cur_request(s)
                }),
            );
        },
        Msg::RemoveHeader(i) => {
            assert(request_wf(cur_request(s)));
            lemma_with_cur_request_wf(
                s,
                (crate::model::RequestV {
                    headers: cur_request(s).headers.remove(i as int),
                    ..cur_request(s)
                }),
            );
        },
        Msg::RemoveParam(i) => {
            assert(request_wf(cur_request(s)));
            lemma_with_cur_request_wf(
                s,
                (crate::model::RequestV {
                    params: cur_request(s).params.remove(i as int),
                    ..cur_request(s)
                }),
            );
        },
        Msg::HeaderChanged(i, name, value) => {
            assert(request_wf(cur_request(s)));
            lemma_with_cur_request_wf(
                s,
                (crate::model::RequestV {
                    headers: cur_request(s).headers.update(i as int, (name@, value@)),
                    ..cur_request(s)
                }),
            );
        },
        Msg::ParamChanged(i, name, value) => {
            assert(request_wf(cur_request(s)));
            lemma_with_cur_request_wf(
                s,
                (crate::model::RequestV {
                    params: cur_request(s).params.update(i as int, (name@, value@)),
                    ..cur_request(s)
                }),
            );
        },
        Msg::AddRequest => {
            assert(request_wf(crate::reducer::numbered_request_v(
                (s.main_col.requests.len() + 1) as nat,
            )));
            assert forall|i: int| 0 <= i < s2.main_col.requests.len() implies request_wf(
                #[trigger] s2.main_col.requests[i],
            ) by {
                if i < s.main_col.requests.len() {
                    assert(request_wf(s.main_col.requests[i]));
                }
            }
        },
        Msg::RemoveRequest(_) => {
            assert forall|i: int| 0 <= i < s2.main_col.requests.len() implies request_wf(
                #[trigger] s2.main_col.requests[i],
            ) by {
                assert(request_wf(s.main_col.requests[i]) || request_wf(
                    s.main_col.requests[i + 1],
                ));
            }
        },
        Msg::SelectRequest(_) => {
            assert forall|i: int| 0 <= i < s2.main_col.requests.len() implies request_wf(
                #[trigger] s2.main_col.requests[i],
            ) by {
                assert(request_wf(s.main_col.requests[i]));
            }
        },
        Msg::AddCollection => {
            assert forall|i: int| 0 <= i < s2.collections.len() implies
                crate::model::collection_wf(#[trigger] s2.collections[i]) by {
                if i < s.collections.len() {
                    assert(crate::model::collection_wf(s.collections[i]));
                }
            }
        },
        Msg::RemoveCollection(_) => {
            assert forall|i: int| 0 <= i < s2.collections.len() implies
                crate::model::collection_wf(#[trigger] s2.collections[i]) by {
                assert(crate::model::collection_wf(s.collections[i]) || crate::model::collection_wf(
                    s.collections[i + 1],
                ));
            }
        },
        Msg::AddToCollection(ci) => {
            assert forall|i: int| 0 <= i < s2.collections.len() implies
                crate::model::collection_wf(#[trigger] s2.collections[i]) by {
                assert(crate::model::collection_wf(s.collections[i]));
                if i == ci {
                    let c2 = s2.collections[i];
                    assert forall|j: int| 0 <= j < c2.requests.len() implies request_wf(
                        #[trigger] c2.requests[j],
                    ) by {
                        if j < s.collections[i].requests.len() {
                            assert(request_wf(s.collections[i].requests[j]));
                        }
                    }
                }
            }
        },
        Msg::SelectFromCollection(ci, ri) => {
            assert forall|i: int| 0 <= i < s2.collections.len() implies
                crate::model::collection_wf(#[trigger] s2.collections[i]) by {
                assert(crate::model::collection_wf(s.collections[i]));
                if i == ci {
                    let c2 = s2.collections[i];
                    assert forall|j: int| 0 <= j < c2.requests.len() implies request_wf(
                        #[trigger] c2.requests[j],
                    ) by {
                        assert(request_wf(s.collections[i].requests[j]));
                    }
                }
            }
        },
        Msg::RemoveFromCollection(ci, ri) => {
            assert forall|i: int| 0 <= i < s2.collections.len() implies
                crate::model::collection_wf(#[trigger] s2.collections[i]) by {
                assert(crate::model::collection_wf(s.collections[i]));
                if i == ci {
                    let c2 = s2.collections[i];
                    assert forall|j: int| 0 <= j < c2.requests.len() implies request_wf(
                        #[trigger] c2.requests[j],
                    ) by {
                        assert(request_wf(s.collections[i].requests[j]) || request_wf(
                            s.collections[i].requests[j + 1],
                        ));
                    }
                }
            }
        },
        Msg::ToggleCollapsed(ci) => {
            assert forall|i: int| 0 <= i < s2.collections.len() implies
                crate::model::collection_wf(#[trigger] s2.collections[i]) by {
                assert(crate::model::collection_wf(s.collections[i]));
            }
        },
        _ => {},
    }
}

/// A response arrival also keeps the state well formed: it overwrites one
/// response slot and touches no header row, param row, or selection.
pub proof fn lemma_receive_preserves_wf(s: StateV, r: crate::model::ResponseV)
    requires
        state_wf(s),
        has_target(s),
    ensures
        state_wf(crate::reducer::received_step(s, r)),
{
    assert(request_wf(cur_request(s)));
    lemma_with_cur_request_wf(
        s,
        (crate::model::RequestV {
            response: crate::reducer::stored_response_v(r),
            ..cur_request(s)
        }),
    );
}

/// Removing any collection, or any request inside one, always leaves the
/// collection selection at `(0, 0)`, whichever entry was removed.
pub proof fn lemma_removal_resets_selection(s: StateV, i: usize, ci: usize, ri: usize)
    ensures
        step(s, Msg::RemoveCollection(i)).col_current == (ColSelection { col: 0usize, req: 0usize }),
        step(s, Msg::RemoveFromCollection(ci, ri)).col_current == (ColSelection {
            col: 0usize,
            req: 0usize,
        }),
{
}

/// Selecting a request stamps its slot index into its response, and a send
/// taken right after carries exactly that index in its snapshot.
pub proof fn lemma_select_then_send(s: StateV, i: usize)
    requires
        (i as int) < s.main_col.requests.len(),
        s.page == crate::model::Page::Home,
    ensures
        step(s, Msg::SelectRequest(i)).main_col.requests[i as int].response.request_index == i,
        effect_v(step(s, Msg::SelectRequest(i)), Msg::SendPressed) matches EffectV::Send(p)
            && p.index == i,
{
    let s2 = step(s, Msg::SelectRequest(i));
    assert(s2.main_current == i);
    assert(cur_request(s2).response.request_index == i);
}

/// Round trip of the persistence codec: any state the machine can hold
/// reads back from its own document unchanged.
pub proof fn lemma_state_round_trip(v: StateV)
    requires
        bounded_state(v),
    ensures
        deser_spec(ser_state(v)) == Some(v),
{
    lemma_codec_round_trip(v);
}

} // verus!
