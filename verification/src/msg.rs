//! Actions the reducer accepts, and the effects it hands back to the
//! surrounding layer (dispatching a snapshot to the executor, opening a
//! link). Field-edit actions carry the new value; structural actions carry
//! the index they address.

use vstd::prelude::*;
use crate::model::Method;
use crate::model::Page;

verus! {

/// Every action a user or the system can submit to the reducer.
#[derive(Debug, Clone)]
pub enum Msg {
    SelectedMethod(Method),
    SendPressed,
    ReqBodyPressed,
    ReqHeadersPressed,
    ReqParamsPressed,
    RespBodyPressed,
    RespHeadersPressed,
    AddHeader,
    RemoveHeader(usize),
    AddParam,
    RemoveParam(usize),
    ReceivedResponse,
    MethodChanged(Method),
    UrlChanged(String),
    BodyChanged(String),
    HeaderChanged(usize, String, String),
    ParamChanged(usize, String, String),
    AddRequest,
    RemoveRequest(usize),
    SelectRequest(usize),
    AddCollection,
    RemoveCollection(usize),
    AddToCollection(usize),
    SelectFromCollection(usize, usize),
    RemoveFromCollection(usize, usize),
    ToggleCollapsed(usize),
    Update,
    HelpPressed,
    SwitchPage(Page),
    Nothing,
}

/// The immutable snapshot handed to the external request executor: the url
/// with the params already merged into the query string, and the
/// correlation index read from the target's response slot.
#[derive(Debug, Clone)]
pub struct SendPayload {
    pub url: String,
    pub method: Method,
    pub body: String,
    pub headers: Vec<(String, String)>,
    pub index: usize,
}

/// Mathematical view of a send snapshot.
#[verifier::ext_equal]
pub ghost struct SendPayloadV {
    pub url: Seq<char>,
    pub method: Method,
    pub body: Seq<char>,
    pub headers: Seq<(Seq<char>, Seq<char>)>,
    pub index: usize,
}

impl View for SendPayload {
    type V = SendPayloadV;

    open spec fn view(&self) -> SendPayloadV {
        SendPayloadV {
            url: self.url@,
            method: self.method,
            body: self.body@,
            headers: crate::model::pairs_view(self.headers@),
            index: self.index,
        }
    }
}

/// What the reducer asks the surrounding layer to do besides redrawing.
#[derive(Debug)]
pub enum Effect {
    Nothing,
    Send(SendPayload),
    OpenLink(String),
}

/// Mathematical view of an effect.
#[verifier::ext_equal]
pub ghost enum EffectV {
    Nothing,
    Send(SendPayloadV),
    OpenLink(Seq<char>),
}

impl View for Effect {
    type V = EffectV;

    open spec fn view(&self) -> EffectV {
        match self {
            Effect::Nothing => EffectV::Nothing,
            Effect::Send(p) => EffectV::Send(p@),
            Effect::OpenLink(s) => EffectV::OpenLink(s@),
        }
    }
}

} // verus!
