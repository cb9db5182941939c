//! Core state machine of an HTTP request composer: the entity model
//! (requests, responses, collections), the navigation state that addresses
//! one request at a time, the reducer that applies every user and system
//! action, the send/receive correlation protocol, and a persistence codec.

use vstd::prelude::*;

mod codec;
mod laws;
mod model;
mod reducer;
mod msg;
mod numerals;
mod render;
mod strings;
mod url;

pub use codec::StateError;
pub use codec::bounded_state;
pub use codec::default_state;
pub use codec::default_state_v;
pub use codec::deser_spec;
pub use codec::deserialize;
pub use codec::from_save;
pub use codec::lemma_codec_round_trip;
pub use codec::load_state;
pub use codec::ser_state;
pub use codec::serialize;
pub use codec::to_save;
pub use laws::lemma_receive_preserves_wf;
pub use laws::lemma_removal_resets_selection;
pub use laws::lemma_select_then_send;
pub use laws::lemma_state_round_trip;
pub use laws::lemma_step_preserves_wf;
pub use msg::Effect;
pub use msg::EffectV;
pub use msg::Msg;
pub use msg::SendPayload;
pub use msg::SendPayloadV;
pub use reducer::cur_request;
pub use reducer::effect_v;
pub use reducer::has_target;
pub use reducer::msg_valid;
pub use reducer::numbered_collection_v;
pub use reducer::numbered_request_v;
pub use reducer::payload_v;
pub use reducer::process;
pub use reducer::receive_response;
pub use reducer::received_step;
pub use reducer::redraw_of;
pub use reducer::selected_request;
pub use reducer::step;
pub use reducer::stored_response_v;
pub use reducer::with_cur_request;
pub use render::render_of;
pub use url::merged_url;
pub use url::param_frag;
pub use url::query_frag;
pub use model::BoltContext;
pub use model::BoltState;
pub use model::ColSelection;
pub use model::Collection;
pub use model::CollectionV;
pub use model::Method;
pub use model::Page;
pub use model::Request;
pub use model::RequestTab;
pub use model::RequestV;
pub use model::Response;
pub use model::ResponseTab;
pub use model::ResponseType;
pub use model::ResponseV;
pub use model::SaveState;
pub use model::StateV;
pub use model::collection_wf;
pub use model::default_response_v;
pub use model::new_collection_v;
pub use model::new_request_v;
pub use model::pairs_view;
pub use model::request_wf;
pub use model::state_wf;

verus! {

/// The directory that holds the bundled front-end files, under the
/// application's home directory.
pub fn get_dist(home: &str) -> (r: String)
    ensures
        r@ == home@ + "dist/"@,
{
    let mut r = home.to_owned();
    r.append("dist/");
    r
}

} // verus!
