//! Decision core of a SIP session border controller.

pub mod access_laws;
pub mod answer_laws;
pub mod backup;
pub mod ban_store;
pub mod call_handler;
pub mod cdr;
pub mod client_tx;
pub mod config;
pub mod dialog_laws;
pub mod engine;
pub mod headers;
pub mod guard_laws;
pub mod hydrate;
pub mod identity;
pub mod import;
pub mod invite_flow;
pub mod invite_handler;
pub mod invite_laws;
pub mod invite_tx;
pub mod leg_requests;
pub mod message;
pub mod net;
pub mod outcome_laws;
pub mod raw_message;
pub mod record_laws;
pub mod register;
pub mod relay_laws;
pub mod renewal;
pub mod renewal_laws;
pub mod reply_laws;
pub mod request_laws;
pub mod response_handler;
pub mod response_laws;
pub mod responses;
pub mod rfc3339;
pub mod runtime_config;
pub mod sdp;
pub mod security;
pub mod sip_builder;
pub mod sip_laws;
pub mod store_laws;
pub mod text;
pub mod text_laws;
pub mod timer_laws;
pub mod trunk_state;
