//! Schema-driven parsing of whitespace-separated command arguments.
//!
//! A free-form token string (as typed after a chat command, e.g.
//! `+opt1 -opt2 key=value`) is split into tokens, each token is classified
//! as a bare name, a signed boolean toggle or a `name=value` pair, and the
//! classified tokens are validated against a declared field schema to build
//! a typed record, or rejected with the offending token rendered back in
//! canonical text form.

use vstd::prelude::*;

mod button;
mod cmd_arg;
mod laws;
mod media;
mod schema;

pub use button::MessageButton;
pub use button::MessageButtonAction;
pub use button::MessageButtons;
pub use cmd_arg::Arg;
pub use cmd_arg::ArgValue;
pub use cmd_arg::CmdArgError;
pub use cmd_arg::ErrorClass;
pub use cmd_arg::TokenClass;
pub use cmd_arg::classify;
pub use cmd_arg::render;
pub use laws::join_tokens;
pub use laws::lemma_ambiguity_precedence;
pub use laws::lemma_fail_fast;
pub use laws::lemma_render_classify;
pub use laws::lemma_round_trip;
pub use laws::lemma_tokens_join;
pub use laws::lemma_whitespace_insensitive;
pub use laws::lemma_ws_prefix;
pub use laws::lemma_ws_run_insert;
pub use laws::lemma_ws_suffix;
pub use media::first_caption_index;
pub use schema::FieldKind;
pub use schema::FieldModel;
pub use schema::FieldSchema;
pub use schema::FieldValue;
pub use schema::Record;
pub use schema::Schema;
pub use schema::ValueModel;
pub use schema::accepted_value;
pub use schema::default_values;
pub use schema::field_accepts;
pub use schema::first_match;
pub use schema::lemma_parse_wf;
pub use schema::parse_result;
pub use schema::record_wf;
pub use schema::run_tokens;
pub use schema::tokens_of;
pub use schema::value_fits;

verus! {

/// A character that separates tokens: ASCII whitespace.
pub open spec fn is_ws_char(c: char) -> bool {
    c == ' ' || c == '\t' || c == '\n' || c == '\r' || c == '\x0c'
}

/// A sign prefix that starts a boolean toggle token.
pub open spec fn is_sign_char(c: char) -> bool {
    c == '+' || c == '-'
}

} // verus!
