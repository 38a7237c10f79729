use vstd::prelude::*;

use twilight_model::gateway::event::GatewayEventDeserializer;

use crate::strings::{
    chars_of, contains_at, find_first, first_match_from, lemma_first_match_is_match,
    parse_digit_run, spec_parse_digit_run, str_eq,
};

verus! {

/// The dispatch event type that a raw gateway payload names, if any: a pure
/// function of the payload text.
pub uninterp spec fn gateway_event_type(payload: Seq<char>) -> Option<Seq<char>>;

/// Relies on twilight-model's `GatewayEventDeserializer`: `from_json` scans
/// the raw payload for its opcode and dispatch event type without a full
/// JSON parse, and `event_type` hands the found type back; both read only
/// the payload text.
#[verifier::external_body]
fn extract_event_type(payload: &str) -> (r: Option<String>)
    ensures
        r is Some <==> gateway_event_type(payload@) is Some,
        r matches Some(t) ==> gateway_event_type(payload@) == Some(t@),
{
    GatewayEventDeserializer::from_json(payload).and_then(
        |d| d.event_type().map(|t| t.to_string()),
    )
}

/// The event types that are forwarded to the message broker.
pub open spec fn spec_in_allow_list(t: Seq<char>) -> bool {
    ||| t == "GUILD_MEMBER_ADD"@
    ||| t == "MESSAGE_CREATE"@
    ||| t == "MESSAGE_UPDATE"@
    ||| t == "MESSAGE_DELETE"@
    ||| t == "MESSAGE_REACTION_ADD"@
    ||| t == "INTERACTION_CREATE"@
}

/// Whether an event type is forwarded to the message broker.
pub fn in_allow_list(t: &str) -> (r: bool)
    ensures
        r == spec_in_allow_list(t@),
{
    str_eq(t, "GUILD_MEMBER_ADD") || str_eq(t, "MESSAGE_CREATE") || str_eq(t, "MESSAGE_UPDATE")
        || str_eq(t, "MESSAGE_DELETE") || str_eq(t, "MESSAGE_REACTION_ADD") || str_eq(
        t,
        "INTERACTION_CREATE",
    )
}

/// The marker that asks for a guild's members to be refreshed, written
/// directly into a chat message followed by the guild id in decimal.
pub open spec fn magic_token() -> Seq<char> {
    "magic_incantation_for_refreshing_guild_members_"@
}

/// The guild id a payload's refresh marker names: the digits right after the
/// first occurrence of the marker, when they form a number that is positive
/// and fits the id width; everything else is silently ignored.
pub open spec fn spec_magic_guild_id(s: Seq<char>) -> Option<u64> {
    match first_match_from(s, magic_token(), 0) {
        None => None,
        Some(i) => match spec_parse_digit_run(s, i + magic_token().len()) {
            None => None,
            Some(v) => if v == 0 {
                None
            } else {
                Some(v)
            },
        },
    }
}

/// Scans a payload for the member-refresh marker and reads the guild id
/// after it. However often the marker occurs, only the first occurrence
/// counts, so at most one refresh is requested per payload.
pub fn scan_magic_guild_id(payload: &Vec<char>) -> (r: Option<u64>)
    ensures
        r == spec_magic_guild_id(payload@),
{
    let token: Vec<char> = chars_of("magic_incantation_for_refreshing_guild_members_");
    match find_first(payload, &token) {
        None => None,
        Some(i) => {
            let plen: usize = payload.len();
            proof {
                lemma_first_match_is_match(payload@, token@, 0);
                assert(contains_at(payload@, token@, i as int));
                assert(i + token@.len() <= plen);
            }
            let start: usize = i + token.len();
            match parse_digit_run(payload, start) {
                None => None,
                Some(v) => if v == 0 {
                    None
                } else {
                    Some(v)
                },
            }
        },
    }
}

/// What the forwarder does with one raw gateway payload: the routing key to
/// publish it under (when its event type is in the allow-list), and the
/// guild whose members a refresh marker asks to fetch again.
pub struct ForwardDecision {
    pub publish: Option<String>,
    pub backfill_guild: Option<u64>,
}

/// Decides the forwarding of one raw payload: events outside the allow-list
/// produce no publish at all, and only a chat-message event is scanned for
/// the member-refresh marker.
pub fn try_forward(payload: &str) -> (d: ForwardDecision)
    ensures
        d.publish is Some <==> (gateway_event_type(payload@) matches Some(ty)
            && spec_in_allow_list(ty)),
        d.publish matches Some(t) ==> gateway_event_type(payload@) == Some(t@),
        d.backfill_guild == if gateway_event_type(payload@) == Some("MESSAGE_CREATE"@) {
            spec_magic_guild_id(payload@)
        } else {
            None::<u64>
        },
{
    match extract_event_type(payload) {
        None => ForwardDecision { publish: None, backfill_guild: None },
        Some(ty) => {
            let is_message: bool = str_eq(ty.as_str(), "MESSAGE_CREATE");
            let backfill_guild: Option<u64> = if is_message {
                let chars: Vec<char> = chars_of(payload);
                scan_magic_guild_id(&chars)
            } else {
                None
            };
            let publish: Option<String> = if in_allow_list(ty.as_str()) {
                Some(ty)
            } else {
                None
            };
            ForwardDecision { publish, backfill_guild }
        },
    }
}

} // verus!
