//! What the daemon answers each request with. The socket, the files and the
//! programs it starts are handled around the library; the answers to
//! queries, the bounds on activation requests and the handling of new
//! settings are decided here.

use crate::config::{appearance_sanitised, providers_sanitised, sanitised_hotkey, Config};
use crate::ipc::Response;
use crate::limits::{clamp_text, clamped, MAX_ACTION_BYTES, MAX_ITEM_ID_BYTES, MAX_QUERY_CHARS, MAX_RESULTS};
use crate::search::{action_of, split_id, split_item_id, Action, Activation, Registry};
use crate::search::rank::{item_views, ranked, RunView};
use crate::text::{byte_len, byte_len_exceeds, chars_of, str_eq, trim, unicode_lowercase};
use vstd::prelude::*;

verus! {

/// Enough rows to scroll through without ever shipping a list nobody reads.
pub const RESULT_LIMIT: usize = MAX_RESULTS;

/// The answer to a query: its text bounded before any provider sees it (a
/// pathological query costs at most a bounded match), then the ranked rows
/// of the enabled providers.
pub fn query_response(registry: &Registry, config: &Config, text: &str) -> (r: Response)
    ensures
        r.ok && r.rid == 0 && r.error is None && r.config is None,
        r.items matches Some(items) && exists|runs: Seq<RunView>|
            registry.runs_for(runs, trim(clamped(text@, MAX_QUERY_CHARS as nat)), config) && item_views(items@)
                == ranked(
                runs,
                unicode_lowercase(trim(clamped(text@, MAX_QUERY_CHARS as nat))),
                config,
                RESULT_LIMIT as nat,
            ),
{
    let bounded = clamp_text(text, MAX_QUERY_CHARS);
    let items = registry.query(bounded.as_str(), config, RESULT_LIMIT);
    let mut r = Response::ok();
    r.items = Some(items);
    r
}

/// Whether an activation request is within bounds: an id of at most
/// `MAX_ITEM_ID_BYTES` bytes and an action of at most `MAX_ACTION_BYTES`.
pub open spec fn activation_in_bounds(id: Seq<char>, action: Seq<char>) -> bool {
    byte_len(id) <= MAX_ITEM_ID_BYTES && byte_len(action) <= MAX_ACTION_BYTES
}

/// The error text of a refusing response.
pub open spec fn refusal(r: Result<Activation, Response>) -> Option<Seq<char>> {
    match r {
        Err(resp) => if !resp.ok {
            crate::text::opt_view(resp.error)
        } else {
            None
        },
        Ok(_) => None,
    }
}

/// What an activation request asks the program to do, or the response that
/// refuses it.
pub fn activation_request(registry: &Registry, id: &str, action: &str) -> (r: Result<Activation, Response>)
    ensures
        !activation_in_bounds(id@, action@) ==> refusal(r) == Some("activation request out of bounds"@),
        activation_in_bounds(id@, action@) ==> exists|routed: Result<Activation, String>|
            registry.routes(id@, action_of(action@), routed) && match routed {
                Ok(a) => r matches Ok(b) && b == a,
                Err(e) => refusal(r) == Some(clamped(e@, crate::limits::MAX_ERROR_CHARS as nat)),
            },
{
    let iv = chars_of(id);
    let av = chars_of(action);
    if byte_len_exceeds(&iv, MAX_ITEM_ID_BYTES) || byte_len_exceeds(&av, MAX_ACTION_BYTES) {
        let resp = Response::error("activation request out of bounds");
        proof {
            reveal_strlit("activation request out of bounds");
            crate::limits::lemma_clamped_bounds("activation request out of bounds"@, crate::limits::MAX_ERROR_CHARS as nat);
            crate::limits::lemma_strip_controls_identity("activation request out of bounds"@);
        }
        return Err(resp);
    }
    match registry.activate(id, Action::parse(action)) {
        Ok(a) => Ok(a),
        Err(e) => Err(Response::error(e.as_str())),
    }
}

/// The application whose launch is counted once activating the item `id`
/// has succeeded: the rest of an id the apps provider owns, and none for
/// any other row.
pub fn launched_app(id: &str) -> (r: Option<String>)
    ensures
        match split_id(id@) {
            Some((p, rest)) => if p == crate::providers::apps::PROVIDER@ {
                r matches Some(a) && a@ == rest
            } else {
                r is None
            },
            None => r is None,
        },
{
    match split_item_id(id) {
        Some((p, rest)) => if str_eq(p.as_str(), crate::providers::apps::PROVIDER) {
            Some(rest)
        } else {
            None
        },
        None => None,
    }
}

/// New settings arriving over the socket: sanitised by the same rules as a
/// file loaded from disk (the socket is no path around validation), and
/// whether the hotkey changed, which alone warrants touching the user's
/// Hyprland config.
pub fn settings_update(current_hotkey: &str, config: Config) -> (r: (Config, bool))
    ensures
        r.0.hotkey@ == sanitised_hotkey(config.hotkey@),
        providers_sanitised(&config.providers, &r.0.providers),
        appearance_sanitised(config.appearance, r.0.appearance),
        r.0.behaviour == config.behaviour,
        r.1 == (r.0.hotkey@ != current_hotkey@),
{
    let mut config = config;
    config.sanitise();
    let rebind = !str_eq(config.hotkey.as_str(), current_hotkey);
    (config, rebind)
}

} // verus!
