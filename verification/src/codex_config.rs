//! The provider-level switch for Codex remote-compaction synthesis, kept
//! under `config.codex.compact_synthesis_enabled`.
use vstd::prelude::*;

use crate::json::{deref_opt, map_get, Json, JsonMap};

verus! {

/// Nested under `config.codex` alongside fingerprint convergence.
pub const CODEX_COMPACT_SYNTHESIS_CONFIG_NAMESPACE: &'static str = "codex";

pub const CODEX_COMPACT_SYNTHESIS_ENABLED_CONFIG_KEY: &'static str = "compact_synthesis_enabled";

/// The switch as a provider configuration object sets it: the boolean under
/// `codex.compact_synthesis_enabled`, and `false` when there is none.
pub open spec fn flag_of_map(m: Map<Seq<char>, Json>) -> bool {
    match map_get(m, "codex"@) {
        Some(Json::Object(codex)) => match map_get(codex@, "compact_synthesis_enabled"@) {
            Some(Json::Bool(b)) => b,
            _ => false,
        },
        _ => false,
    }
}

/// The switch as a provider configuration sets it; `false` unless it is an
/// object that sets it.
pub open spec fn synthesis_flag(provider_config: Option<Json>) -> bool {
    match provider_config {
        Some(Json::Object(m)) => flag_of_map(m@),
        _ => false,
    }
}

/// Whether the provider configuration enables synthesis.  Any provider may
/// enable it, not only those of type `codex`; the default is off.
pub fn codex_compact_synthesis_enabled(provider_config: Option<&Json>) -> (r: bool)
    ensures
        r == synthesis_flag(deref_opt(provider_config)),
{
    let config = match provider_config {
        Some(Json::Object(m)) => m,
        _ => return false,
    };
    let codex = match config.get(CODEX_COMPACT_SYNTHESIS_CONFIG_NAMESPACE) {
        Some(Json::Object(c)) => c,
        _ => return false,
    };
    match codex.get(CODEX_COMPACT_SYNTHESIS_ENABLED_CONFIG_KEY) {
        Some(Json::Bool(b)) => *b,
        _ => false,
    }
}

/// What setting the switch to `enabled` does to a configuration map: it
/// creates `codex` when absent, sets the key inside it when it is an object,
/// leaves a `codex` that is not an object alone, and touches no other key.
pub open spec fn set_outcome(
    before: Map<Seq<char>, Json>,
    after: Map<Seq<char>, Json>,
    enabled: bool,
) -> bool {
    match map_get(before, "codex"@) {
        None => after.contains_key("codex"@) && after.remove("codex"@) == before && match after["codex"@] {
            Json::Object(c) => c@ == Map::<Seq<char>, Json>::empty().insert(
                "compact_synthesis_enabled"@,
                Json::Bool(enabled),
            ),
            _ => false,
        },
        Some(Json::Object(c0)) => after.contains_key("codex"@) && after.remove("codex"@) == before.remove(
            "codex"@,
        ) && match after["codex"@] {
            Json::Object(c) => c@ == c0@.insert("compact_synthesis_enabled"@, Json::Bool(enabled)),
            _ => false,
        },
        Some(_) => after == before,
    }
}

/// Sets `codex.compact_synthesis_enabled` in a provider configuration map.
pub fn set_codex_compact_synthesis_enabled(config_map: &mut JsonMap, enabled: bool)
    ensures
        set_outcome(old(config_map)@, final(config_map)@, enabled),
{
    let ghost before = config_map@;
    match config_map.remove(CODEX_COMPACT_SYNTHESIS_CONFIG_NAMESPACE) {
        None => {
            let mut codex = JsonMap::new();
            codex.insert(owned_key(CODEX_COMPACT_SYNTHESIS_ENABLED_CONFIG_KEY), Json::Bool(enabled));
            config_map.insert(owned_key(CODEX_COMPACT_SYNTHESIS_CONFIG_NAMESPACE), Json::Object(codex));
            assert(config_map@.remove("codex"@) =~= before);
        },
        Some(Json::Object(mut codex)) => {
            codex.insert(owned_key(CODEX_COMPACT_SYNTHESIS_ENABLED_CONFIG_KEY), Json::Bool(enabled));
            config_map.insert(owned_key(CODEX_COMPACT_SYNTHESIS_CONFIG_NAMESPACE), Json::Object(codex));
            assert(config_map@.remove("codex"@) =~= before.remove("codex"@));
        },
        Some(other) => {
            config_map.insert(owned_key(CODEX_COMPACT_SYNTHESIS_CONFIG_NAMESPACE), other);
            assert(config_map@ =~= before);
        },
    }
}

fn owned_key(s: &str) -> (r: String)
    ensures
        r@ == s@,
{
    crate::text::owned(s)
}

/// What removing the switch does to a configuration map: when `codex` is an
/// object the key goes, and `codex` goes with it once it is empty; anything
/// else is left alone.
pub open spec fn remove_outcome(before: Map<Seq<char>, Json>, after: Map<Seq<char>, Json>) -> bool {
    match map_get(before, "codex"@) {
        Some(Json::Object(c0)) => if c0@.remove("compact_synthesis_enabled"@) == Map::<
            Seq<char>,
            Json,
        >::empty() {
            after == before.remove("codex"@)
        } else {
            after.contains_key("codex"@) && after.remove("codex"@) == before.remove("codex"@)
                && match after["codex"@] {
                Json::Object(c) => c@ == c0@.remove("compact_synthesis_enabled"@),
                _ => false,
            }
        },
        _ => after == before,
    }
}

/// Removes `codex.compact_synthesis_enabled`, and `codex` once it is empty.
pub fn remove_codex_compact_synthesis_config(config_map: &mut JsonMap)
    ensures
        remove_outcome(old(config_map)@, final(config_map)@),
{
    let ghost before = config_map@;
    match config_map.remove(CODEX_COMPACT_SYNTHESIS_CONFIG_NAMESPACE) {
        Some(Json::Object(mut codex)) => {
            let ghost c0 = codex@;
            assert(map_get(before, "codex"@) == Some(Json::Object(codex)));
            codex.remove(CODEX_COMPACT_SYNTHESIS_ENABLED_CONFIG_KEY);
            assert(codex@ == c0.remove("compact_synthesis_enabled"@));
            if !codex.is_empty() {
                config_map.insert(owned_key(CODEX_COMPACT_SYNTHESIS_CONFIG_NAMESPACE), Json::Object(codex));
                assert(config_map@.remove("codex"@) =~= before.remove("codex"@));
            }
        },
        Some(other) => {
            config_map.insert(owned_key(CODEX_COMPACT_SYNTHESIS_CONFIG_NAMESPACE), other);
            assert(config_map@ =~= before);
        },
        None => {
            assert(config_map@ =~= before);
        },
    }
}

/// After setting the switch, reading it gives the value set, unless `codex`
/// held something other than an object.
pub proof fn lemma_set_then_read(before: Map<Seq<char>, Json>, after: Map<Seq<char>, Json>, enabled: bool)
    requires
        set_outcome(before, after, enabled),
        match map_get(before, "codex"@) {
            Some(Json::Object(_)) | None => true,
            _ => false,
        },
    ensures
        flag_of_map(after) == enabled,
{
}

/// Setting the switch on a map without `codex` and then removing it gives
/// the map back.
pub proof fn lemma_set_then_remove_restores(
    before: Map<Seq<char>, Json>,
    middle: Map<Seq<char>, Json>,
    after: Map<Seq<char>, Json>,
    enabled: bool,
)
    requires
        !before.contains_key("codex"@),
        set_outcome(before, middle, enabled),
        remove_outcome(middle, after),
    ensures
        after == before,
{
    let c = middle["codex"@];
    match c {
        Json::Object(m) => {
            assert(m@.remove("compact_synthesis_enabled"@) =~= Map::<Seq<char>, Json>::empty());
        },
        _ => {},
    }
}

/// After removing the switch, reading it gives `false`.
pub proof fn lemma_remove_then_read(before: Map<Seq<char>, Json>, after: Map<Seq<char>, Json>)
    requires
        remove_outcome(before, after),
    ensures
        !flag_of_map(after),
{
}

} // verus!
