//! The report-context fields that carry compact synthesis from the request
//! side to the finalize and stream hooks.
use vstd::prelude::*;

use crate::json::{bool_value, deref_opt, map_get, member, str_value, Json, JsonMap};
use crate::text::{ascii_lower, ascii_lowercase_chars, chars_eq, chars_of, owned};

verus! {

/// Whether synthesis is enabled for the request.
pub const SYNTHESIS_ENABLED_FIELD: &'static str = "codex_compact_synthesis_enabled";

/// The Responses operation the request performs.
pub const RESPONSES_OPERATION_FIELD: &'static str = "openai_responses_operation";

/// The API format the client spoke.
pub const CLIENT_API_FORMAT_FIELD: &'static str = "client_api_format";

/// What inserting the synthesis fields does to a report context: the
/// enabled flag is set, and for a compact operation the operation is set to
/// `compact`; no other key changes.
pub open spec fn context_fields_set(
    before: Map<Seq<char>, Json>,
    after: Map<Seq<char>, Json>,
    enabled: bool,
    is_compact_operation: bool,
) -> bool {
    let flagged = before.insert("codex_compact_synthesis_enabled"@, Json::Bool(enabled));
    if is_compact_operation {
        &&& after.remove("openai_responses_operation"@) == flagged.remove(
            "openai_responses_operation"@,
        )
        &&& str_value(map_get(after, "openai_responses_operation"@)) == Some("compact"@)
    } else {
        after == flagged
    }
}

/// Inserts the synthesis flags into a report context map.
pub fn insert_compact_synthesis_report_context_fields(
    report_context: &mut JsonMap,
    enabled: bool,
    is_compact_operation: bool,
)
    ensures
        context_fields_set(old(report_context)@, final(report_context)@, enabled, is_compact_operation),
{
    let ghost before = report_context@;
    report_context.insert(owned(SYNTHESIS_ENABLED_FIELD), Json::Bool(enabled));
    if is_compact_operation {
        let ghost flagged = report_context@;
        report_context.insert(owned(RESPONSES_OPERATION_FIELD), Json::String(owned("compact")));
        assert(report_context@.remove("openai_responses_operation"@) =~= flagged.remove(
            "openai_responses_operation"@,
        ));
    }
}

/// The enabled flag a report context carries: `true` only where it holds
/// the boolean `true`.
pub open spec fn synthesis_enabled_in(report_context: Option<Json>) -> bool {
    match report_context {
        Some(c) => bool_value(member(c, "codex_compact_synthesis_enabled"@)) == Some(true),
        None => false,
    }
}

/// Whether the report context enables synthesis.
pub fn compact_synthesis_enabled_from_report_context(report_context: Option<&Json>) -> (r: bool)
    ensures
        r == synthesis_enabled_in(deref_opt(report_context)),
{
    match report_context {
        Some(context) => match context.get(SYNTHESIS_ENABLED_FIELD) {
            Some(v) => match v.as_bool() {
                Some(b) => b,
                None => false,
            },
            None => false,
        },
        None => false,
    }
}

/// The report context names the `compact` operation, in any ASCII case.
pub open spec fn operation_is_compact(report_context: Option<Json>) -> bool {
    match report_context {
        Some(c) => match str_value(member(c, "openai_responses_operation"@)) {
            Some(op) => ascii_lower(op) == "compact"@,
            None => false,
        },
        None => false,
    }
}

/// The client API format the report context names, if it is a string.
pub open spec fn client_api_format(report_context: Option<Json>) -> Option<Seq<char>> {
    match report_context {
        Some(c) => str_value(member(c, "client_api_format"@)),
        None => None,
    }
}

/// `compact` is a possible verdict on the report context: its operation is
/// `compact` (any ASCII case), or else `is_compact_format` can answer
/// `compact` for the client API format it names, which a context that names
/// none never is.
pub open spec fn judged_compact<F: Fn(&str) -> bool>(
    is_compact_format: F,
    report_context: Option<Json>,
    compact: bool,
) -> bool {
    if operation_is_compact(report_context) {
        compact
    } else {
        match client_api_format(report_context) {
            Some(f) => exists|s: &str| s@ == f && #[trigger] is_compact_format.ensures((s,), compact),
            None => !compact,
        }
    }
}

/// `needed` is a possible verdict on whether synthesis must run for the
/// report context: never where the context does not enable it, else where
/// the operation is judged compact.
pub open spec fn synthesis_needed<F: Fn(&str) -> bool>(
    is_compact_format: F,
    report_context: Option<Json>,
    needed: bool,
) -> bool {
    if synthesis_enabled_in(report_context) {
        judged_compact(is_compact_format, report_context, needed)
    } else {
        !needed
    }
}

/// Whether `s` equals `compact`, ignoring ASCII case.
fn names_compact(s: &str) -> (r: bool)
    ensures
        r == (ascii_lower(s@) == "compact"@),
{
    let lowered = ascii_lowercase_chars(s);
    let expected = chars_of("compact");
    proof {
        reveal_strlit("compact");
    }
    chars_eq(&lowered, &expected)
}

/// Whether the report context describes a compact operation: its operation
/// is `compact` (any ASCII case), or `is_compact_format` accepts the client
/// API format it names.  `is_compact_format` is the format registry's
/// judgement of whether an API format is the Responses compact format.
pub fn is_compact_operation_from_report_context<F: Fn(&str) -> bool>(
    report_context: Option<&Json>,
    is_compact_format: &F,
) -> (r: bool)
    requires
        forall|s: &str| #[trigger] is_compact_format.requires((s,)),
    ensures
        judged_compact(*is_compact_format, deref_opt(report_context), r),
{
    let context = match report_context {
        Some(c) => c,
        None => return false,
    };
    let by_operation = match context.get(RESPONSES_OPERATION_FIELD) {
        Some(v) => match v.as_str() {
            Some(op) => names_compact(op),
            None => false,
        },
        None => false,
    };
    if by_operation {
        return true;
    }
    match context.get(CLIENT_API_FORMAT_FIELD) {
        Some(v) => match v.as_str() {
            Some(format) => {
                let r = is_compact_format(format);
                assert(is_compact_format.ensures((format,), r));
                r
            },
            None => false,
        },
        None => false,
    }
}

/// A report context read after the synthesis fields were inserted gives back
/// the enabled flag that was inserted, and names the compact operation
/// whenever one was inserted.
pub proof fn lemma_inserted_fields_read_back(
    before: JsonMap,
    after: JsonMap,
    enabled: bool,
    is_compact_operation: bool,
)
    requires
        context_fields_set(before@, after@, enabled, is_compact_operation),
    ensures
        synthesis_enabled_in(Some(Json::Object(after))) == enabled,
        is_compact_operation ==> operation_is_compact(Some(Json::Object(after))),
{
    reveal_strlit("codex_compact_synthesis_enabled");
    reveal_strlit("openai_responses_operation");
    reveal_strlit("compact");
    let flagged = before@.insert("codex_compact_synthesis_enabled"@, Json::Bool(enabled));
    if is_compact_operation {
        assert("codex_compact_synthesis_enabled"@ != "openai_responses_operation"@) by {
            assert("codex_compact_synthesis_enabled"@.len() != "openai_responses_operation"@.len());
        }
        assert(after@.remove("openai_responses_operation"@).contains_key(
            "codex_compact_synthesis_enabled"@,
        ));
        assert(after@["codex_compact_synthesis_enabled"@] == after@.remove(
            "openai_responses_operation"@,
        )["codex_compact_synthesis_enabled"@]);
        assert(ascii_lower("compact"@) =~= "compact"@);
    }
}

} // verus!
