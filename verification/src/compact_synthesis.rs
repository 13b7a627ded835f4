//! Codex remote compaction v2 synthesis.
//!
//! Upstreams other than OpenAI often answer a `compaction_trigger` turn with
//! ordinary `message` / `reasoning` items, while Codex remote compaction v2
//! requires exactly one `{ type: "compaction", encrypted_content }` output
//! item.  When a provider enables synthesis, the upstream summary text is
//! wrapped in a self-describing envelope under `encrypted_content`, and the
//! summary is restored from that envelope on later turns.
use vstd::prelude::*;

use vstd::utf8::encode_utf8;

use crate::json::{
    array_value, lemma_float_free_object, lemma_float_free_scalar, map_get, member, str_value,
    Json, JsonMap, JsonNumber,
};
use crate::text::{
    contains_seq, err_text, has_prefix, owned, str_contains, str_eq, strip_prefix, trim, trim_str,
};
use crate::wire::{
    base64_decode, base64_decoded, base64_encode, base64_encode_spec, flat_scalar_object,
    json_parse, json_text, json_to_string, object_view, parse_json_bytes, unix_now_seconds,
};

verus! {

/// Prefix of the envelopes that this library writes (not OpenAI ciphertext).
pub const AETHER_COMPACT_SYNTHESIS_PREFIX: &'static str = "aether_compact_v1:";

pub const CONVERSATION_SUMMARY_HEADING: &'static str = "[Conversation Summary]";

/// The summarization prompt of Codex local compaction, sent as a user
/// message in `input` (not in `instructions`), as Codex does.
pub const COMPACT_SUMMARIZATION_PROMPT: &'static str = "You are performing a CONTEXT CHECKPOINT COMPACTION. Create a handoff summary for another LLM that will resume the task.\n\nInclude:\n- Current progress and key decisions made\n- Important context, constraints, or user preferences\n- What remains to be done (clear next steps)\n- Any critical data, examples, or references needed to continue\n\nBe concise, structured, and focused on helping the next LLM seamlessly continue the work.\n";

/// `s` trimmed, when that leaves something.
pub open spec fn trimmed_nonempty(s: Seq<char>) -> Option<Seq<char>> {
    if trim(s).len() > 0 {
        Some(trim(s))
    } else {
        None
    }
}

/// The summary an envelope carries: after the prefix, Base64 of a JSON
/// object whose `summary` string, trimmed, is not empty.
pub open spec fn decoded_summary(encrypted: Seq<char>) -> Option<Seq<char>> {
    let p = AETHER_COMPACT_SYNTHESIS_PREFIX@;
    if has_prefix(encrypted, p) {
        match base64_decoded(encrypted.skip(p.len() as int)) {
            Some(bytes) => match json_parse(bytes) {
                Some(v) => match str_value(member(v, "summary"@)) {
                    Some(s) => trimmed_nonempty(s),
                    None => None,
                },
                None => None,
            },
            None => None,
        }
    } else {
        None
    }
}

/// `v` is the JSON payload of an envelope: an object of exactly `summary`,
/// `model` and a non-negative integer `ts`.
pub open spec fn envelope_payload(v: Json, summary: Seq<char>, model: Seq<char>) -> bool {
    let m = object_view(v);
    &&& v is Object
    &&& m.dom() == set!["summary"@, "model"@, "ts"@]
    &&& str_value(map_get(m, "summary"@)) == Some(summary)
    &&& str_value(map_get(m, "model"@)) == Some(model)
    &&& m["ts"@] matches Json::Number(JsonNumber::PosInt(_))
}

/// `encrypted` is an envelope of `summary` and `model`: the prefix, then the
/// Base64 of the JSON text of such a payload (with some timestamp).
#[verifier::opaque]
pub open spec fn is_envelope_of(encrypted: Seq<char>, summary: Seq<char>, model: Seq<char>) -> bool {
    exists|v: Json|
        envelope_payload(v, summary, model) && encrypted == AETHER_COMPACT_SYNTHESIS_PREFIX@
            + base64_encode_spec(encode_utf8(#[trigger] json_text(v)))
}

proof fn lemma_envelope_keys_distinct()
    ensures
        "summary"@ != "model"@,
        "summary"@ != "ts"@,
        "model"@ != "ts"@,
{
    reveal_strlit("summary");
    reveal_strlit("model");
    reveal_strlit("ts");
    assert("summary"@.len() == 7);
    assert("model"@.len() == 5);
    assert("ts"@.len() == 2);
}

fn string_value(s: &str) -> (r: Json)
    ensures
        r matches Json::String(t) && t@ == s@,
{
    Json::String(owned(s))
}

/// Wraps a plain-text summary into an envelope that Codex carries through
/// later requests.  Decoding the envelope gives the summary back, trimmed.
pub fn encode_compact_synthesis_encrypted_content(summary: &str, model: &str) -> (r: String)
    ensures
        is_envelope_of(r@, summary@, model@),
        decoded_summary(r@) == trimmed_nonempty(summary@),
{
    let ts = unix_now_seconds();
    let mut payload = JsonMap::new();
    let summary_value = string_value(summary);
    let model_value = string_value(model);
    let ghost sv = summary_value;
    let ghost mv = model_value;
    payload.insert(owned("summary"), summary_value);
    payload.insert(owned("model"), model_value);
    payload.insert(owned("ts"), Json::Number(JsonNumber::PosInt(ts)));
    proof {
        lemma_envelope_keys_distinct();
        assert(payload@["summary"@] == sv);
        assert(payload@["model"@] == mv);
        assert(str_value(Some(sv)) == Some(summary@));
    }
    proof {
        use_type_invariant(&payload);
        assert forall|k: Seq<char>| #[trigger] payload@.contains_key(k) implies crate::json::float_free(payload@[k]) by {
            lemma_float_free_scalar(payload@[k]);
        }
        lemma_float_free_object(payload);
    }
    let value = Json::Object(payload);
    proof {
        assert(object_view(value).dom() =~= set!["summary"@, "model"@, "ts"@]);
        assert(flat_scalar_object(value));
        assert(envelope_payload(value, summary@, model@));
    }
    let text = json_to_string(&value);
    let encoded = base64_encode(text.as_str().as_bytes());
    let mut r = owned(AETHER_COMPACT_SYNTHESIS_PREFIX);
    r.append(encoded.as_str());
    proof {
        let p = AETHER_COMPACT_SYNTHESIS_PREFIX@;
        assert(r@.take(p.len() as int) =~= p);
        assert(r@.skip(p.len() as int) =~= encoded@);
        reveal(is_envelope_of);
        assert(is_envelope_of(r@, summary@, model@));
    }
    r
}

/// Reads the summary back from an envelope.  Anything else, such as a
/// native OpenAI blob, gives `None`.
pub fn decode_compact_synthesis_encrypted_content(encrypted_content: &str) -> (r: Option<String>)
    ensures
        match r {
            Some(s) => decoded_summary(encrypted_content@) == Some(s@),
            None => decoded_summary(encrypted_content@) is None,
        },
{
    let encoded = match strip_prefix(encrypted_content, AETHER_COMPACT_SYNTHESIS_PREFIX) {
        Some(e) => e,
        None => return None,
    };
    let bytes = match base64_decode(encoded) {
        Some(b) => b,
        None => return None,
    };
    let value = match parse_json_bytes(bytes.as_slice()) {
        Some(v) => v,
        None => return None,
    };
    let summary = match value.get("summary") {
        Some(s) => match s.as_str() {
            Some(s) => trim_str(s),
            None => return None,
        },
        None => return None,
    };
    if summary.is_empty() {
        None
    } else {
        Some(owned(summary))
    }
}


/// The `type` of an item is the string `t`.
pub open spec fn has_type(item: Json, t: Seq<char>) -> bool {
    str_value(member(item, "type"@)) == Some(t)
}

/// A native compaction item: `type` is `compaction` and `encrypted_content`
/// is a string that is not blank.
pub open spec fn is_compaction_item(item: Json) -> bool {
    &&& str_value(member(item, "type"@)) == Some("compaction"@)
    &&& match str_value(member(item, "encrypted_content"@)) {
        Some(c) => trim(c).len() > 0,
        None => false,
    }
}

/// Whether `v` is the string `lit`.
pub(crate) fn is_str(v: Option<&Json>, lit: &str) -> (r: bool)
    ensures
        r == (str_value(crate::json::deref_opt(v)) == Some(lit@)),
{
    match v {
        Some(x) => match x.as_str() {
            Some(t) => str_eq(t, lit),
            None => false,
        },
        None => false,
    }
}

fn is_compaction_item_exec(item: &Json) -> (r: bool)
    ensures
        r == is_compaction_item(*item),
{
    if !is_str(item.get("type"), "compaction") {
        return false;
    }
    match item.get("encrypted_content") {
        Some(c) => match c.as_str() {
            Some(t) => !trim_str(t).is_empty(),
            None => false,
        },
        None => false,
    }
}

/// Whether a Responses `output` array already holds a native compaction
/// item.
pub fn responses_output_has_compaction_item(output: &[Json]) -> (r: bool)
    ensures
        r == exists|i: int| 0 <= i < output@.len() && is_compaction_item(#[trigger] output@[i]),
{
    let n = output.len();
    for i in 0..n
        invariant
            n == output@.len(),
            forall|j: int| 0 <= j < i ==> !is_compaction_item(#[trigger] output@[j]),
    {
        if is_compaction_item_exec(&output[i]) {
            return true;
        }
    }
    false
}

/// The texts of a sequence of strings.
pub open spec fn views(v: Seq<String>) -> Seq<Seq<char>> {
    v.map_values(|s: String| s@)
}

/// The `text` of `v`, trimmed, when that is a string with something in it.
pub open spec fn text_part(v: Json) -> Seq<Seq<char>> {
    match str_value(member(v, "text"@)) {
        Some(t) => if trim(t).len() > 0 {
            seq![trim(t)]
        } else {
            seq![]
        },
        None => seq![],
    }
}

/// The texts of the `output_text` and `text` parts of a message's content.
pub open spec fn content_parts(parts: Seq<Json>) -> Seq<Seq<char>>
    decreases parts.len(),
{
    if parts.len() == 0 {
        seq![]
    } else {
        let last = parts.last();
        content_parts(parts.drop_last()) + if has_type(last, "output_text"@) || has_type(last, "text"@) {
            text_part(last)
        } else {
            seq![]
        }
    }
}

/// The texts of the parts of a reasoning summary.
pub open spec fn summary_parts(parts: Seq<Json>) -> Seq<Seq<char>>
    decreases parts.len(),
{
    if parts.len() == 0 {
        seq![]
    } else {
        summary_parts(parts.drop_last()) + text_part(parts.last())
    }
}

/// The texts of a message item: those of its content array, or its own
/// `text` when it has no content array.
pub open spec fn message_parts(item: Json) -> Seq<Seq<char>> {
    match array_value(member(item, "content"@)) {
        Some(content) => content_parts(content),
        None => text_part(item),
    }
}

/// The texts of a reasoning item's `summary` array.
pub open spec fn reasoning_parts(item: Json) -> Seq<Seq<char>> {
    match array_value(member(item, "summary"@)) {
        Some(parts) => summary_parts(parts),
        None => seq![],
    }
}

/// The texts of one output item.
pub open spec fn item_parts(item: Json) -> Seq<Seq<char>> {
    if has_type(item, "message"@) {
        message_parts(item)
    } else if has_type(item, "reasoning"@) {
        reasoning_parts(item)
    } else {
        text_part(item)
    }
}

/// The texts of an output array, item by item.
pub open spec fn output_parts(items: Seq<Json>) -> Seq<Seq<char>>
    decreases items.len(),
{
    if items.len() == 0 {
        seq![]
    } else {
        output_parts(items.drop_last()) + item_parts(items.last())
    }
}

/// The text of a summary part, when it is a string that is not blank.
pub open spec fn nonblank_text(part: Json) -> bool {
    str_value(member(part, "text"@)) is Some && trim(str_value(member(part, "text"@))->0).len() > 0
}

proof fn lemma_summary_parts_hold_every_text(ss: Seq<Json>)
    ensures
        forall|i: int|
            0 <= i < ss.len() && nonblank_text(#[trigger] ss[i]) ==> summary_parts(ss).contains(
                trim(str_value(member(ss[i], "text"@))->0),
            ),
    decreases ss.len(),
{
    if ss.len() > 0 {
        let pre = ss.drop_last();
        lemma_summary_parts_hold_every_text(pre);
        let all = summary_parts(ss);
        assert(all == summary_parts(pre) + text_part(ss.last()));
        assert forall|i: int| 0 <= i < ss.len() && nonblank_text(#[trigger] ss[i]) implies all.contains(
            trim(str_value(member(ss[i], "text"@))->0),
        ) by {
            let t = trim(str_value(member(ss[i], "text"@))->0);
            if i < ss.len() - 1 {
                assert(pre[i] == ss[i]);
                let j = choose|j: int| 0 <= j < summary_parts(pre).len() && summary_parts(pre)[j] == t;
                assert(all[j] == t);
            } else {
                assert(text_part(ss.last()) == seq![t]);
                assert(all[summary_parts(pre).len() as int] == t);
            }
        }
    }
}

proof fn lemma_summary_parts_of_texts(ss: Seq<Json>)
    requires
        forall|i: int| 0 <= i < ss.len() ==> nonblank_text(#[trigger] ss[i]),
    ensures
        summary_parts(ss).len() == ss.len(),
        forall|i: int|
            0 <= i < ss.len() ==> #[trigger] summary_parts(ss)[i] == trim(
                str_value(member(ss[i], "text"@))->0,
            ),
    decreases ss.len(),
{
    if ss.len() > 0 {
        let pre = ss.drop_last();
        assert forall|i: int| 0 <= i < pre.len() implies nonblank_text(#[trigger] pre[i]) by {
            assert(pre[i] == ss[i]);
        }
        lemma_summary_parts_of_texts(pre);
        assert(nonblank_text(ss[ss.len() - 1]));
        assert(summary_parts(ss) == summary_parts(pre) + text_part(ss.last()));
        assert forall|i: int| 0 <= i < ss.len() implies #[trigger] summary_parts(ss)[i] == trim(
            str_value(member(ss[i], "text"@))->0,
        ) by {
            if i < pre.len() {
                assert(pre[i] == ss[i]);
            }
        }
    }
}

proof fn lemma_output_parts_contain(output: Seq<Json>, k: int, x: Seq<char>)
    requires
        0 <= k < output.len(),
        item_parts(output[k]).contains(x),
    ensures
        output_parts(output).contains(x),
    decreases output.len(),
{
    let pre = output.drop_last();
    let all = output_parts(output);
    assert(all == output_parts(pre) + item_parts(output.last()));
    if k < output.len() - 1 {
        assert(pre[k] == output[k]);
        lemma_output_parts_contain(pre, k, x);
        let j = choose|j: int| 0 <= j < output_parts(pre).len() && output_parts(pre)[j] == x;
        assert(all[j] == x);
    } else {
        let j = choose|j: int| 0 <= j < item_parts(output[k]).len() && item_parts(output[k])[j] == x;
        assert(all[output_parts(pre).len() + j] == x);
    }
}

proof fn lemma_reasoning_is_not_message(item: Json)
    requires
        has_type(item, "reasoning"@),
    ensures
        item_parts(item) == reasoning_parts(item),
{
    reveal_strlit("reasoning");
    reveal_strlit("message");
    assert("reasoning"@[0] != "message"@[0]);
}

/// Every non-blank text among the summary parts of a reasoning item of an
/// output is one of the texts that summary extraction collects, trimmed.
pub proof fn lemma_reasoning_summary_keeps_every_part(output: Seq<Json>, k: int)
    requires
        0 <= k < output.len(),
        has_type(output[k], "reasoning"@),
        array_value(member(output[k], "summary"@)) is Some,
    ensures
        ({
            let ss = array_value(member(output[k], "summary"@))->0;
            forall|i: int|
                0 <= i < ss.len() && nonblank_text(#[trigger] ss[i]) ==> output_parts(output).contains(
                    trim(str_value(member(ss[i], "text"@))->0),
                )
        }),
{
    let ss = array_value(member(output[k], "summary"@))->0;
    lemma_reasoning_is_not_message(output[k]);
    lemma_summary_parts_hold_every_text(ss);
    assert forall|i: int| 0 <= i < ss.len() && nonblank_text(#[trigger] ss[i]) implies output_parts(
        output,
    ).contains(trim(str_value(member(ss[i], "text"@))->0)) by {
        lemma_output_parts_contain(output, k, trim(str_value(member(ss[i], "text"@))->0));
    }
}

/// An output of one reasoning item whose summary parts all carry non-blank
/// texts gives exactly those texts, trimmed, in order.
pub proof fn lemma_reasoning_summary_texts_in_order(item: Json)
    requires
        has_type(item, "reasoning"@),
        array_value(member(item, "summary"@)) matches Some(ss) && forall|i: int|
            0 <= i < ss.len() ==> nonblank_text(#[trigger] ss[i]),
    ensures
        ({
            let ss = array_value(member(item, "summary"@))->0;
            &&& output_parts(seq![item]).len() == ss.len()
            &&& forall|i: int|
                0 <= i < ss.len() ==> #[trigger] output_parts(seq![item])[i] == trim(
                    str_value(member(ss[i], "text"@))->0,
                )
        }),
{
    let ss = array_value(member(item, "summary"@))->0;
    lemma_reasoning_is_not_message(item);
    lemma_summary_parts_of_texts(ss);
    assert(seq![item].drop_last() =~= Seq::<Json>::empty());
    assert(seq![item].last() == item);
    assert(output_parts(Seq::<Json>::empty()) == Seq::<Seq<char>>::empty());
    assert(output_parts(seq![item]) == output_parts(Seq::<Json>::empty()) + item_parts(item));
    assert(reasoning_parts(item) == summary_parts(ss));
    assert(output_parts(seq![item]) =~= summary_parts(ss));
}

/// The texts joined with `sep` between neighbours.
pub open spec fn join(parts: Seq<Seq<char>>, sep: Seq<char>) -> Seq<char>
    decreases parts.len(),
{
    if parts.len() == 0 {
        seq![]
    } else if parts.len() == 1 {
        parts[0]
    } else {
        join(parts.drop_last(), sep) + sep + parts.last()
    }
}

/// Joins the texts with `sep` between neighbours.
pub fn join_strings(parts: &Vec<String>, sep: &str) -> (r: String)
    ensures
        r@ == join(views(parts@), sep@),
{
    let mut r = owned("");
    proof {
        reveal_strlit("");
    }
    let n = parts.len();
    for i in 0..n
        invariant
            n == parts@.len(),
            r@ == join(views(parts@).take(i as int), sep@),
    {
        proof {
            let t = views(parts@).take(i + 1);
            assert(t.drop_last() =~= views(parts@).take(i as int));
        }
        if i > 0 {
            r.append(sep);
        }
        r.append(parts[i].as_str());
        proof {
            let t = views(parts@).take(i + 1);
            if i == 0 {
                assert(r@ =~= t[0]);
            }
        }
    }
    assert(views(parts@).take(n as int) =~= views(parts@));
    r
}

fn push_text_part(v: &Json, parts: &mut Vec<String>)
    ensures
        views(final(parts)@) == views(old(parts)@) + text_part(*v),
{
    let ghost before = parts@;
    match v.get("text") {
        Some(t) => match t.as_str() {
            Some(text) => {
                let trimmed = trim_str(text);
                if !trimmed.is_empty() {
                    parts.push(owned(trimmed));
                    assert(views(parts@) =~= views(before) + text_part(*v));
                    return;
                }
            },
            None => {},
        },
        None => {},
    }
    assert(views(parts@) =~= views(before) + text_part(*v));
}

/// Appends the texts of a message item.
pub fn collect_message_texts(item: &Json, parts: &mut Vec<String>)
    ensures
        views(final(parts)@) == views(old(parts)@) + message_parts(*item),
{
    let content = match item.get("content") {
        Some(c) => match c.as_array() {
            Some(a) => a,
            None => {
                push_text_part(item, parts);
                return;
            },
        },
        None => {
            push_text_part(item, parts);
            return;
        },
    };
    let ghost start = views(parts@);
    let ghost cs = content@;
    let n = content.len();
    for i in 0..n
        invariant
            n == cs.len(),
            cs == content@,
            views(parts@) == start + content_parts(cs.take(i as int)),
    {
        proof {
            assert(cs.take(i + 1).drop_last() =~= cs.take(i as int));
        }
        let part = &content[i];
        let ghost mid = views(parts@);
        if is_str(part.get("type"), "output_text") || is_str(part.get("type"), "text") {
            push_text_part(part, parts);
        }
        proof {
            assert(views(parts@) =~= start + content_parts(cs.take(i + 1)));
        }
    }
    assert(cs.take(n as int) =~= cs);
}

/// Appends the texts of a reasoning item's summary.
pub fn collect_reasoning_texts(item: &Json, parts: &mut Vec<String>)
    ensures
        views(final(parts)@) == views(old(parts)@) + reasoning_parts(*item),
{
    let summary = match item.get("summary") {
        Some(s) => match s.as_array() {
            Some(a) => a,
            None => {
                assert(views(parts@) =~= views(parts@) + reasoning_parts(*item));
                return;
            },
        },
        None => {
            assert(views(parts@) =~= views(parts@) + reasoning_parts(*item));
            return;
        },
    };
    let ghost start = views(parts@);
    let ghost ss = summary@;
    let n = summary.len();
    for i in 0..n
        invariant
            n == ss.len(),
            ss == summary@,
            views(parts@) == start + summary_parts(ss.take(i as int)),
    {
        proof {
            assert(ss.take(i + 1).drop_last() =~= ss.take(i as int));
        }
        push_text_part(&summary[i], parts);
        proof {
            assert(views(parts@) =~= start + summary_parts(ss.take(i + 1)));
        }
    }
    assert(ss.take(n as int) =~= ss);
}

fn collect_item_texts(item: &Json, parts: &mut Vec<String>)
    ensures
        views(final(parts)@) == views(old(parts)@) + item_parts(*item),
{
    if is_str(item.get("type"), "message") {
        collect_message_texts(item, parts);
    } else if is_str(item.get("type"), "reasoning") {
        collect_reasoning_texts(item, parts);
    } else {
        push_text_part(item, parts);
    }
}

/// The assistant-visible text of a Responses `output` array: the texts of
/// its items, joined by blank lines.
pub fn extract_summary_text_from_responses_output(output: &[Json]) -> (r: String)
    ensures
        r@ == join(output_parts(output@), "\n\n"@),
{
    let mut parts: Vec<String> = Vec::new();
    let n = output.len();
    for i in 0..n
        invariant
            n == output@.len(),
            views(parts@) == output_parts(output@.take(i as int)),
    {
        proof {
            assert(output@.take(i + 1).drop_last() =~= output@.take(i as int));
        }
        collect_item_texts(&output[i], &mut parts);
        proof {
            assert(views(parts@) =~= output_parts(output@.take(i + 1)));
        }
    }
    proof {
        assert(output@.take(n as int) =~= output@);
        assert(views(parts@) =~= output_parts(output@.take(0)) + output_parts(output@)) by {
            assert(output_parts(output@.take(0)) =~= Seq::<Seq<char>>::empty());
        }
    }
    join_strings(&parts, "\n\n")
}


/// `item` is the compaction item for `encrypted` in response `response_id`:
/// exactly `id` (`{response_id}_compact`), `type` (`compaction`) and
/// `encrypted_content`.
pub open spec fn is_compaction_item_for(item: Json, encrypted: Seq<char>, response_id: Seq<char>) -> bool {
    let m = object_view(item);
    &&& item is Object
    &&& m.dom() == set!["id"@, "type"@, "encrypted_content"@]
    &&& str_value(map_get(m, "id"@)) == Some(response_id + "_compact"@)
    &&& str_value(map_get(m, "type"@)) == Some("compaction"@)
    &&& str_value(map_get(m, "encrypted_content"@)) == Some(encrypted)
}

proof fn lemma_item_keys_distinct()
    ensures
        "id"@ != "type"@,
        "id"@ != "encrypted_content"@,
        "type"@ != "encrypted_content"@,
{
    reveal_strlit("id");
    reveal_strlit("type");
    reveal_strlit("encrypted_content");
    assert("id"@.len() == 2);
    assert("type"@.len() == 4);
    assert("encrypted_content"@.len() == 17);
}

proof fn lemma_response_keys_distinct()
    ensures
        "output"@ != "object"@,
        "output"@ != "status"@,
        "object"@ != "status"@,
{
    reveal_strlit("output");
    reveal_strlit("object");
    reveal_strlit("status");
    assert("output"@[1] != "object"@[1]);
    assert("output"@[0] != "status"@[0]);
    assert("object"@[0] != "status"@[0]);
}

/// The compaction output item for `encrypted_content` in response
/// `response_id`.
pub fn build_compaction_output_item(encrypted_content: &str, response_id: &str) -> (r: Json)
    ensures
        is_compaction_item_for(r, encrypted_content@, response_id@),
        crate::json::float_free(r),
{
    let mut id = owned(response_id);
    id.append("_compact");
    let id_value = Json::String(id);
    let type_value = string_value("compaction");
    let content_value = string_value(encrypted_content);
    let ghost (iv, tv, cv) = (id_value, type_value, content_value);
    let mut m = JsonMap::new();
    m.insert(owned("id"), id_value);
    m.insert(owned("type"), type_value);
    m.insert(owned("encrypted_content"), content_value);
    proof {
        lemma_item_keys_distinct();
        assert(m@["id"@] == iv);
        assert(m@["type"@] == tv);
        assert(m@["encrypted_content"@] == cv);
        assert(m@.dom() =~= set!["id"@, "type"@, "encrypted_content"@]);
        use_type_invariant(&m);
        assert forall|k: Seq<char>| #[trigger] m@.contains_key(k) implies crate::json::float_free(m@[k]) by {
            lemma_float_free_scalar(m@[k]);
        }
        lemma_float_free_object(m);
    }
    Json::Object(m)
}

/// The `output` array of a response body, or no items.
pub open spec fn output_items(body: Json) -> Seq<Json> {
    match array_value(member(body, "output"@)) {
        Some(a) => a,
        None => seq![],
    }
}

/// The identifier a synthesized item is named after: the body's `id`
/// string unless it is blank, else `resp_compact`.
pub open spec fn response_id_of(body: Json) -> Seq<char> {
    match str_value(member(body, "id"@)) {
        Some(i) => if trim(i).len() > 0 {
            i
        } else {
            "resp_compact"@
        },
        None => "resp_compact"@,
    }
}

/// The body's `object` is absent, not a string, or `response`: then it is
/// marked a completed response.  A legacy `response.compaction` stays.
pub open spec fn marks_completed(body: Json) -> bool {
    match str_value(member(body, "object"@)) {
        Some(o) => o == "response"@,
        None => true,
    }
}

/// The summary that synthesis wraps: the texts of the output items joined
/// by blank lines.
pub open spec fn synthesis_summary(body: Json) -> Seq<char> {
    join(output_parts(output_items(body)), "\n\n"@)
}

/// What synthesizing does to the response body `before` when it applies:
/// `output` becomes exactly one compaction item whose envelope carries the
/// summary, `object` and `status` are set to `response` and `completed`
/// where the body is a plain response, and nothing else changes.
pub open spec fn synthesized(before: Json, after: Json, model: Seq<char>) -> bool {
    let mb = object_view(before);
    let ma = object_view(after);
    &&& after is Object
    &&& ma.remove("output"@).remove("object"@).remove("status"@) == mb.remove("output"@).remove(
        "object"@,
    ).remove("status"@)
    &&& array_value(map_get(ma, "output"@)) matches Some(items) && items.len() == 1 && exists|
        enc: Seq<char>,
    |
        #![trigger is_envelope_of(enc, synthesis_summary(before), model)]
        is_compaction_item_for(items[0], enc, response_id_of(before)) && is_envelope_of(
            enc,
            synthesis_summary(before),
            model,
        ) && decoded_summary(enc) == Some(trim(synthesis_summary(before)))
    &&& if marks_completed(before) {
        &&& str_value(map_get(ma, "object"@)) == Some("response"@)
        &&& str_value(map_get(ma, "status"@)) == Some("completed"@)
    } else {
        &&& map_get(ma, "object"@) == map_get(mb, "object"@)
        &&& map_get(ma, "status"@) == map_get(mb, "status"@)
    }
}

/// Synthesis leaves the body alone: it is not an object, or its output
/// already holds a native compaction item.
pub open spec fn keeps_body(body: Json) -> bool {
    ||| !(body is Object)
    ||| exists|i: int|
        0 <= i < output_items(body).len() && is_compaction_item(#[trigger] output_items(body)[i])
}

/// The error text of a synthesis whose summary is empty.
pub open spec fn empty_summary_message() -> Seq<char> {
    "compact synthesis produced an empty summary"@
}

/// What synthesis with model `model` does to the client body `before`,
/// once it is on for a compact operation: `after` and the result `r`.
pub open spec fn synthesis_outcome(
    before: Json,
    after: Json,
    r: Result<bool, String>,
    model: Seq<char>,
) -> bool {
    if keeps_body(before) {
        r == Ok::<bool, String>(false) && after == before
    } else if trim(synthesis_summary(before)).len() == 0 {
        err_text(r, empty_summary_message()) && after == before
    } else {
        r == Ok::<bool, String>(true) && synthesized(before, after, model)
    }
}

/// When synthesis is on for a compact operation and the converted client
/// body is an object without a native compaction item, replaces `output`
/// with exactly one synthesized compaction item.  Returns whether it did; an
/// empty summary is an error and leaves the body alone.
pub fn synthesize_compaction_client_response(
    client_body: &mut Json,
    model: &str,
    synthesis_enabled: bool,
    is_compact_operation: bool,
) -> (r: Result<bool, String>)
    ensures
        if !synthesis_enabled || !is_compact_operation {
            r == Ok::<bool, String>(false) && *final(client_body) == *old(client_body)
        } else {
            synthesis_outcome(*old(client_body), *final(client_body), r, model@)
        },
{
    if !synthesis_enabled || !is_compact_operation {
        return Ok(false);
    }
    let ghost before = *client_body;
    let (summary, response_id, mark) = match &*client_body {
        Json::Object(object) => {
            let empty: Vec<Json> = Vec::new();
            let output: &[Json] = match object.get("output") {
                Some(Json::Array(a)) => a.as_slice(),
                _ => empty.as_slice(),
            };
            assert(output@ == output_items(before));
            if responses_output_has_compaction_item(output) {
                return Ok(false);
            }
            let summary = extract_summary_text_from_responses_output(output);
            if trim_str(summary.as_str()).is_empty() {
                return Err(owned("compact synthesis produced an empty summary"));
            }
            let response_id = match object.get("id") {
                Some(Json::String(s)) => {
                    if trim_str(s.as_str()).is_empty() {
                        owned("resp_compact")
                    } else {
                        owned(s.as_str())
                    }
                },
                _ => owned("resp_compact"),
            };
            let mark = match object.get("object") {
                Some(Json::String(o)) => str_eq(o.as_str(), "response"),
                _ => true,
            };
            (summary, response_id, mark)
        },
        _ => return Ok(false),
    };
    let encrypted = encode_compact_synthesis_encrypted_content(summary.as_str(), model);
    let item = build_compaction_output_item(encrypted.as_str(), response_id.as_str());
    let mut items: Vec<Json> = Vec::new();
    items.push(item);
    let ghost enc = encrypted@;
    match client_body {
        Json::Object(object) => {
            let ghost mb = object@;
            object.insert(owned("output"), Json::Array(items));
            if mark {
                object.insert(owned("object"), string_value("response"));
                object.insert(owned("status"), string_value("completed"));
            }
            proof {
                lemma_response_keys_distinct();
                assert(object@.remove("output"@).remove("object"@).remove("status"@) =~= mb.remove(
                    "output"@,
                ).remove("object"@).remove("status"@));
            }
        },
        _ => {},
    }
    proof {
        assert(is_envelope_of(enc, synthesis_summary(before), model@));
    }
    Ok(true)
}


/// A blob without the envelope prefix, such as native OpenAI ciphertext,
/// carries no summary.
pub proof fn lemma_foreign_blobs_are_not_decoded(encrypted: Seq<char>)
    requires
        !has_prefix(encrypted, AETHER_COMPACT_SYNTHESIS_PREFIX@),
    ensures
        decoded_summary(encrypted) is None,
{
}

/// A synthesized body holds a native compaction item, so synthesizing it
/// again leaves it alone.
pub proof fn lemma_synthesis_is_idempotent(before: Json, after: Json, model: Seq<char>)
    requires
        synthesized(before, after, model),
    ensures
        keeps_body(after),
{
    let ma = object_view(after);
    let items = array_value(map_get(ma, "output"@))->0;
    let enc = choose|enc: Seq<char>|
        #![trigger is_envelope_of(enc, synthesis_summary(before), model)]
        is_compaction_item_for(items[0], enc, response_id_of(before)) && is_envelope_of(
            enc,
            synthesis_summary(before),
            model,
        ) && decoded_summary(enc) == Some(trim(synthesis_summary(before)));
    reveal_strlit("aether_compact_v1:");
    let p = AETHER_COMPACT_SYNTHESIS_PREFIX@;
    assert(has_prefix(enc, p));
    assert(enc[0] == p[0]);
    crate::text::lemma_trim_nonblank_start(enc);
    assert(output_items(after) == items);
    assert(is_compaction_item(output_items(after)[0]));
}

/// The `input` array of a request body, if it has one.
pub open spec fn input_items(body: Json) -> Option<Seq<Json>> {
    array_value(member(body, "input"@))
}

/// The summary that a replayed history item carries: a `compaction` item
/// whose `encrypted_content` is an envelope of this library.
pub open spec fn item_summary(item: Json) -> Option<Seq<char>> {
    if has_type(item, "compaction"@) {
        match str_value(member(item, "encrypted_content"@)) {
            Some(c) => decoded_summary(c),
            None => None,
        }
    } else {
        None
    }
}

/// The summaries that the history items carry, in order.
pub open spec fn history_summaries(items: Seq<Json>) -> Seq<Seq<char>>
    decreases items.len(),
{
    if items.len() == 0 {
        seq![]
    } else {
        history_summaries(items.drop_last()) + match item_summary(items.last()) {
            Some(s) => seq![s],
            None => seq![],
        }
    }
}

/// The items that carry no summary, in order.
pub open spec fn kept_items(items: Seq<Json>) -> Seq<Json>
    decreases items.len(),
{
    if items.len() == 0 {
        seq![]
    } else {
        kept_items(items.drop_last()) + if item_summary(items.last()) is None {
            seq![items.last()]
        } else {
            seq![]
        }
    }
}

/// The block of instructions that restores the summaries.
pub open spec fn summary_block(summaries: Seq<Seq<char>>) -> Seq<char> {
    CONVERSATION_SUMMARY_HEADING@ + "\n"@ + join(summaries, "\n\n"@)
}

/// The instructions after expansion: the block, followed by a blank line
/// and the previous instructions when those were a string that is not
/// blank.
pub open spec fn expanded_instructions(block: Seq<char>, previous: Option<Json>) -> Seq<char> {
    match str_value(previous) {
        Some(e) => if trim(e).len() > 0 {
            block + "\n\n"@ + e
        } else {
            block
        },
        None => block,
    }
}

/// What expanding history does to the request body `before`: when its
/// `input` array holds items with envelopes, those items leave `input` and
/// their summaries go in front of `instructions`; otherwise nothing changes.
pub open spec fn expand_outcome(before: Json, after: Json, r: bool) -> bool {
    match input_items(before) {
        Some(items) => if history_summaries(items).len() == 0 {
            !r && after == before
        } else {
            &&& r
            &&& after is Object
            &&& object_view(after).remove("input"@).remove("instructions"@) == object_view(
                before,
            ).remove("input"@).remove("instructions"@)
            &&& input_items(after) == Some(kept_items(items))
            &&& str_value(member(after, "instructions"@)) == Some(
                expanded_instructions(
                    summary_block(history_summaries(items)),
                    member(before, "instructions"@),
                ),
            )
        },
        None => !r && after == before,
    }
}

fn item_summary_exec(item: &Json) -> (r: Option<String>)
    ensures
        match r {
            Some(s) => item_summary(*item) == Some(s@),
            None => item_summary(*item) is None,
        },
{
    if !is_str(item.get("type"), "compaction") {
        return None;
    }
    match item.get("encrypted_content") {
        Some(c) => match c.as_str() {
            Some(t) => decode_compact_synthesis_encrypted_content(t),
            None => None,
        },
        None => None,
    }
}

fn expand_synthetic_compaction_history(body: &mut Json) -> (r: bool)
    ensures
        expand_outcome(*old(body), *final(body), r),
{
    let ghost before = *body;
    let object = match body {
        Json::Object(o) => o,
        _ => return false,
    };
    let ghost mb = object@;
    let n = match object.get("input") {
        Some(Json::Array(items)) => items.len(),
        _ => return false,
    };
    // First pass: which items carry a summary.
    let mut summaries: Vec<String> = Vec::new();
    let mut carries: Vec<bool> = Vec::new();
    match object.get("input") {
        Some(Json::Array(items)) => {
            let ghost a = items@;
            for i in 0..n
                invariant
                    n == a.len(),
                    a == items@,
                    carries@.len() == i,
                    views(summaries@) == history_summaries(a.take(i as int)),
                    forall|j: int| 0 <= j < i ==> #[trigger] carries@[j] == (item_summary(a[j]) is Some),
            {
                proof {
                    assert(a.take(i + 1).drop_last() =~= a.take(i as int));
                }
                match item_summary_exec(&items[i]) {
                    Some(s) => {
                        summaries.push(s);
                        carries.push(true);
                    },
                    None => {
                        carries.push(false);
                    },
                }
                proof {
                    assert(views(summaries@) =~= history_summaries(a.take(i + 1)));
                }
            }
            proof {
                assert(a.take(n as int) =~= a);
            }
        },
        _ => {},
    }
    if summaries.len() == 0 {
        return false;
    }
    // Second pass: keep the items without a summary.
    let items = match object.remove("input") {
        Some(Json::Array(items)) => items,
        _ => {
            return false;
        },
    };
    let ghost a = items@;
    let mut retained: Vec<Json> = Vec::new();
    let mut rest = items;
    let mut i: usize = 0;
    while i < n
        invariant
            n == a.len(),
            carries@.len() == n,
            i <= n,
            rest@ == a.skip(i as int),
            retained@ == kept_items(a.take(i as int)),
            forall|j: int| 0 <= j < n ==> #[trigger] carries@[j] == (item_summary(a[j]) is Some),
        decreases n - i,
    {
        proof {
            assert(a.take(i + 1).drop_last() =~= a.take(i as int));
        }
        let item = rest.remove(0);
        if !carries[i] {
            retained.push(item);
        }
        proof {
            assert(rest@ =~= a.skip(i + 1));
            assert(retained@ =~= kept_items(a.take(i + 1)));
        }
        i = i + 1;
    }
    proof {
        assert(a.take(n as int) =~= a);
    }
    let mut block = owned(CONVERSATION_SUMMARY_HEADING);
    block.append("\n");
    let joined = join_strings(&summaries, "\n\n");
    block.append(joined.as_str());
    let instructions = match object.get("instructions") {
        Some(Json::String(existing)) => {
            if trim_str(existing.as_str()).is_empty() {
                block
            } else {
                let mut text = block;
                text.append("\n\n");
                text.append(existing.as_str());
                text
            }
        },
        _ => block,
    };
    object.insert(owned("input"), Json::Array(retained));
    object.insert(owned("instructions"), Json::String(instructions));
    proof {
        reveal_strlit("input");
        reveal_strlit("instructions");
        assert("input"@.len() == 5);
        assert("instructions"@.len() == 12);
        assert(object@.remove("input"@).remove("instructions"@) =~= mb.remove("input"@).remove(
            "instructions"@,
        ));
    }
    true
}


/// A control item that cross-format conversion cannot carry:
/// `compaction_trigger`, or a residual `compaction` history item.
pub open spec fn is_control_item(item: Json) -> bool {
    has_type(item, "compaction_trigger"@) || has_type(item, "compaction"@)
}

/// The items that are not control items, in order.
pub open spec fn without_control_items(items: Seq<Json>) -> Seq<Json>
    decreases items.len(),
{
    if items.len() == 0 {
        seq![]
    } else {
        without_control_items(items.drop_last()) + if is_control_item(items.last()) {
            seq![]
        } else {
            seq![items.last()]
        }
    }
}

/// What stripping control items does to the request body `before`: the
/// control items leave its `input` array, and nothing else changes.
pub open spec fn strip_outcome(before: Json, after: Json, r: bool) -> bool {
    match input_items(before) {
        Some(items) => if exists|i: int| 0 <= i < items.len() && is_control_item(#[trigger] items[i]) {
            &&& r
            &&& after is Object
            &&& object_view(after).remove("input"@) == object_view(before).remove("input"@)
            &&& input_items(after) == Some(without_control_items(items))
        } else {
            !r && after == before
        },
        None => !r && after == before,
    }
}

proof fn lemma_without_control_items(items: Seq<Json>)
    ensures
        forall|i: int|
            0 <= i < without_control_items(items).len() ==> !is_control_item(
                #[trigger] without_control_items(items)[i],
            ),
        forall|i: int|
            0 <= i < without_control_items(items).len() ==> exists|j: int|
                0 <= j < items.len() && items[j] == #[trigger] without_control_items(items)[i],
    decreases items.len(),
{
    if items.len() > 0 {
        lemma_without_control_items(items.drop_last());
        let w = without_control_items(items);
        let p = without_control_items(items.drop_last());
        assert forall|i: int| 0 <= i < w.len() implies exists|j: int|
            0 <= j < items.len() && items[j] == #[trigger] w[i] by {
            if i < p.len() {
                assert(w[i] == p[i]);
                let j = choose|j: int| 0 <= j < items.drop_last().len() && items.drop_last()[j] == p[i];
                assert(items[j] == w[i]);
            } else {
                assert(items[items.len() - 1] == w[i]);
            }
        }
    }
}

fn is_control_item_exec(item: &Json) -> (r: bool)
    ensures
        r == is_control_item(*item),
{
    is_str(item.get("type"), "compaction_trigger") || is_str(item.get("type"), "compaction")
}

/// Removes `compaction_trigger` items, which fail lossy cross-format
/// validation, and residual `compaction` items that were not expanded
/// (native OpenAI blobs).  Returns whether anything was removed.
fn strip_compact_control_items(body: &mut Json) -> (r: bool)
    ensures
        strip_outcome(*old(body), *final(body), r),
{
    let object = match body {
        Json::Object(o) => o,
        _ => return false,
    };
    let ghost mb = object@;
    let n = match object.get("input") {
        Some(Json::Array(items)) => {
            let n = items.len();
            let mut found = false;
            for i in 0..n
                invariant
                    n == items@.len(),
                    found == exists|j: int| 0 <= j < i && is_control_item(#[trigger] items@[j]),
            {
                if is_control_item_exec(&items[i]) {
                    found = true;
                }
            }
            if !found {
                return false;
            }
            n
        },
        _ => return false,
    };
    let items = match object.remove("input") {
        Some(Json::Array(items)) => items,
        _ => return false,
    };
    let ghost a = items@;
    let mut retained: Vec<Json> = Vec::new();
    let mut rest = items;
    let mut i: usize = 0;
    while i < n
        invariant
            n == a.len(),
            i <= n,
            rest@ == a.skip(i as int),
            retained@ == without_control_items(a.take(i as int)),
        decreases n - i,
    {
        proof {
            assert(a.take(i + 1).drop_last() =~= a.take(i as int));
        }
        let item = rest.remove(0);
        if !is_control_item_exec(&item) {
            retained.push(item);
        }
        proof {
            assert(rest@ =~= a.skip(i + 1));
            assert(retained@ =~= without_control_items(a.take(i + 1)));
        }
        i = i + 1;
    }
    proof {
        assert(a.take(n as int) =~= a);
    }
    object.insert(owned("input"), Json::Array(retained));
    proof {
        assert(object@.remove("input"@) =~= mb.remove("input"@));
    }
    true
}

/// The marker that identifies the summarization prompt.
pub open spec fn prompt_marker() -> Seq<char> {
    "CONTEXT CHECKPOINT COMPACTION"@
}

/// An input item already carries the summarization prompt: some `text` of
/// its content array, its content string, or (without either) its own
/// `text` contains the marker.
pub open spec fn carries_prompt(item: Json) -> bool {
    match member(item, "content"@) {
        Some(Json::Array(parts)) => exists|i: int|
            0 <= i < parts@.len() && match str_value(member(#[trigger] parts@[i], "text"@)) {
                Some(t) => contains_seq(t, prompt_marker()),
                None => false,
            },
        Some(Json::String(t)) => contains_seq(t@, prompt_marker()),
        _ => match str_value(member(item, "text"@)) {
            Some(t) => contains_seq(t, prompt_marker()),
            None => false,
        },
    }
}

fn text_has_marker(v: Option<&Json>) -> (r: bool)
    ensures
        r == match str_value(crate::json::deref_opt(v)) {
            Some(t) => contains_seq(t, prompt_marker()),
            None => false,
        },
{
    match v {
        Some(x) => match x.as_str() {
            Some(t) => str_contains(t, "CONTEXT CHECKPOINT COMPACTION"),
            None => false,
        },
        None => false,
    }
}

/// Whether an input item already carries the summarization prompt.
fn input_item_contains_compact_summarization_prompt(item: &Json) -> (r: bool)
    ensures
        r == carries_prompt(*item),
{
    match item.get("content") {
        Some(Json::Array(parts)) => {
            let n = parts.len();
            for i in 0..n
                invariant
                    n == parts@.len(),
                    member(*item, "content"@) == Some(Json::Array(*parts)),
                    forall|j: int|
                        0 <= j < i ==> !match str_value(member(#[trigger] parts@[j], "text"@)) {
                            Some(t) => contains_seq(t, prompt_marker()),
                            None => false,
                        },
            {
                if text_has_marker(parts[i].get("text")) {
                    proof {
                        let j = i as int;
                        assert(0 <= j < parts@.len() && match str_value(member(parts@[j], "text"@)) {
                            Some(t) => contains_seq(t, prompt_marker()),
                            None => false,
                        });
                    }
                    return true;
                }
            }
            false
        },
        Some(Json::String(t)) => str_contains(t.as_str(), "CONTEXT CHECKPOINT COMPACTION"),
        _ => text_has_marker(item.get("text")),
    }
}

/// `item` is the summarization request: a user message whose only content
/// part is the prompt as `input_text`.
pub open spec fn is_summarization_message(item: Json) -> bool {
    let m = object_view(item);
    &&& item is Object
    &&& m.dom() == set!["type"@, "role"@, "content"@]
    &&& str_value(map_get(m, "type"@)) == Some("message"@)
    &&& str_value(map_get(m, "role"@)) == Some("user"@)
    &&& array_value(map_get(m, "content"@)) matches Some(parts) && parts.len() == 1 && {
        let pm = object_view(parts[0]);
        &&& parts[0] is Object
        &&& pm.dom() == set!["type"@, "text"@]
        &&& str_value(map_get(pm, "type"@)) == Some("input_text"@)
        &&& str_value(map_get(pm, "text"@)) == Some(COMPACT_SUMMARIZATION_PROMPT@)
    }
}

/// The prompt contains its marker.
pub proof fn lemma_prompt_carries_marker()
    ensures
        contains_seq(COMPACT_SUMMARIZATION_PROMPT@, prompt_marker()),
{
    reveal_strlit("You are performing a CONTEXT CHECKPOINT COMPACTION. Create a handoff summary for another LLM that will resume the task.\n\nInclude:\n- Current progress and key decisions made\n- Important context, constraints, or user preferences\n- What remains to be done (clear next steps)\n- Any critical data, examples, or references needed to continue\n\nBe concise, structured, and focused on helping the next LLM seamlessly continue the work.\n");
    reveal_strlit("CONTEXT CHECKPOINT COMPACTION");
    assert(COMPACT_SUMMARIZATION_PROMPT@.subrange(21, 21 + prompt_marker().len() as int) =~= prompt_marker());
}

/// A summarization message carries the prompt.
pub proof fn lemma_summarization_message_carries_prompt(item: Json)
    requires
        is_summarization_message(item),
    ensures
        carries_prompt(item),
        !is_control_item(item),
{
    lemma_prompt_carries_marker();
    reveal_strlit("message");
    reveal_strlit("compaction");
    reveal_strlit("compaction_trigger");
    assert("message"@[0] != "compaction"@[0]);
    assert("message"@[0] != "compaction_trigger"@[0]);
    let parts = array_value(member(item, "content"@))->0;
    assert(str_value(member(parts[0], "text"@)) == Some(COMPACT_SUMMARIZATION_PROMPT@));
}

fn summarization_message() -> (r: Json)
    ensures
        is_summarization_message(r),
{
    let mut part = JsonMap::new();
    let tv = string_value("input_text");
    let pv = string_value(COMPACT_SUMMARIZATION_PROMPT);
    let ghost (tv0, pv0) = (tv, pv);
    part.insert(owned("type"), tv);
    part.insert(owned("text"), pv);
    let mut parts: Vec<Json> = Vec::new();
    let ghost pm = part@;
    parts.push(Json::Object(part));
    let mut message = JsonMap::new();
    let mv = string_value("message");
    let rv = string_value("user");
    let ghost (mv0, rv0) = (mv, rv);
    let ghost cv0 = Json::Array(parts);
    message.insert(owned("type"), mv);
    message.insert(owned("role"), rv);
    message.insert(owned("content"), Json::Array(parts));
    proof {
        reveal_strlit("type");
        reveal_strlit("text");
        reveal_strlit("role");
        reveal_strlit("content");
        assert("type"@[1] != "text"@[1]);
        assert("type"@.len() != "content"@.len());
        assert("role"@.len() != "content"@.len());
        assert("type"@[0] != "role"@[0]);
        assert(pm["type"@] == tv0);
        assert(pm["text"@] == pv0);
        assert(pm.dom() =~= set!["type"@, "text"@]);
        assert(message@["type"@] == mv0);
        assert(message@["role"@] == rv0);
        assert(message@.dom() =~= set!["type"@, "role"@, "content"@]);
    }
    Json::Object(message)
}

/// What ensuring the summarization message does to the request body
/// `before`: unless an input item already carries the prompt, or `input` is
/// something other than an array, the message is appended to `input`
/// (created when absent); nothing else changes.
pub open spec fn ensure_outcome(before: Json, after: Json, r: bool) -> bool {
    if !(before is Object) {
        !r && after == before
    } else {
        match member(before, "input"@) {
            None => {
                &&& r
                &&& after is Object
                &&& object_view(after).remove("input"@) == object_view(before)
                &&& input_items(after) matches Some(items) && items.len() == 1
                    && is_summarization_message(items[0])
            },
            Some(Json::Array(items)) => if exists|i: int|
                0 <= i < items@.len() && carries_prompt(#[trigger] items@[i]) {
                !r && after == before
            } else {
                &&& r
                &&& after is Object
                &&& object_view(after).remove("input"@) == object_view(before).remove("input"@)
                &&& input_items(after) matches Some(new_items) && new_items.len() == items@.len()
                    + 1 && new_items.take(items@.len() as int) == items@
                    && is_summarization_message(new_items.last())
            },
            Some(_) => !r && after == before,
        }
    }
}

/// Appends Codex's local-compaction summarization prompt as the last user
/// message of `input`, unless an item already carries it.
fn any_item_carries_prompt(items: &Vec<Json>) -> (r: bool)
    ensures
        r == exists|i: int| 0 <= i < items@.len() && carries_prompt(#[trigger] items@[i]),
{
    let n = items.len();
    for i in 0..n
        invariant
            n == items@.len(),
            forall|j: int| 0 <= j < i ==> !carries_prompt(#[trigger] items@[j]),
    {
        if input_item_contains_compact_summarization_prompt(&items[i]) {
            return true;
        }
    }
    false
}

fn ensure_compact_summarization_user_message(body: &mut Json) -> (r: bool)
    ensures
        ensure_outcome(*old(body), *final(body), r),
{
    match &*body {
        Json::Object(o) => match o.get("input") {
            Some(Json::Array(items)) => {
                if any_item_carries_prompt(items) {
                    return false;
                }
            },
            Some(_) => return false,
            None => {},
        },
        _ => return false,
    }
    let object = match body {
        Json::Object(o) => o,
        _ => return false,
    };
    let ghost mb = object@;
    let mut items = match object.remove("input") {
        Some(Json::Array(items)) => items,
        _ => Vec::new(),
    };
    let ghost old_items = items@;
    items.push(summarization_message());
    proof {
        assert(items@.take(old_items.len() as int) =~= old_items);
    }
    object.insert(owned("input"), Json::Array(items));
    proof {
        assert(object@.remove("input"@) =~= mb.remove("input"@));
        if !mb.contains_key("input"@) {
            assert(mb.remove("input"@) =~= mb);
        }
    }
    true
}

/// The request keys that carry tools.
pub open spec fn is_tool_key(k: Seq<char>) -> bool {
    k == "tools"@ || k == "tool_choice"@ || k == "functions"@ || k == "function_call"@
}

/// What stripping tools does to the request body `before`: the tool keys
/// leave it, and the result says whether any was there.
pub open spec fn tools_outcome(before: Json, after: Json, r: bool) -> bool {
    if !(before is Object) {
        !r && after == before
    } else {
        &&& after is Object
        &&& object_view(after) == object_view(before).remove("tools"@).remove("tool_choice"@).remove(
            "functions"@,
        ).remove("function_call"@)
        &&& r == exists|k: Seq<char>| is_tool_key(k) && #[trigger] object_view(before).contains_key(k)
        &&& !r ==> after == before
    }
}

/// Removes the tools, so that summarization runs without them (Codex's
/// compact prompt has no tools either).  Returns whether any was there.
fn strip_tools_for_compact_summarization(body: &mut Json) -> (r: bool)
    ensures
        tools_outcome(*old(body), *final(body), r),
{
    let object = match body {
        Json::Object(o) => o,
        _ => return false,
    };
    let ghost mb = object@;
    let a = object.remove("tools").is_some();
    let b = object.remove("tool_choice").is_some();
    let c = object.remove("functions").is_some();
    let d = object.remove("function_call").is_some();
    proof {
        assert(object_view(*old(body)) == mb);
        reveal_strlit("tools");
        reveal_strlit("tool_choice");
        reveal_strlit("functions");
        reveal_strlit("function_call");
        assert("tools"@.len() == 5);
        assert("tool_choice"@.len() == 11);
        assert("functions"@.len() == 9);
        assert("function_call"@.len() == 13);
        if exists|k: Seq<char>| is_tool_key(k) && #[trigger] mb.contains_key(k) {
            let k = choose|k: Seq<char>| is_tool_key(k) && #[trigger] mb.contains_key(k);
            assert(a || b || c || d);
        }
        if a {
            assert(is_tool_key("tools"@) && mb.contains_key("tools"@));
        }
        if b {
            assert(is_tool_key("tool_choice"@) && mb.contains_key("tool_choice"@));
        }
        if c {
            assert(is_tool_key("functions"@) && mb.contains_key("functions"@));
        }
        if d {
            assert(is_tool_key("function_call"@) && mb.contains_key("function_call"@));
        }
    }
    a || b || c || d
}


/// What preparing does to the request body `before`: history expansion
/// always; with synthesis on for a compact turn, then stripping control
/// items, ensuring the summarization message and stripping tools.  The
/// result says whether any step changed the body.
pub open spec fn prepare_outcome(
    before: Json,
    after: Json,
    synthesis_enabled: bool,
    is_compact_operation: bool,
    r: bool,
) -> bool {
    exists|b1: Json, r1: bool|
        #[trigger] expand_outcome(before, b1, r1) && if synthesis_enabled && is_compact_operation {
            exists|b2: Json, b3: Json, r2: bool, r3: bool, r4: bool|
                #[trigger] strip_outcome(b1, b2, r2) && #[trigger] ensure_outcome(b2, b3, r3)
                    && #[trigger] tools_outcome(b3, after, r4) && r == (r1 || r2 || r3 || r4)
        } else {
            after == b1 && r == r1
        }
}

/// Prepares a client Responses body for compact synthesis before
/// cross-format conversion.  History expansion runs even with synthesis off,
/// so that earlier envelopes stay readable on replay.  Returns whether the
/// body changed.
pub fn prepare_compact_synthesis_provider_request(
    body: &mut Json,
    synthesis_enabled: bool,
    is_compact_operation: bool,
) -> (r: bool)
    ensures
        prepare_outcome(*old(body), *final(body), synthesis_enabled, is_compact_operation, r),
        synthesis_enabled && is_compact_operation ==> {
            &&& !object_view(*final(body)).contains_key("tools"@)
            &&& !object_view(*final(body)).contains_key("tool_choice"@)
            &&& !object_view(*final(body)).contains_key("functions"@)
            &&& !object_view(*final(body)).contains_key("function_call"@)
        },
        input_items(*old(body)) is Some && history_summaries(input_items(*old(body))->0).len() > 0
            && str_value(member(*old(body), "instructions"@)) is Some && trim(
            str_value(member(*old(body), "instructions"@))->0,
        ).len() > 0 ==> str_value(member(*final(body), "instructions"@)) == Some(
            summary_block(history_summaries(input_items(*old(body))->0)) + "\n\n"@ + str_value(
                member(*old(body), "instructions"@),
            )->0,
        ),
{
    let ghost b0 = *body;
    let mut changed = expand_synthetic_compaction_history(body);
    let ghost b1 = *body;
    let ghost r1 = changed;
    if synthesis_enabled && is_compact_operation {
        let r2 = strip_compact_control_items(body);
        let ghost b2 = *body;
        let r3 = ensure_compact_summarization_user_message(body);
        let ghost b3 = *body;
        let r4 = strip_tools_for_compact_summarization(body);
        if r2 {
            changed = true;
        }
        if r3 {
            changed = true;
        }
        if r4 {
            changed = true;
        }
        proof {
            assert(strip_outcome(b1, b2, r2) && ensure_outcome(b2, b3, r3) && tools_outcome(b3, *body, r4));
            assert(expand_outcome(b0, b1, r1));
        }
    } else {
        proof {
            assert(expand_outcome(b0, b1, r1));
        }
    }
    proof {
        let ghost after = *body;
        assert(prepare_outcome(b0, after, synthesis_enabled, is_compact_operation, changed));
        if synthesis_enabled && is_compact_operation {
            lemma_prepared_compact_body_has_no_tools(b0, after, changed);
        }
        if input_items(b0) matches Some(items) && history_summaries(items).len() > 0 {
            if str_value(member(b0, "instructions"@)) matches Some(e) && trim(e).len() > 0 {
                lemma_prepared_body_keeps_instructions(
                    b0,
                    after,
                    synthesis_enabled,
                    is_compact_operation,
                    changed,
                );
            }
        }
    }
    changed
}

/// Preparing a compact turn with synthesis on leaves none of the tool keys
/// in the body, so the summarization request runs without tools.
pub proof fn lemma_prepared_compact_body_has_no_tools(before: Json, after: Json, r: bool)
    requires
        prepare_outcome(before, after, true, true, r),
    ensures
        !object_view(after).contains_key("tools"@),
        !object_view(after).contains_key("tool_choice"@),
        !object_view(after).contains_key("functions"@),
        !object_view(after).contains_key("function_call"@),
{
    let (b1, r1) = choose|b1: Json, r1: bool|
        #[trigger] expand_outcome(before, b1, r1) && exists|b2: Json, b3: Json, r2: bool, r3: bool, r4: bool|
            #[trigger] strip_outcome(b1, b2, r2) && #[trigger] ensure_outcome(b2, b3, r3)
                && #[trigger] tools_outcome(b3, after, r4) && r == (r1 || r2 || r3 || r4);
    let (b2, b3, r2, r3, r4) = choose|b2: Json, b3: Json, r2: bool, r3: bool, r4: bool|
        #[trigger] strip_outcome(b1, b2, r2) && #[trigger] ensure_outcome(b2, b3, r3)
            && #[trigger] tools_outcome(b3, after, r4) && r == (r1 || r2 || r3 || r4);
    if !(b3 is Object) {
        assert(object_view(after) == Map::<Seq<char>, Json>::empty());
    }
}

proof fn lemma_map_get_apart(m: Map<Seq<char>, Json>, n: Map<Seq<char>, Json>, gone: Seq<char>, k: Seq<char>)
    requires
        m.remove(gone) == n.remove(gone),
        k != gone,
    ensures
        map_get(m, k) == map_get(n, k),
{
    assert(m.remove(gone).contains_key(k) == m.contains_key(k));
    assert(n.remove(gone).contains_key(k) == n.contains_key(k));
    if m.contains_key(k) {
        assert(m.remove(gone)[k] == m[k]);
        assert(n.remove(gone)[k] == n[k]);
    }
}

proof fn lemma_instruction_key_distinct()
    ensures
        "instructions"@ != "input"@,
        "instructions"@ != "tools"@,
        "instructions"@ != "tool_choice"@,
        "instructions"@ != "functions"@,
        "instructions"@ != "function_call"@,
{
    reveal_strlit("instructions");
    reveal_strlit("input");
    reveal_strlit("tools");
    reveal_strlit("tool_choice");
    reveal_strlit("functions");
    reveal_strlit("function_call");
    assert("instructions"@.len() == 12);
    assert("input"@.len() == 5);
    assert("tools"@.len() == 5);
    assert("tool_choice"@.len() == 11);
    assert("functions"@.len() == 9);
    assert("function_call"@.len() == 13);
}

/// Preparing a body whose `input` replays summaries and whose
/// `instructions` are a non-blank string puts the summary block in front of
/// those instructions and keeps them, after a blank line, at the end.
pub proof fn lemma_prepared_body_keeps_instructions(
    before: Json,
    after: Json,
    synthesis_enabled: bool,
    is_compact_operation: bool,
    r: bool,
)
    requires
        prepare_outcome(before, after, synthesis_enabled, is_compact_operation, r),
        input_items(before) matches Some(items) && history_summaries(items).len() > 0,
        str_value(member(before, "instructions"@)) matches Some(e) && trim(e).len() > 0,
    ensures
        ({
            let e = str_value(member(before, "instructions"@))->0;
            let block = summary_block(history_summaries(input_items(before)->0));
            &&& str_value(member(after, "instructions"@)) == Some(block + "\n\n"@ + e)
            &&& str_value(member(after, "instructions"@)) matches Some(ai) && ai.len() >= e.len() + 2
                && ai.subrange(ai.len() - e.len() - 2, ai.len() as int) == "\n\n"@ + e
        }),
{
    lemma_instruction_key_distinct();
    reveal_strlit("\n\n");
    let e = str_value(member(before, "instructions"@))->0;
    let block = summary_block(history_summaries(input_items(before)->0));
    let expected = block + "\n\n"@ + e;
    let (b1, r1) = choose|b1: Json, r1: bool|
        #[trigger] expand_outcome(before, b1, r1) && if synthesis_enabled && is_compact_operation {
            exists|b2: Json, b3: Json, r2: bool, r3: bool, r4: bool|
                #[trigger] strip_outcome(b1, b2, r2) && #[trigger] ensure_outcome(b2, b3, r3)
                    && #[trigger] tools_outcome(b3, after, r4) && r == (r1 || r2 || r3 || r4)
        } else {
            after == b1 && r == r1
        };
    assert(b1 is Object);
    assert(str_value(map_get(object_view(b1), "instructions"@)) == Some(expected));
    if synthesis_enabled && is_compact_operation {
        let (b2, b3, r2, r3, r4) = choose|b2: Json, b3: Json, r2: bool, r3: bool, r4: bool|
            #[trigger] strip_outcome(b1, b2, r2) && #[trigger] ensure_outcome(b2, b3, r3)
                && #[trigger] tools_outcome(b3, after, r4) && r == (r1 || r2 || r3 || r4);
        if b2 != b1 {
            lemma_map_get_apart(object_view(b2), object_view(b1), "input"@, "instructions"@);
        }
        assert(b2 is Object);
        if b3 != b2 {
            if member(b2, "input"@) is None {
                assert(object_view(b2).remove("input"@) =~= object_view(b2));
            }
            lemma_map_get_apart(object_view(b3), object_view(b2), "input"@, "instructions"@);
        }
        assert(b3 is Object);
        assert(map_get(object_view(after), "instructions"@) == map_get(object_view(b3), "instructions"@));
        assert(after is Object);
    }
    assert(expected.subrange(expected.len() - e.len() - 2, expected.len() as int) =~= "\n\n"@ + e);
}

proof fn lemma_no_control_no_summary(items: Seq<Json>)
    requires
        forall|i: int| 0 <= i < items.len() ==> !is_control_item(#[trigger] items[i]),
    ensures
        history_summaries(items).len() == 0,
    decreases items.len(),
{
    if items.len() > 0 {
        assert(!is_control_item(items[items.len() - 1]));
        lemma_no_control_no_summary(items.drop_last());
    }
}

proof fn lemma_input_not_tool_key()
    ensures
        !is_tool_key("input"@),
{
    reveal_strlit("input");
    reveal_strlit("tools");
    reveal_strlit("tool_choice");
    reveal_strlit("functions");
    reveal_strlit("function_call");
    assert("input"@[0] != "tools"@[0]);
    assert("input"@.len() != "tool_choice"@.len());
    assert("input"@.len() != "functions"@.len());
    assert("input"@.len() != "function_call"@.len());
}

/// What the first preparation leaves behind: an `input` array, if any, with
/// no control item and with the summarization prompt, and no tool keys.
spec fn prepared_state(b: Json) -> bool {
    b is Object ==> {
        &&& forall|k: Seq<char>| is_tool_key(k) ==> !#[trigger] object_view(b).contains_key(k)
        &&& match member(b, "input"@) {
            Some(Json::Array(items)) => {
                &&& forall|i: int| 0 <= i < items@.len() ==> !is_control_item(#[trigger] items@[i])
                &&& exists|i: int| 0 <= i < items@.len() && carries_prompt(#[trigger] items@[i])
            },
            Some(_) => true,
            None => false,
        }
    }
}

proof fn lemma_first_preparation(b1: Json, b2: Json, b3: Json, b4: Json, r2: bool, r3: bool, r4: bool)
    requires
        strip_outcome(b1, b2, r2),
        ensure_outcome(b2, b3, r3),
        tools_outcome(b3, b4, r4),
    ensures
        prepared_state(b4),
{
    lemma_input_not_tool_key();
    // After stripping, no input item is a control item.
    if let Some(items) = input_items(b1) {
        lemma_without_control_items(items);
    }
    assert(match input_items(b2) {
        Some(items) => forall|i: int| 0 <= i < items.len() ==> !is_control_item(#[trigger] items[i]),
        None => true,
    });
    if b2 is Object {
        match member(b2, "input"@) {
            None => {
                let items = input_items(b3)->0;
                lemma_summarization_message_carries_prompt(items[0]);
            },
            Some(Json::Array(items)) => {
                if !(exists|i: int| 0 <= i < items@.len() && carries_prompt(#[trigger] items@[i])) {
                    let new_items = input_items(b3)->0;
                    lemma_summarization_message_carries_prompt(new_items.last());
                    assert forall|i: int| 0 <= i < new_items.len() implies !is_control_item(#[trigger] new_items[i]) by {
                        if i < items@.len() {
                            assert(new_items[i] == new_items.take(items@.len() as int)[i]);
                        }
                    }
                    assert(carries_prompt(new_items[new_items.len() - 1]));
                }
            },
            Some(_) => {},
        }
    }
    if b4 is Object {
        assert(map_get(object_view(b4), "input"@) == map_get(object_view(b3), "input"@));
    }
}

/// Preparing a body that preparation already produced changes nothing and
/// reports no change: no envelope is left to expand, no control item to
/// strip, the summarization prompt is present, and the tools are gone.
pub proof fn lemma_prepare_is_idempotent(b0: Json, b1: Json, r1: bool, b2: Json, r2: bool)
    requires
        prepare_outcome(b0, b1, true, true, r1),
        prepare_outcome(b1, b2, true, true, r2),
    ensures
        !r2,
        b2 == b1,
{
    let (e1, x1) = choose|e1: Json, x1: bool| #[trigger] expand_outcome(b0, e1, x1) && exists|
        c2: Json,
        c3: Json,
        y2: bool,
        y3: bool,
        y4: bool,
    |
        #[trigger] strip_outcome(e1, c2, y2) && #[trigger] ensure_outcome(c2, c3, y3)
            && #[trigger] tools_outcome(c3, b1, y4) && r1 == (x1 || y2 || y3 || y4);
    let (c2, c3, y2, y3, y4) = choose|c2: Json, c3: Json, y2: bool, y3: bool, y4: bool|
        #[trigger] strip_outcome(e1, c2, y2) && #[trigger] ensure_outcome(c2, c3, y3)
            && #[trigger] tools_outcome(c3, b1, y4) && r1 == (x1 || y2 || y3 || y4);
    lemma_first_preparation(e1, c2, c3, b1, y2, y3, y4);
    let (f1, z1) = choose|f1: Json, z1: bool| #[trigger] expand_outcome(b1, f1, z1) && exists|
        d2: Json,
        d3: Json,
        w2: bool,
        w3: bool,
        w4: bool,
    |
        #[trigger] strip_outcome(f1, d2, w2) && #[trigger] ensure_outcome(d2, d3, w3)
            && #[trigger] tools_outcome(d3, b2, w4) && r2 == (z1 || w2 || w3 || w4);
    let (d2, d3, w2, w3, w4) = choose|d2: Json, d3: Json, w2: bool, w3: bool, w4: bool|
        #[trigger] strip_outcome(f1, d2, w2) && #[trigger] ensure_outcome(d2, d3, w3)
            && #[trigger] tools_outcome(d3, b2, w4) && r2 == (z1 || w2 || w3 || w4);
    if let Some(Json::Array(items)) = member(b1, "input"@) {
        lemma_no_control_no_summary(items@);
    }
    assert(!z1 && f1 == b1);
    assert(!w2 && d2 == b1);
    assert(!w3 && d3 == b1);
    if b1 is Object {
        assert(!exists|k: Seq<char>| is_tool_key(k) && #[trigger] object_view(b1).contains_key(k));
    }
    assert(!w4 && b2 == b1);
}

} // verus!
