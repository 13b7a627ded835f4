//! Compact synthesis on Responses server-sent event streams: reading the
//! events, and writing the single-item stream that replaces them.
use vstd::prelude::*;

use vstd::utf8::encode_utf8;

use crate::compact_synthesis::{
    build_compaction_output_item, collect_message_texts, decoded_summary,
    encode_compact_synthesis_encrypted_content, extract_summary_text_from_responses_output,
    is_envelope_of, output_items, output_parts, collect_reasoning_texts, has_type,
    is_compaction_item, is_compaction_item_for, is_str, join,
    join_strings, message_parts, reasoning_parts, responses_output_has_compaction_item, views,
};
use crate::json::{
    array_value, depth_within, float_free, lemma_depth_object, lemma_depth_scalar,
    lemma_same_doc_member, lemma_same_doc_string, lemma_float_free_array, lemma_float_free_object,
    lemma_float_free_scalar, map_get, member, str_value, Json, JsonMap, JsonNumber,
};
use crate::text::{
    err_text, has_prefix, lemma_line_scan_one_line, lemma_line_scan_split, lemma_trim_after_blank,
    line_scan, lines, lines_of, owned, str_eq, strip_cr, strip_prefix, trim, trim_str,
};
use crate::wire::{
    json_line, json_parse, json_text, json_to_string, object_view, parse_json_bytes, reads_back,
    reads_back_text,
};

verus! {

/// The JSON payload of an event line: what follows `data:`, trimmed, unless
/// that is empty or the `[DONE]` sentinel.
pub open spec fn payload_of(line: Seq<char>) -> Option<Seq<char>> {
    if has_prefix(line, "data:"@) {
        let d = trim(line.skip("data:"@.len() as int));
        if d.len() == 0 || d == "[DONE]"@ {
            None
        } else {
            Some(d)
        }
    } else {
        None
    }
}

/// The JSON payloads of a sequence of lines, in order.
pub open spec fn payloads(ls: Seq<Seq<char>>) -> Seq<Seq<char>>
    decreases ls.len(),
{
    if ls.len() == 0 {
        seq![]
    } else {
        payloads(ls.drop_last()) + match payload_of(ls.last()) {
            Some(d) => seq![d],
            None => seq![],
        }
    }
}

fn payload_of_exec(line: &str) -> (r: Option<String>)
    ensures
        match r {
            Some(d) => payload_of(line@) == Some(d@),
            None => payload_of(line@) is None,
        },
{
    let rest = match strip_prefix(line, "data:") {
        Some(rest) => rest,
        None => return None,
    };
    let d = trim_str(rest);
    if d.is_empty() || str_eq(d, "[DONE]") {
        None
    } else {
        Some(owned(d))
    }
}

/// The JSON payloads of the `data:` lines of an SSE body, in order, without
/// empty ones and the `[DONE]` sentinel.
pub fn iter_sse_json_payloads(sse_body: &str) -> (r: Vec<String>)
    ensures
        views(r@) == payloads(lines(sse_body@)),
{
    let all = lines_of(sse_body);
    let ghost ls = lines(sse_body@);
    let mut r: Vec<String> = Vec::new();
    let n = all.len();
    for i in 0..n
        invariant
            n == ls.len(),
            all@.map_values(|l: String| l@) == ls,
            views(r@) == payloads(ls.take(i as int)),
    {
        proof {
            assert(ls.take(i + 1).drop_last() =~= ls.take(i as int));
            assert(all@[i as int]@ == ls[i as int]);
        }
        match payload_of_exec(all[i].as_str()) {
            Some(d) => r.push(d),
            None => {},
        }
        proof {
            assert(views(r@) =~= payloads(ls.take(i + 1)));
        }
    }
    proof {
        assert(ls.take(n as int) =~= ls);
    }
    r
}

/// The event that a payload holds, if it parses as JSON.
pub open spec fn event_of(payload: Seq<char>) -> Option<Json> {
    json_parse(encode_utf8(payload))
}

fn parse_event(payload: &String) -> (r: Option<Json>)
    ensures
        r == event_of(payload@),
{
    parse_json_bytes(payload.as_str().as_bytes())
}

/// The output array at `path` of an event holds a native compaction item.
pub open spec fn output_has_compaction(output: Option<Seq<Json>>) -> bool {
    match output {
        Some(items) => seq_has_compaction(items),
        None => false,
    }
}

/// Some item of `items` is a native compaction item.
pub open spec fn seq_has_compaction(items: Seq<Json>) -> bool {
    exists|i: int| 0 <= i < items.len() && is_compaction_item(#[trigger] items[i])
}

/// An event shows a compaction item: its `item` has type `compaction`, or
/// `response.output` or `output` holds a native compaction item.
pub open spec fn event_has_compaction(v: Json) -> bool {
    ||| match member(v, "item"@) {
        Some(item) => has_type(item, "compaction"@),
        None => false,
    }
    ||| match member(v, "response"@) {
        Some(resp) => output_has_compaction(array_value(member(resp, "output"@))),
        None => false,
    }
    ||| output_has_compaction(array_value(member(v, "output"@)))
}

fn output_has_compaction_exec(output: Option<&Json>) -> (r: bool)
    ensures
        r == output_has_compaction(array_value(crate::json::deref_opt(output))),
{
    match output {
        Some(Json::Array(items)) => {
            let slice = items.as_slice();
            assert(slice@ == items@);
            assert(array_value(crate::json::deref_opt(output)) == Some(items@));
            let r = responses_output_has_compaction_item(slice);
            proof {
                if r {
                    let i = choose|i: int| 0 <= i < slice@.len() && is_compaction_item(#[trigger] slice@[i]);
                    assert(is_compaction_item(items@[i]));
                }
            }
            r
        },
        _ => false,
    }
}

fn event_has_compaction_exec(v: &Json) -> (r: bool)
    ensures
        r == event_has_compaction(*v),
{
    let item_is_compaction = match v.get("item") {
        Some(item) => match item.get("type") {
            Some(t) => match t.as_str() {
                Some(s) => str_eq(s, "compaction"),
                None => false,
            },
            None => false,
        },
        None => false,
    };
    if item_is_compaction {
        return true;
    }
    let in_response = match v.get("response") {
        Some(resp) => output_has_compaction_exec(resp.get("output")),
        None => false,
    };
    in_response || output_has_compaction_exec(v.get("output"))
}

/// Whether an SSE body shows a compaction item in some event, judged by
/// parsing the events rather than by searching the raw text.
pub fn responses_sse_has_compaction_item(sse_body: &str) -> (r: bool)
    ensures
        r == stream_has_compaction(sse_body@),
{
    let ps = iter_sse_json_payloads(sse_body);
    let ghost pv = payloads(lines(sse_body@));
    let n = ps.len();
    for i in 0..n
        invariant
            n == pv.len(),
            pv == payloads(lines(sse_body@)),
            views(ps@) == pv,
            forall|j: int|
                0 <= j < i ==> !match event_of(#[trigger] pv[j]) {
                    Some(v) => event_has_compaction(v),
                    None => false,
                },
    {
        proof {
            assert(ps@[i as int]@ == pv[i as int]);
        }
        match parse_event(&ps[i]) {
            Some(v) => {
                if event_has_compaction_exec(&v) {
                    proof {
                        reveal(stream_has_compaction);
                        let j = i as int;
                        assert(event_of(pv[j]) == Some(v));
                        assert(0 <= j < pv.len() && match event_of(pv[j]) {
                            Some(v) => event_has_compaction(v),
                            None => false,
                        });
                    }
                    return true;
                }
            },
            None => {},
        }
    }
    proof {
        reveal(stream_has_compaction);
    }
    false
}

/// The text that a `response.output_text.done` event carries.
pub open spec fn done_text(payload: Seq<char>) -> Option<Seq<char>> {
    match event_of(payload) {
        Some(v) => if has_type(v, "response.output_text.done"@) {
            str_value(member(v, "text"@))
        } else {
            None
        },
        None => None,
    }
}

/// The summary pieces that one event contributes: the `delta` of a text
/// delta (a string, or the `text` of an object), or the message and
/// reasoning texts of a finished item.
pub open spec fn event_pieces(payload: Seq<char>) -> Seq<Seq<char>> {
    match event_of(payload) {
        Some(v) => if has_type(v, "response.output_text.delta"@) {
            match member(v, "delta"@) {
                Some(d) => match str_value(Some(d)) {
                    Some(s) => seq![s],
                    None => match str_value(member(d, "text"@)) {
                        Some(t) => seq![t],
                        None => seq![],
                    },
                },
                None => seq![],
            }
        } else if has_type(v, "response.output_item.done"@) {
            match member(v, "item"@) {
                Some(item) => message_parts(item) + reasoning_parts(item),
                None => seq![],
            }
        } else {
            seq![]
        },
        None => seq![],
    }
}

/// The summary pieces of a sequence of payloads, in order.
pub open spec fn stream_pieces(ps: Seq<Seq<char>>) -> Seq<Seq<char>>
    decreases ps.len(),
{
    if ps.len() == 0 {
        seq![]
    } else {
        stream_pieces(ps.drop_last()) + event_pieces(ps.last())
    }
}

/// `i` is the first payload that is a finished text with its text.
pub open spec fn first_done(ps: Seq<Seq<char>>, i: int) -> bool {
    &&& 0 <= i < ps.len()
    &&& done_text(ps[i]) is Some
    &&& forall|j: int| 0 <= j < i ==> (#[trigger] done_text(ps[j])) is None
}

/// The summary an SSE body carries: the text of the first finished text
/// event, or else all pieces concatenated.
#[verifier::opaque]
pub open spec fn stream_summary(ps: Seq<Seq<char>>) -> Seq<char> {
    if exists|i: int| first_done(ps, i) {
        done_text(ps[choose|i: int| first_done(ps, i)])->0
    } else {
        join(stream_pieces(ps), Seq::empty())
    }
}

proof fn lemma_first_done_unique(ps: Seq<Seq<char>>, i: int, k: int)
    requires
        first_done(ps, i),
        first_done(ps, k),
    ensures
        i == k,
{
    if i < k {
        assert(done_text(ps[i]) is None);
    } else if k < i {
        assert(done_text(ps[k]) is None);
    }
}

proof fn lemma_event_kinds_distinct()
    ensures
        "response.output_text.delta"@ != "response.output_text.done"@,
        "response.output_item.done"@ != "response.output_text.done"@,
        "response.output_item.done"@ != "response.output_text.delta"@,
{
    reveal_strlit("response.output_text.delta");
    reveal_strlit("response.output_text.done");
    reveal_strlit("response.output_item.done");
    assert("response.output_text.delta"@.len() == 26);
    assert("response.output_text.done"@.len() == 25);
    assert("response.output_item.done"@.len() == 25);
    assert("response.output_item.done"@[16] != "response.output_text.done"@[16]);
}

fn push_event_pieces(v: &Json, pieces: &mut Vec<String>) -> (r: Option<String>)
    ensures
        match r {
            Some(t) => has_type(*v, "response.output_text.done"@) && str_value(member(*v, "text"@)) == Some(t@)
                && views(final(pieces)@) == views(old(pieces)@),
            None => !(has_type(*v, "response.output_text.done"@) && str_value(member(*v, "text"@)) is Some)
                && views(final(pieces)@) == views(old(pieces)@) + event_delta_pieces(*v),
        },
{
    let ghost before = views(pieces@);
    proof {
        lemma_event_kinds_distinct();
    }
    if is_str(v.get("type"), "response.output_text.delta") {
        match v.get("delta") {
            Some(d) => match d.as_str() {
                Some(s) => pieces.push(owned(s)),
                None => match d.get("text") {
                    Some(t) => match t.as_str() {
                        Some(s) => pieces.push(owned(s)),
                        None => {},
                    },
                    None => {},
                },
            },
            None => {},
        }
        assert(views(pieces@) =~= before + event_delta_pieces(*v));
        None
    } else if is_str(v.get("type"), "response.output_text.done") {
        match v.get("text") {
            Some(t) => match t.as_str() {
                Some(s) => Some(owned(s)),
                None => {
                    assert(views(pieces@) =~= before + event_delta_pieces(*v));
                    None
                },
            },
            None => {
                assert(views(pieces@) =~= before + event_delta_pieces(*v));
                None
            },
        }
    } else if is_str(v.get("type"), "response.output_item.done") {
        match v.get("item") {
            Some(item) => {
                collect_message_texts(item, pieces);
                collect_reasoning_texts(item, pieces);
            },
            None => {},
        }
        assert(views(pieces@) =~= before + event_delta_pieces(*v));
        None
    } else {
        assert(views(pieces@) =~= before + event_delta_pieces(*v));
        None
    }
}

/// The pieces of an event as `push_event_pieces` appends them.
spec fn event_delta_pieces(v: Json) -> Seq<Seq<char>> {
    if has_type(v, "response.output_text.delta"@) {
        match member(v, "delta"@) {
            Some(d) => match str_value(Some(d)) {
                Some(s) => seq![s],
                None => match str_value(member(d, "text"@)) {
                    Some(t) => seq![t],
                    None => seq![],
                },
            },
            None => seq![],
        }
    } else if has_type(v, "response.output_item.done"@) {
        match member(v, "item"@) {
            Some(item) => message_parts(item) + reasoning_parts(item),
            None => seq![],
        }
    } else {
        seq![]
    }
}

/// The summary text of an SSE body.
pub fn extract_summary_text_from_sse(sse_body: &str) -> (r: String)
    ensures
        r@ == stream_summary(payloads(lines(sse_body@))),
{
    let ps = iter_sse_json_payloads(sse_body);
    let ghost pv = payloads(lines(sse_body@));
    let mut pieces: Vec<String> = Vec::new();
    let n = ps.len();
    for i in 0..n
        invariant
            n == pv.len(),
            pv == payloads(lines(sse_body@)),
            views(ps@) == pv,
            forall|j: int| 0 <= j < i ==> (#[trigger] done_text(pv[j])) is None,
            views(pieces@) == stream_pieces(pv.take(i as int)),
    {
        proof {
            assert(ps@[i as int]@ == pv[i as int]);
            assert(pv.take(i + 1).drop_last() =~= pv.take(i as int));
        }
        match parse_event(&ps[i]) {
            Some(v) => {
                match push_event_pieces(&v, &mut pieces) {
                    Some(t) => {
                        proof {
                            reveal(stream_summary);
                            assert(event_of(pv[i as int]) == Some(v));
                            assert(done_text(pv[i as int]) == Some(t@));
                            assert(first_done(pv, i as int));
                            let k = choose|k: int| first_done(pv, k);
                            lemma_first_done_unique(pv, i as int, k);
                        }
                        return t;
                    },
                    None => {},
                }
            },
            None => {},
        }
        proof {
            assert(event_pieces(pv[i as int]) == match event_of(pv[i as int]) {
                Some(v) => event_delta_pieces(v),
                None => Seq::<Seq<char>>::empty(),
            });
            assert(views(pieces@) =~= stream_pieces(pv.take(i + 1)));
        }
    }
    proof {
        assert(pv.take(n as int) =~= pv);
        assert(!exists|i: int| first_done(pv, i));
        reveal(stream_summary);
        reveal_strlit("");
        assert(""@ =~= Seq::<char>::empty());
    }
    join_strings(&pieces, "")
}


/// The event that a `data:` line holds, parsed from what follows the prefix
/// (trimmed, empty payloads and the sentinel included).
pub open spec fn line_event(line: Seq<char>) -> Option<Json> {
    if has_prefix(line, "data:"@) {
        event_of(trim(line.skip("data:"@.len() as int)))
    } else {
        None
    }
}

/// The response identifier an event names: `response.id` when the event
/// has it, else its own `id`; only a non-empty string counts.
pub open spec fn event_id(v: Json) -> Option<Seq<char>> {
    let candidate = match member(v, "response"@) {
        Some(resp) => match member(resp, "id"@) {
            Some(x) => Some(x),
            None => member(v, "id"@),
        },
        None => member(v, "id"@),
    };
    match str_value(candidate) {
        Some(s) => if s.len() > 0 {
            Some(s)
        } else {
            None
        },
        None => None,
    }
}

/// The identifier a line names, if it holds an event that names one.
pub open spec fn line_id(line: Seq<char>) -> Option<Seq<char>> {
    match line_event(line) {
        Some(v) => event_id(v),
        None => None,
    }
}

/// The first identifier that the lines name, if any.
#[verifier::opaque]
pub open spec fn first_line_id(ls: Seq<Seq<char>>) -> Option<Seq<char>> {
    if exists|i: int| 0 <= i < ls.len() && (#[trigger] line_id(ls[i])) is Some {
        line_id(
            ls[choose|i: int|
                0 <= i < ls.len() && (#[trigger] line_id(ls[i])) is Some && forall|j: int|
                    0 <= j < i ==> (#[trigger] line_id(ls[j])) is None],
        )
    } else {
        None
    }
}

fn line_id_exec(line: &str) -> (r: Option<String>)
    ensures
        match r {
            Some(id) => line_id(line@) == Some(id@),
            None => line_id(line@) is None,
        },
{
    let data = match strip_prefix(line, "data:") {
        Some(d) => d,
        None => return None,
    };
    let payload = owned(trim_str(data));
    let v = match parse_event(&payload) {
        Some(v) => v,
        None => return None,
    };
    let candidate = match v.get("response") {
        Some(resp) => match resp.get("id") {
            Some(x) => Some(x),
            None => v.get("id"),
        },
        None => v.get("id"),
    };
    match candidate {
        Some(x) => match x.as_str() {
            Some(s) => {
                if s.is_empty() {
                    None
                } else {
                    Some(owned(s))
                }
            },
            None => None,
        },
        None => None,
    }
}

/// The response identifier of an SSE body: the first that a `data:` line
/// names.
pub fn extract_response_id_from_sse(sse_body: &str) -> (r: Option<String>)
    ensures
        match r {
            Some(id) => first_line_id(lines(sse_body@)) == Some(id@),
            None => first_line_id(lines(sse_body@)) is None,
        },
{
    let all = lines_of(sse_body);
    let ghost ls = lines(sse_body@);
    let n = all.len();
    for i in 0..n
        invariant
            n == ls.len(),
            ls == lines(sse_body@),
            all@.map_values(|l: String| l@) == ls,
            forall|j: int| 0 <= j < i ==> (#[trigger] line_id(ls[j])) is None,
    {
        proof {
            assert(all@[i as int]@ == ls[i as int]);
        }
        match line_id_exec(all[i].as_str()) {
            Some(id) => {
                proof {
                    reveal(first_line_id);
                    let k = choose|k: int|
                        0 <= k < ls.len() && (#[trigger] line_id(ls[k])) is Some && forall|j: int|
                            0 <= j < k ==> (#[trigger] line_id(ls[j])) is None;
                    assert(line_id(ls[i as int]) is Some);
                    if k < i {
                        assert(line_id(ls[k]) is None);
                    } else if k > i {
                        assert(line_id(ls[i as int]) is None);
                    }
                }
                return Some(id);
            },
            None => {},
        }
    }
    proof {
        reveal(first_line_id);
    }
    None
}


/// The string under `k` in the object `v`.
pub open spec fn str_at(v: Json, k: Seq<char>) -> Option<Seq<char>> {
    str_value(map_get(object_view(v), k))
}

/// The value under `k` in the object `v` is the integer zero.
pub open spec fn zero_at(v: Json, k: Seq<char>) -> bool {
    map_get(object_view(v), k) == Some(Json::Number(JsonNumber::PosInt(0)))
}

/// `r` is the response object of a synthesized stream.
pub open spec fn is_stream_response(
    r: Json,
    id: Seq<char>,
    model: Seq<char>,
    status: Seq<char>,
) -> bool {
    &&& r is Object
    &&& str_at(r, "id"@) == Some(id)
    &&& str_at(r, "object"@) == Some("response"@)
    &&& str_at(r, "model"@) == Some(model)
    &&& str_at(r, "status"@) == Some(status)
}

/// The `response.created` event: an in-progress response with no output.
pub open spec fn is_created_event(e: Json, id: Seq<char>, model: Seq<char>) -> bool {
    &&& e is Object
    &&& object_view(e).dom() == set!["type"@, "response"@]
    &&& str_at(e, "type"@) == Some("response.created"@)
    &&& map_get(object_view(e), "response"@) matches Some(r) && is_stream_response(r, id, model, "in_progress"@)
        && object_view(r).dom() == set!["id"@, "object"@, "model"@, "status"@, "output"@]
        && array_value(map_get(object_view(r), "output"@)) == Some(Seq::<Json>::empty())
}

/// The `response.output_item.added` event: the compaction item at index
/// zero, in progress.
pub open spec fn is_added_event(e: Json, id: Seq<char>) -> bool {
    &&& e is Object
    &&& object_view(e).dom() == set!["type"@, "output_index"@, "item"@]
    &&& str_at(e, "type"@) == Some("response.output_item.added"@)
    &&& zero_at(e, "output_index"@)
    &&& map_get(object_view(e), "item"@) matches Some(item) && item is Object
        && object_view(item).dom() == set!["id"@, "type"@, "status"@]
        && str_at(item, "id"@) == Some(id + "_compact"@)
        && str_at(item, "type"@) == Some("compaction"@)
        && str_at(item, "status"@) == Some("in_progress"@)
}

/// The `response.output_item.done` event: the finished compaction item.
pub open spec fn is_done_event(e: Json, id: Seq<char>, encrypted: Seq<char>) -> bool {
    &&& e is Object
    &&& object_view(e).dom() == set!["type"@, "output_index"@, "item"@]
    &&& str_at(e, "type"@) == Some("response.output_item.done"@)
    &&& zero_at(e, "output_index"@)
    &&& map_get(object_view(e), "item"@) matches Some(item) && is_compaction_item_for(item, encrypted, id)
}

/// The `response.completed` event: a completed response whose output is
/// the compaction item, with zero usage.
pub open spec fn is_completed_event(
    e: Json,
    id: Seq<char>,
    model: Seq<char>,
    encrypted: Seq<char>,
) -> bool {
    &&& e is Object
    &&& object_view(e).dom() == set!["type"@, "response"@]
    &&& str_at(e, "type"@) == Some("response.completed"@)
    &&& map_get(object_view(e), "response"@) matches Some(r) && is_stream_response(r, id, model, "completed"@)
        && object_view(r).dom() == set!["id"@, "object"@, "model"@, "status"@, "output"@, "usage"@]
        && (array_value(map_get(object_view(r), "output"@)) matches Some(items) && items.len() == 1
        && is_compaction_item_for(items[0], encrypted, id))
        && (map_get(object_view(r), "usage"@) matches Some(u) && u is Object && object_view(u).dom()
        == set!["input_tokens"@, "output_tokens"@, "total_tokens"@] && zero_at(u, "input_tokens"@)
        && zero_at(u, "output_tokens"@) && zero_at(u, "total_tokens"@))
}

/// One event of a stream: its name line, its JSON text, a blank line.
pub open spec fn sse_event(name: Seq<char>, e: Json) -> Seq<char> {
    "event: "@ + name + "\ndata: "@ + json_text(e) + "\n\n"@
}

/// The JSON text of the event `e` is one line that starts with `{`, and
/// `serde_json` reads it back as the same document.
pub open spec fn readable_event(e: Json) -> bool {
    &&& json_line(json_text(e))
    &&& json_text(e)[0] == '{'
    &&& reads_back(e)
}

/// `text` is the stream of a synthesized compaction turn.
#[verifier::opaque]
pub open spec fn is_synthesis_stream(text: Seq<char>, id: Seq<char>, model: Seq<char>, encrypted: Seq<char>) -> bool {
    exists|c: Json, a: Json, d: Json, f: Json|
        #![trigger sse_event("response.created"@, c), sse_event("response.output_item.added"@, a), sse_event("response.output_item.done"@, d), sse_event("response.completed"@, f)]
        is_created_event(c, id, model) && is_added_event(a, id) && readable_event(a) && is_done_event(d, id, encrypted)
            && is_completed_event(f, id, model, encrypted) && text == sse_event("response.created"@, c)
            + sse_event("response.output_item.added"@, a) + sse_event("response.output_item.done"@, d)
            + sse_event("response.completed"@, f)
}

proof fn lemma_stream_keys_distinct()
    ensures
        "type"@ != "response"@,
        "type"@ != "output_index"@,
        "type"@ != "item"@,
        "item"@ != "output_index"@,
        "id"@ != "object"@,
        "id"@ != "model"@,
        "id"@ != "status"@,
        "id"@ != "output"@,
        "id"@ != "usage"@,
        "object"@ != "model"@,
        "object"@ != "status"@,
        "object"@ != "output"@,
        "object"@ != "usage"@,
        "model"@ != "status"@,
        "model"@ != "output"@,
        "model"@ != "usage"@,
        "status"@ != "output"@,
        "status"@ != "usage"@,
        "output"@ != "usage"@,
        "id"@ != "type"@,
        "type"@ != "status"@,
        "input_tokens"@ != "output_tokens"@,
        "input_tokens"@ != "total_tokens"@,
        "output_tokens"@ != "total_tokens"@,
{
    reveal_strlit("type");
    reveal_strlit("response");
    reveal_strlit("output_index");
    reveal_strlit("item");
    reveal_strlit("id");
    reveal_strlit("object");
    reveal_strlit("model");
    reveal_strlit("status");
    reveal_strlit("output");
    reveal_strlit("usage");
    reveal_strlit("input_tokens");
    reveal_strlit("output_tokens");
    reveal_strlit("total_tokens");
    assert("type"@.len() == 4);
    assert("response"@.len() == 8);
    assert("output_index"@.len() == 12);
    assert("item"@.len() == 4);
    assert("id"@.len() == 2);
    assert("object"@.len() == 6);
    assert("model"@.len() == 5);
    assert("status"@.len() == 6);
    assert("output"@.len() == 6);
    assert("usage"@.len() == 5);
    assert("input_tokens"@.len() == 12);
    assert("output_tokens"@.len() == 13);
    assert("total_tokens"@.len() == 12);
    assert("type"@[0] != "item"@[0]);
    assert("object"@[0] != "status"@[0]);
    assert("object"@[1] != "output"@[1]);
    assert("model"@[0] != "usage"@[0]);
    assert("status"@[0] != "output"@[0]);
    assert("input_tokens"@[0] != "total_tokens"@[0]);
}

fn text_value(s: &str) -> (r: Json)
    ensures
        str_value(Some(r)) == Some(s@),
        r is String,
{
    Json::String(owned(s))
}

fn zero() -> (r: Json)
    ensures
        r == Json::Number(JsonNumber::PosInt(0)),
        float_free(r),
{
    let r = Json::Number(JsonNumber::PosInt(0));
    proof {
        lemma_float_free_scalar(r);
    }
    r
}

proof fn lemma_float_free_map(m: JsonMap)
    requires
        m.keys_unique(),
        forall|k: Seq<char>| #[trigger] m@.contains_key(k) ==> float_free(m@[k]),
    ensures
        float_free(Json::Object(m)),
{
    lemma_float_free_object(m);
}

fn stream_response(id: &str, model: &str, status: &str, output: Vec<Json>, usage: Option<Json>) -> (r: Json)
    requires
        forall|i: int| 0 <= i < output@.len() ==> float_free(#[trigger] output@[i]),
        usage matches Some(u) ==> float_free(u),
    ensures
        is_stream_response(r, id@, model@, status@),
        float_free(r),
        object_view(r).dom() == match usage {
            Some(_) => set!["id"@, "object"@, "model"@, "status"@, "output"@, "usage"@],
            None => set!["id"@, "object"@, "model"@, "status"@, "output"@],
        },
        array_value(map_get(object_view(r), "output"@)) == Some(output@),
        map_get(object_view(r), "usage"@) == usage,
{
    let ghost out = output@;
    let mut m = JsonMap::new();
    m.insert(owned("id"), text_value(id));
    m.insert(owned("object"), text_value("response"));
    m.insert(owned("model"), text_value(model));
    m.insert(owned("status"), text_value(status));
    proof {
        lemma_float_free_array(output);
    }
    m.insert(owned("output"), Json::Array(output));
    let ghost with_usage = usage;
    match usage {
        Some(u) => {
            m.insert(owned("usage"), u);
        },
        None => {},
    }
    proof {
        lemma_stream_keys_distinct();
        reveal_strlit("usage");
        assert forall|k: Seq<char>| #[trigger] m@.contains_key(k) implies float_free(m@[k]) by {
            if k != "output"@ && k != "usage"@ {
                lemma_float_free_scalar(m@[k]);
            }
        }
        use_type_invariant(&m);
        lemma_float_free_map(m);
        match with_usage {
            Some(_) => {
                assert(m@.dom() =~= set!["id"@, "object"@, "model"@, "status"@, "output"@, "usage"@]);
            },
            None => {
                assert(m@.dom() =~= set!["id"@, "object"@, "model"@, "status"@, "output"@]);
            },
        }
    }
    Json::Object(m)
}

fn event_object(kind: &str, second_key: &str, second: Json, third: Option<(&str, Json)>) -> (r: Json)
    requires
        kind@ == "response.created"@ || kind@ == "response.completed"@ || kind@ == "response.output_item.added"@
            || kind@ == "response.output_item.done"@,
        second_key@ == "response"@ || second_key@ == "output_index"@,
        third matches Some((k, _)) ==> k@ == "item"@ && second_key@ == "output_index"@,
        float_free(second),
        third matches Some((_, v)) ==> float_free(v),
    ensures
        r is Object,
        float_free(r),
        str_at(r, "type"@) == Some(kind@),
        map_get(object_view(r), second_key@) == Some(second),
        third matches Some((k, v)) ==> map_get(object_view(r), k@) == Some(v),
        object_view(r).dom() == match third {
            Some((k, _)) => set!["type"@, second_key@, k@],
            None => set!["type"@, second_key@],
        },
        depth_within(second, 99) && (third matches Some((_, v)) ==> depth_within(v, 99))
            ==> depth_within(r, 100),
{
    let ghost sv = second;
    let ghost tv = third;
    let mut m = JsonMap::new();
    m.insert(owned("type"), text_value(kind));
    m.insert(owned(second_key), second);
    match third {
        Some((k, v)) => {
            m.insert(owned(k), v);
        },
        None => {},
    }
    proof {
        lemma_stream_keys_distinct();
        assert forall|k: Seq<char>| #[trigger] m@.contains_key(k) implies float_free(m@[k]) by {
            if k == "type"@ {
                lemma_float_free_scalar(m@[k]);
            }
        }
        use_type_invariant(&m);
        lemma_float_free_map(m);
        match tv {
            Some((k, _)) => {
                assert(m@.dom() =~= set!["type"@, second_key@, k@]);
            },
            None => {
                assert(m@.dom() =~= set!["type"@, second_key@]);
            },
        }
        if depth_within(sv, 99) && (tv matches Some((_, v)) ==> depth_within(v, 99)) {
            assert forall|k: Seq<char>| #[trigger] m@.contains_key(k) implies depth_within(m@[k], 99) by {
                if k == "type"@ {
                    lemma_depth_scalar(m@[k], 99);
                }
            }
            lemma_depth_object(m, 100);
        }
    }
    Json::Object(m)
}

fn push_event(out: &mut String, name: &str, e: &Json)
    requires
        float_free(*e),
    ensures
        final(out)@ == old(out)@ + sse_event(name@, *e),
        json_line(json_text(*e)),
        *e is Object ==> json_text(*e)[0] == '{',
        depth_within(*e, 100) ==> reads_back(*e),
{
    out.append("event: ");
    out.append(name);
    out.append("\ndata: ");
    let text = json_to_string(e);
    out.append(text.as_str());
    out.append("\n\n");
    assert(out@ =~= old(out)@ + sse_event(name@, *e));
}

/// A minimal SSE body for a synthesized compaction turn: `response.created`,
/// the compaction item added and done, and `response.completed`.
pub fn build_compact_synthesis_sse(response_id: &str, model: &str, encrypted_content: &str) -> (r: String)
    ensures
        is_synthesis_stream(r@, response_id@, model@, encrypted_content@),
{
    proof {
        lemma_stream_keys_distinct();
    }
    let created = event_object(
        "response.created",
        "response",
        stream_response(response_id, model, "in_progress", Vec::new(), None),
        None,
    );
    let mut item_id = owned(response_id);
    item_id.append("_compact");
    let mut added_item = JsonMap::new();
    added_item.insert(owned("id"), Json::String(item_id));
    added_item.insert(owned("type"), text_value("compaction"));
    added_item.insert(owned("status"), text_value("in_progress"));
    proof {
        assert forall|k: Seq<char>| #[trigger] added_item@.contains_key(k) implies float_free(added_item@[k]) by {
            lemma_float_free_scalar(added_item@[k]);
        }
        use_type_invariant(&added_item);
        lemma_float_free_map(added_item);
        assert(added_item@.dom() =~= set!["id"@, "type"@, "status"@]);
        assert forall|k: Seq<char>| #[trigger] added_item@.contains_key(k) implies depth_within(added_item@[k], 98) by {
            lemma_depth_scalar(added_item@[k], 98);
        }
        lemma_depth_object(added_item, 99);
    }
    let z = zero();
    proof {
        lemma_depth_scalar(z, 99);
    }
    let added = event_object(
        "response.output_item.added",
        "output_index",
        z,
        Some(("item", Json::Object(added_item))),
    );
    let done = event_object(
        "response.output_item.done",
        "output_index",
        zero(),
        Some(("item", build_compaction_output_item(encrypted_content, response_id))),
    );
    let mut usage = JsonMap::new();
    usage.insert(owned("input_tokens"), zero());
    usage.insert(owned("output_tokens"), zero());
    usage.insert(owned("total_tokens"), zero());
    proof {
        assert forall|k: Seq<char>| #[trigger] usage@.contains_key(k) implies float_free(usage@[k]) by {
            lemma_float_free_scalar(usage@[k]);
        }
        use_type_invariant(&usage);
        lemma_float_free_map(usage);
        assert(usage@.dom() =~= set!["input_tokens"@, "output_tokens"@, "total_tokens"@]);
    }
    let mut output: Vec<Json> = Vec::new();
    output.push(build_compaction_output_item(encrypted_content, response_id));
    let completed = event_object(
        "response.completed",
        "response",
        stream_response(response_id, model, "completed", output, Some(Json::Object(usage))),
        None,
    );
    let mut r = String::new();
    push_event(&mut r, "response.created", &created);
    push_event(&mut r, "response.output_item.added", &added);
    push_event(&mut r, "response.output_item.done", &done);
    push_event(&mut r, "response.completed", &completed);
    proof {
        reveal(is_synthesis_stream);
        assert(is_created_event(created, response_id@, model@));
        assert(is_added_event(added, response_id@));
        assert(readable_event(added));
        assert(is_done_event(done, response_id@, encrypted_content@));
        assert(is_completed_event(completed, response_id@, model@, encrypted_content@));
        assert(r@ =~= sse_event("response.created"@, created) + sse_event("response.output_item.added"@, added)
            + sse_event("response.output_item.done"@, done) + sse_event("response.completed"@, completed));
    }
    r
}


/// Some event of the SSE body shows a compaction item.
#[verifier::opaque]
pub open spec fn stream_has_compaction(sse: Seq<char>) -> bool {
    exists|i: int|
        0 <= i < payloads(lines(sse)).len() && match event_of(#[trigger] payloads(lines(sse))[i]) {
            Some(v) => event_has_compaction(v),
            None => false,
        }
}

proof fn lemma_payloads_concat(a: Seq<Seq<char>>, b: Seq<Seq<char>>)
    ensures
        payloads(a + b) == payloads(a) + payloads(b),
    decreases b.len(),
{
    if b.len() == 0 {
        assert(a + b =~= a);
        assert(payloads(a) + payloads(b) =~= payloads(a));
    } else {
        assert((a + b).drop_last() =~= a + b.drop_last());
        lemma_payloads_concat(a, b.drop_last());
        assert(payloads(a + b) =~= payloads(a) + payloads(b));
    }
}

/// A synthesized stream shows a compaction item: its
/// `response.output_item.added` event, read back by `serde_json`, holds an
/// item of type `compaction`.
pub proof fn lemma_synthesis_stream_shows_compaction(
    text: Seq<char>,
    id: Seq<char>,
    model: Seq<char>,
    encrypted: Seq<char>,
)
    requires
        is_synthesis_stream(text, id, model, encrypted),
    ensures
        stream_has_compaction(text),
{
    reveal(is_synthesis_stream);
    let (c, a, d, f) = choose|c: Json, a: Json, d: Json, f: Json|
        #![trigger sse_event("response.created"@, c), sse_event("response.output_item.added"@, a), sse_event("response.output_item.done"@, d), sse_event("response.completed"@, f)]
        is_created_event(c, id, model) && is_added_event(a, id) && readable_event(a) && is_done_event(d, id, encrypted)
            && is_completed_event(f, id, model, encrypted) && text == sse_event("response.created"@, c)
            + sse_event("response.output_item.added"@, a) + sse_event("response.output_item.done"@, d)
            + sse_event("response.completed"@, f);
    reveal_strlit("\ndata: ");
    reveal_strlit("data: ");
    reveal_strlit("data:");
    reveal_strlit("\n\n");
    reveal_strlit("[DONE]");
    let j = json_text(a);
    let head = sse_event("response.created"@, c) + "event: "@ + "response.output_item.added"@ + seq!['\n'];
    let line = "data: "@ + j;
    let rest = seq!['\n'] + sse_event("response.output_item.done"@, d) + sse_event("response.completed"@, f);
    assert(text =~= head + (line.push('\n') + rest));
    // The data line of the added event is a line of the stream.
    assert forall|i: int| 0 <= i < line.len() implies #[trigger] line[i] != '\n' by {
        if i >= 6 {
            assert(line[i] == j[i - 6]);
        }
    }
    lemma_line_scan_one_line(line);
    lemma_line_scan_split(line.push('\n'), rest);
    lemma_line_scan_split(head, line.push('\n') + rest);
    assert(line.last() == j.last());
    assert(strip_cr(line) == line);
    let before = line_scan(head).0;
    let after = if line_scan(rest).1.len() > 0 {
        line_scan(rest).0.push(line_scan(rest).1)
    } else {
        line_scan(rest).0
    };
    assert(lines(text) =~= before + seq![line] + after);
    lemma_payloads_concat(before + seq![line], after);
    lemma_payloads_concat(before, seq![line]);
    // Its payload is the event's JSON text.
    assert(line.take(5) =~= "data:"@);
    assert(line.skip(5) =~= seq![' '] + j);
    lemma_trim_after_blank(j);
    assert(j[0] != "[DONE]"@[0]);
    assert(payload_of(line) == Some(j));
    assert(seq![line].drop_last() =~= Seq::<Seq<char>>::empty());
    assert(seq![line].last() == line);
    assert(payloads(Seq::<Seq<char>>::empty()) == Seq::<Seq<char>>::empty());
    assert(payloads(seq![line]) =~= seq![j]);
    let i = payloads(before).len() as int;
    assert(payloads(lines(text))[i] == j);
    // Read back, the event holds an item of type `compaction`.
    let p = json_parse(encode_utf8(j))->0;
    let item = member(a, "item"@)->0;
    lemma_same_doc_member(p, a, "item"@);
    let x = member(p, "item"@)->0;
    lemma_same_doc_member(x, item, "type"@);
    lemma_same_doc_string(member(x, "type"@)->0, member(item, "type"@)->0);
    assert(event_has_compaction(p));
    reveal(stream_has_compaction);
    assert(0 <= i < payloads(lines(text)).len());
}

/// A stream that a rewrite produced shows a compaction item, so rewriting
/// it again, with any model and flags, gives `Ok(None)`.
pub proof fn lemma_rewritten_stream_is_not_rewritten_again(
    text: Seq<char>,
    sse: Seq<char>,
    model: Seq<char>,
    aggregated: Option<Json>,
)
    requires
        is_rewritten_stream(text, sse, model, aggregated),
    ensures
        stream_has_compaction(text),
{
    let enc = choose|enc: Seq<char>|
        #![trigger is_synthesis_stream(text, rewrite_response_id(sse), model, enc)]
        is_envelope_of(enc, rewrite_summary(sse, aggregated), model) && decoded_summary(enc) == Some(
            trim(rewrite_summary(sse, aggregated)),
        ) && is_synthesis_stream(text, rewrite_response_id(sse), model, enc);
    lemma_synthesis_stream_shows_compaction(text, rewrite_response_id(sse), model, enc);
}

/// The summary that a stream rewrite wraps: the texts of the aggregated
/// response's output when they are not blank, else the summary the events
/// carry.
#[verifier::opaque]
pub open spec fn rewrite_summary(sse: Seq<char>, aggregated: Option<Json>) -> Seq<char> {
    match aggregated {
        Some(agg) => {
            let text = join(output_parts(output_items(agg)), "\n\n"@);
            if trim(text).len() > 0 {
                text
            } else {
                stream_summary(payloads(lines(sse)))
            }
        },
        None => stream_summary(payloads(lines(sse))),
    }
}

/// The response identifier a rewrite names its item after.
pub open spec fn rewrite_response_id(sse: Seq<char>) -> Seq<char> {
    match first_line_id(lines(sse)) {
        Some(id) => id,
        None => "resp_compact"@,
    }
}

/// `text` is the stream that replaces the SSE body `sse`: the synthesized
/// single-item stream named after the body's response, whose envelope
/// carries the rewrite summary.
pub open spec fn is_rewritten_stream(
    text: Seq<char>,
    sse: Seq<char>,
    model: Seq<char>,
    aggregated: Option<Json>,
) -> bool {
    exists|enc: Seq<char>|
        #![trigger is_synthesis_stream(text, rewrite_response_id(sse), model, enc)]
        is_envelope_of(enc, rewrite_summary(sse, aggregated), model) && decoded_summary(enc) == Some(
            trim(rewrite_summary(sse, aggregated)),
        ) && is_synthesis_stream(text, rewrite_response_id(sse), model, enc)
}

fn rewrite_summary_exec(sse_body: &str, aggregated: Option<&Json>) -> (r: String)
    ensures
        r@ == rewrite_summary(sse_body@, crate::json::deref_opt(aggregated)),
{
    reveal(rewrite_summary);
    match aggregated {
        Some(agg) => {
            let empty: Vec<Json> = Vec::new();
            let output: &[Json] = match agg.get("output") {
                Some(Json::Array(a)) => a.as_slice(),
                _ => empty.as_slice(),
            };
            assert(output@ == output_items(*agg));
            let text = extract_summary_text_from_responses_output(output);
            if trim_str(text.as_str()).is_empty() {
                extract_summary_text_from_sse(sse_body)
            } else {
                text
            }
        },
        None => extract_summary_text_from_sse(sse_body),
    }
}

/// Rewrites a completed Responses SSE body that lacks a compaction item
/// into a synthesized single-item stream.  `aggregated` is the response
/// body that aggregating the stream gives, when aggregation succeeds.
#[verifier::spinoff_prover]
#[verifier::rlimit(60)]
pub fn maybe_rewrite_responses_sse_for_compact_synthesis(
    sse_body: &str,
    model: &str,
    synthesis_enabled: bool,
    is_compact_operation: bool,
    aggregated: Option<&Json>,
) -> (r: Result<Option<String>, String>)
    ensures
        if !synthesis_enabled || !is_compact_operation || stream_has_compaction(sse_body@) {
            r == Ok::<Option<String>, String>(None)
        } else if trim(rewrite_summary(sse_body@, crate::json::deref_opt(aggregated))).len() == 0 {
            err_text(r, "compact synthesis produced an empty summary from stream"@)
        } else {
            r matches Ok(Some(text)) && is_rewritten_stream(
                text@,
                sse_body@,
                model@,
                crate::json::deref_opt(aggregated),
            )
        },
{
    if !synthesis_enabled || !is_compact_operation {
        return Ok(None);
    }
    if responses_sse_has_compaction_item(sse_body) {
        return Ok(None);
    }
    let summary = rewrite_summary_exec(sse_body, aggregated);
    if trim_str(summary.as_str()).is_empty() {
        return Err(owned("compact synthesis produced an empty summary from stream"));
    }
    let response_id = match extract_response_id_from_sse(sse_body) {
        Some(id) => id,
        None => owned("resp_compact"),
    };
    let encrypted = encode_compact_synthesis_encrypted_content(summary.as_str(), model);
    let text = build_compact_synthesis_sse(response_id.as_str(), model, encrypted.as_str());
    proof {
        assert(summary@ == rewrite_summary(sse_body@, crate::json::deref_opt(aggregated)));
        assert(response_id@ == rewrite_response_id(sse_body@));
        assert(is_synthesis_stream(text@, rewrite_response_id(sse_body@), model@, encrypted@));
        assert(is_envelope_of(encrypted@, summary@, model@));
        assert(decoded_summary(encrypted@) == Some(trim(summary@)));
        assert(!stream_has_compaction(sse_body@));
        assert(is_rewritten_stream(text@, sse_body@, model@, crate::json::deref_opt(aggregated)));
    }
    Ok(Some(text))
}

} // verus!
