//! Finalizing locally served responses: the usage-report payload as the
//! gateway and the AI surface hold it, compact synthesis of a client body,
//! and the stream rewriter that holds a synthesized stream back until it
//! ends.
use vstd::prelude::*;

use std::collections::BTreeMap;
use vstd::string::StrSliceExecFns;
use vstd::utf8::{decode_utf8, encode_utf8, valid_utf8};

use crate::compact_sse::{
    is_rewritten_stream, maybe_rewrite_responses_sse_for_compact_synthesis, rewrite_summary,
    stream_has_compaction,
};
use crate::compact_synthesis::{
    empty_summary_message, keeps_body, synthesis_summary, synthesize_compaction_client_response,
    synthesized,
};
use crate::json::{deref_opt, member, same_json_opt, str_value, Json};
use crate::report_context::{
    compact_synthesis_enabled_from_report_context, is_compact_operation_from_report_context,
    synthesis_needed,
};
use crate::text::{trim, utf8_text};

verus! {

/// An error of the gateway.
#[derive(Debug)]
pub enum GatewayError {
    /// An internal failure, with its message.
    Internal(String),
}

/// An error that the AI surface stream rewriter reports, with its message.
#[derive(Debug)]
pub struct AiSurfaceFinalizeError {
    pub message: String,
}

impl From<AiSurfaceFinalizeError> for GatewayError {
    fn from(error: AiSurfaceFinalizeError) -> (r: GatewayError) {
        GatewayError::Internal(error.message)
    }
}

impl vstd::std_specs::convert::FromSpecImpl<AiSurfaceFinalizeError> for GatewayError {
    open spec fn obeys_from_spec() -> bool {
        true
    }

    open spec fn from_spec(v: AiSurfaceFinalizeError) -> GatewayError {
        GatewayError::Internal(v.message)
    }
}

/// A surface error becomes an internal gateway error with its message.
pub fn map_surface_error(error: AiSurfaceFinalizeError) -> (r: GatewayError)
    ensures
        r == GatewayError::Internal(error.message),
{
    GatewayError::from(error)
}

/// The usage report of a synchronous request, as the gateway records it.
pub struct GatewaySyncReportRequest {
    pub trace_id: String,
    pub report_kind: String,
    pub report_context: Option<Json>,
    pub status_code: u16,
    pub headers: BTreeMap<String, String>,
    pub body_json: Option<Json>,
    pub client_body_json: Option<Json>,
    pub body_base64: Option<String>,
    pub telemetry: Option<Json>,
}

/// The parts of a usage report that the AI surface reads and rewrites.
pub struct LocalSyncReportParts {
    pub trace_id: String,
    pub report_kind: String,
    pub report_context: Option<Json>,
    pub status_code: u16,
    pub headers: BTreeMap<String, String>,
    pub body_json: Option<Json>,
    pub client_body_json: Option<Json>,
    pub body_base64: Option<String>,
}

fn copy_json_opt(v: &Option<Json>) -> (r: Option<Json>)
    ensures
        same_json_opt(r, *v),
{
    match v {
        Some(x) => Some(x.deep_copy()),
        None => None,
    }
}

fn copy_string_opt(v: &Option<String>) -> (r: Option<String>)
    ensures
        r == *v,
{
    match v {
        Some(s) => Some(s.clone()),
        None => None,
    }
}

/// `parts` hold the same report fields as `payload`.
pub open spec fn copies_report(payload: GatewaySyncReportRequest, parts: LocalSyncReportParts) -> bool {
    &&& parts.trace_id == payload.trace_id
    &&& parts.report_kind == payload.report_kind
    &&& same_json_opt(parts.report_context, payload.report_context)
    &&& parts.status_code == payload.status_code
    &&& parts.headers@ == payload.headers@
    &&& same_json_opt(parts.body_json, payload.body_json)
    &&& same_json_opt(parts.client_body_json, payload.client_body_json)
    &&& parts.body_base64 == payload.body_base64
}

/// `r` is made of `parts`, with the telemetry of `source`.
pub open spec fn rebuilt_report(
    source: GatewaySyncReportRequest,
    parts: LocalSyncReportParts,
    r: GatewaySyncReportRequest,
) -> bool {
    &&& r.trace_id == parts.trace_id
    &&& r.report_kind == parts.report_kind
    &&& r.report_context == parts.report_context
    &&& r.status_code == parts.status_code
    &&& r.headers == parts.headers
    &&& r.body_json == parts.body_json
    &&& r.client_body_json == parts.client_body_json
    &&& r.body_base64 == parts.body_base64
    &&& same_json_opt(r.telemetry, source.telemetry)
}

/// Two gateway reports hold the same data.
pub open spec fn same_report(a: GatewaySyncReportRequest, b: GatewaySyncReportRequest) -> bool {
    &&& a.trace_id == b.trace_id
    &&& a.report_kind == b.report_kind
    &&& same_json_opt(a.report_context, b.report_context)
    &&& a.status_code == b.status_code
    &&& a.headers@ == b.headers@
    &&& same_json_opt(a.body_json, b.body_json)
    &&& same_json_opt(a.client_body_json, b.client_body_json)
    &&& a.body_base64 == b.body_base64
    &&& same_json_opt(a.telemetry, b.telemetry)
}

/// The report parts that the surface reads, copied from a gateway report.
pub fn surface_report_parts_from_gateway(payload: &GatewaySyncReportRequest) -> (r:
    LocalSyncReportParts)
    ensures
        copies_report(*payload, r),
{
    LocalSyncReportParts {
        trace_id: payload.trace_id.clone(),
        report_kind: payload.report_kind.clone(),
        report_context: copy_json_opt(&payload.report_context),
        status_code: payload.status_code,
        headers: payload.headers.clone(),
        body_json: copy_json_opt(&payload.body_json),
        client_body_json: copy_json_opt(&payload.client_body_json),
        body_base64: copy_string_opt(&payload.body_base64),
    }
}

/// The gateway report made of the surface's report parts, with the
/// telemetry of the report they came from.
pub fn gateway_report_from_surface(
    source: &GatewaySyncReportRequest,
    report: LocalSyncReportParts,
) -> (r: GatewaySyncReportRequest)
    ensures
        rebuilt_report(*source, report, r),
{
    GatewaySyncReportRequest {
        trace_id: report.trace_id,
        report_kind: report.report_kind,
        report_context: report.report_context,
        status_code: report.status_code,
        headers: report.headers,
        body_json: report.body_json,
        client_body_json: report.client_body_json,
        body_base64: report.body_base64,
        telemetry: copy_json_opt(&source.telemetry),
    }
}

/// Handing a report's parts to the surface and rebuilding the report from
/// them unchanged gives back the same report.
pub proof fn lemma_report_round_trip(
    source: GatewaySyncReportRequest,
    parts: LocalSyncReportParts,
    r: GatewaySyncReportRequest,
)
    requires
        copies_report(source, parts),
        rebuilt_report(source, parts, r),
    ensures
        same_report(r, source),
{
}

/// The model a report context names: `mapped_model` when that key is
/// present, else `model`; `unknown` when the value named is absent or not a
/// string.
pub open spec fn context_model(report_context: Option<Json>) -> Seq<char> {
    let named = match report_context {
        Some(c) => match member(c, "mapped_model"@) {
            Some(m) => Some(m),
            None => member(c, "model"@),
        },
        None => None,
    };
    match str_value(named) {
        Some(m) => m,
        None => "unknown"@,
    }
}

fn context_model_of<'a>(report_context: Option<&'a Json>) -> (r: &'a str)
    ensures
        r@ == context_model(deref_opt(report_context)),
{
    let named = match report_context {
        Some(c) => match c.get("mapped_model") {
            Some(m) => Some(m),
            None => c.get("model"),
        },
        None => None,
    };
    match named {
        Some(v) => match v.as_str() {
            Some(m) => m,
            None => "unknown",
        },
        None => "unknown",
    }
}

/// What synthesis does to a client body once it must run: it leaves a body
/// without a place for it alone, fails on an empty summary, and otherwise
/// replaces the output with one compaction item.
pub open spec fn client_body_outcome(
    before: Json,
    after: Json,
    r: Result<(), GatewayError>,
    model: Seq<char>,
) -> bool {
    if keeps_body(before) {
        r is Ok && after == before
    } else if trim(synthesis_summary(before)).len() == 0 {
        &&& r matches Err(GatewayError::Internal(m)) && m@ == empty_summary_message()
        &&& after == before
    } else {
        r is Ok && synthesized(before, after, model)
    }
}

/// Applies compact synthesis to the client body of a local response when
/// the report context enables it for a compact operation, with the model
/// that the context names.  `is_compact_format` judges whether an API
/// format is the Responses compact format.
pub fn apply_compact_synthesis_to_client_body<F: Fn(&str) -> bool>(
    report_context: Option<&Json>,
    body_json: &mut Json,
    is_compact_format: &F,
) -> (r: Result<(), GatewayError>)
    requires
        forall|s: &str| #[trigger] is_compact_format.requires((s,)),
    ensures
        exists|needed: bool|
            #![trigger synthesis_needed(*is_compact_format, deref_opt(report_context), needed)]
            synthesis_needed(*is_compact_format, deref_opt(report_context), needed) && if needed {
                client_body_outcome(
                    *old(body_json),
                    *final(body_json),
                    r,
                    context_model(deref_opt(report_context)),
                )
            } else {
                r is Ok && *final(body_json) == *old(body_json)
            },
{
    let synthesis_enabled = compact_synthesis_enabled_from_report_context(report_context);
    let is_compact = is_compact_operation_from_report_context(report_context, is_compact_format);
    let ghost needed = synthesis_enabled && is_compact;
    assert(synthesis_needed(*is_compact_format, deref_opt(report_context), needed));
    if !synthesis_enabled || !is_compact {
        return Ok(());
    }
    let model = context_model_of(report_context);
    match synthesize_compaction_client_response(body_json, model, true, true) {
        Ok(_) => Ok(()),
        Err(message) => Err(GatewayError::Internal(message)),
    }
}

/// Rewrites the client-visible stream of a local response.  For a compact
/// operation with synthesis it holds every byte back until the stream ends,
/// so that synthesis can replace the whole stream with a single compaction
/// item at once.
pub struct LocalStreamRewriter<'a> {
    report_context: &'a Json,
    synthesis_buffer: Vec<u8>,
    needs_compact_synthesis: bool,
    released_downstream: bool,
}

impl<'a> LocalStreamRewriter<'a> {
    /// The report context the rewriter was built for.
    pub closed spec fn context(self) -> Json {
        *self.report_context
    }

    /// The bytes held back for synthesis.
    pub closed spec fn held(self) -> Seq<u8> {
        self.synthesis_buffer@
    }

    /// Whether the stream is held back for synthesis.
    pub closed spec fn holds_for_synthesis(self) -> bool {
        self.needs_compact_synthesis
    }

    /// Whether some bytes have gone downstream.
    pub closed spec fn released(self) -> bool {
        self.released_downstream
    }
}

/// Builds the stream rewriter for a report context: none without a
/// context, or where there is neither a surface rewriter nor synthesis to
/// run.  `surface_rewriter_available` is whether the AI surface built its
/// own rewriter for the context.
pub fn maybe_build_local_stream_rewriter<'a, F: Fn(&str) -> bool>(
    report_context: Option<&'a Json>,
    surface_rewriter_available: bool,
    is_compact_format: &F,
) -> (r: Option<LocalStreamRewriter<'a>>)
    requires
        forall|s: &str| #[trigger] is_compact_format.requires((s,)),
    ensures
        match report_context {
            None => r is None,
            Some(ctx) => exists|needed: bool|
                #![trigger synthesis_needed(*is_compact_format, Some(*ctx), needed)]
                synthesis_needed(*is_compact_format, Some(*ctx), needed) && if !surface_rewriter_available
                    && !needed {
                    r is None
                } else {
                    r matches Some(w) && w.context() == *ctx && w.holds_for_synthesis() == needed
                        && w.held() == Seq::<u8>::empty() && !w.released()
                },
        },
{
    let ctx = match report_context {
        Some(c) => c,
        None => return None,
    };
    let needs_compact_synthesis = if compact_synthesis_enabled_from_report_context(Some(ctx)) {
        is_compact_operation_from_report_context(Some(ctx), is_compact_format)
    } else {
        false
    };
    assert(synthesis_needed(*is_compact_format, Some(*ctx), needs_compact_synthesis));
    if !surface_rewriter_available && !needs_compact_synthesis {
        return None;
    }
    let w = LocalStreamRewriter {
        report_context: ctx,
        synthesis_buffer: Vec::new(),
        needs_compact_synthesis,
        released_downstream: false,
    };
    assert(w.held() =~= Seq::<u8>::empty());
    Some(w)
}

/// What finishing a held stream gives: `bytes` are all the bytes held back,
/// `ctx` the report context, `aggregated` the response that aggregating the
/// stream gives, if any.  Bytes that are not UTF-8, and a stream that
/// already holds a compaction item, pass unchanged; an empty summary is an
/// internal error unless bytes went downstream before; otherwise the
/// synthesized stream replaces them.  `released_after` records whether
/// bytes have gone downstream.
pub open spec fn synthesis_finish_outcome(
    bytes: Seq<u8>,
    ctx: Json,
    aggregated: Option<Json>,
    released_before: bool,
    r: Result<Vec<u8>, GatewayError>,
    released_after: bool,
) -> bool {
    let passed = r matches Ok(b) && b@ == bytes && released_after == (released_before || bytes.len()
        > 0);
    if !valid_utf8(bytes) {
        passed
    } else {
        let sse = decode_utf8(bytes);
        if stream_has_compaction(sse) {
            passed
        } else if trim(rewrite_summary(sse, aggregated)).len() == 0 {
            &&& released_after == released_before
            &&& if released_before {
                r matches Ok(b) && b@ == bytes
            } else {
                r matches Err(GatewayError::Internal(m)) && m@
                    == "compact synthesis produced an empty summary from stream"@
            }
        } else {
            &&& released_after
            &&& r matches Ok(b) && exists|text: Seq<char>|
                #![trigger is_rewritten_stream(text, sse, context_model(Some(ctx)), aggregated)]
                is_rewritten_stream(text, sse, context_model(Some(ctx)), aggregated) && b@
                    == encode_utf8(text)
        }
    }
}

/// What pushing the client-visible bytes `transformed` of a chunk does:
/// `out` goes downstream now (nothing while the stream is held for
/// synthesis, else the bytes themselves), and `after` is the new state.
pub open spec fn push_step<'a>(
    before: LocalStreamRewriter<'a>,
    transformed: Seq<u8>,
    out: Seq<u8>,
    after: LocalStreamRewriter<'a>,
) -> bool {
    &&& after.context() == before.context()
    &&& after.holds_for_synthesis() == before.holds_for_synthesis()
    &&& if before.holds_for_synthesis() {
        &&& out == Seq::<u8>::empty()
        &&& after.held() == before.held() + transformed
        &&& after.released() == before.released()
    } else {
        &&& out == transformed
        &&& after.held() == before.held()
        &&& after.released() == (before.released() || transformed.len() > 0)
    }
}

/// What finishing with the surface's `trailing` bytes does: a held stream
/// goes through synthesis with all its bytes, and any other passes
/// `trailing` on; `after` is the new state.
pub open spec fn finish_step<'a>(
    before: LocalStreamRewriter<'a>,
    trailing: Seq<u8>,
    aggregated: Option<Json>,
    r: Result<Vec<u8>, GatewayError>,
    after: LocalStreamRewriter<'a>,
) -> bool {
    &&& after.context() == before.context()
    &&& after.holds_for_synthesis() == before.holds_for_synthesis()
    &&& if before.holds_for_synthesis() {
        &&& after.held() == Seq::<u8>::empty()
        &&& synthesis_finish_outcome(
            before.held() + trailing,
            before.context(),
            aggregated,
            before.released(),
            r,
            after.released(),
        )
    } else {
        &&& r matches Ok(b) && b@ == trailing
        &&& after.held() == before.held()
        &&& after.released() == (before.released() || trailing.len() > 0)
    }
}

/// The chunks one after another.
pub open spec fn concat_chunks(chunks: Seq<Seq<u8>>) -> Seq<u8>
    decreases chunks.len(),
{
    if chunks.len() == 0 {
        Seq::empty()
    } else {
        concat_chunks(chunks.drop_last()) + chunks.last()
    }
}

proof fn lemma_held_prefix<'a>(
    states: Seq<LocalStreamRewriter<'a>>,
    chunks: Seq<Seq<u8>>,
    outs: Seq<Seq<u8>>,
    k: int,
)
    requires
        states.len() == chunks.len() + 1,
        outs.len() == chunks.len(),
        0 <= k <= chunks.len(),
        states[0].holds_for_synthesis(),
        states[0].held() == Seq::<u8>::empty(),
        !states[0].released(),
        forall|i: int|
            0 <= i < chunks.len() ==> push_step(
                #[trigger] states[i],
                chunks[i],
                outs[i],
                states[i + 1],
            ),
    ensures
        states[k].holds_for_synthesis(),
        states[k].held() == concat_chunks(chunks.take(k)),
        !states[k].released(),
        states[k].context() == states[0].context(),
        forall|i: int| 0 <= i < k ==> #[trigger] outs[i] == Seq::<u8>::empty(),
    decreases k,
{
    if k == 0 {
        assert(chunks.take(0) =~= Seq::<Seq<u8>>::empty());
    } else {
        lemma_held_prefix(states, chunks, outs, k - 1);
        assert(push_step(states[k - 1], chunks[k - 1], outs[k - 1], states[k]));
        assert(chunks.take(k).drop_last() =~= chunks.take(k - 1));
        assert(chunks.take(k).last() == chunks[k - 1]);
    }
}

/// A stream held for synthesis releases nothing while chunks are pushed,
/// and finishing it runs synthesis over all the pushed bytes followed by the
/// trailing ones, as from a state where nothing went downstream; the held
/// bytes are gone afterwards.  `states[i]` is the rewriter before push `i`.
pub proof fn lemma_held_stream_finishes_on_all_chunks<'a>(
    states: Seq<LocalStreamRewriter<'a>>,
    chunks: Seq<Seq<u8>>,
    outs: Seq<Seq<u8>>,
    trailing: Seq<u8>,
    aggregated: Option<Json>,
    r: Result<Vec<u8>, GatewayError>,
    last: LocalStreamRewriter<'a>,
)
    requires
        states.len() == chunks.len() + 1,
        outs.len() == chunks.len(),
        states[0].holds_for_synthesis(),
        states[0].held() == Seq::<u8>::empty(),
        !states[0].released(),
        forall|i: int|
            0 <= i < chunks.len() ==> push_step(
                #[trigger] states[i],
                chunks[i],
                outs[i],
                states[i + 1],
            ),
        finish_step(states[chunks.len() as int], trailing, aggregated, r, last),
    ensures
        forall|i: int| 0 <= i < outs.len() ==> #[trigger] outs[i] == Seq::<u8>::empty(),
        last.held() == Seq::<u8>::empty(),
        synthesis_finish_outcome(
            concat_chunks(chunks) + trailing,
            states[0].context(),
            aggregated,
            false,
            r,
            last.released(),
        ),
{
    lemma_held_prefix(states, chunks, outs, chunks.len() as int);
    assert(chunks.take(chunks.len() as int) =~= chunks);
}

impl<'a> LocalStreamRewriter<'a> {
    /// The bytes held back for synthesis.
    pub fn held_bytes(&self) -> (r: &Vec<u8>)
        ensures
            r@ == self.held(),
    {
        &self.synthesis_buffer
    }

    /// Takes the client-visible bytes of a chunk (what the surface rewriter
    /// made of it, or the chunk itself where there is none) and returns what
    /// goes downstream now: nothing while the stream is held for synthesis,
    /// else the bytes themselves.
    pub fn push_chunk(&mut self, transformed: Vec<u8>) -> (r: Vec<u8>)
        ensures
            push_step(*old(self), transformed@, r@, *final(self)),
    {
        if self.needs_compact_synthesis {
            let mut t = transformed;
            self.synthesis_buffer.append(&mut t);
            return Vec::new();
        }
        if transformed.len() > 0 {
            self.released_downstream = true;
        }
        transformed
    }

    /// Ends the stream.  `trailing` is what the surface rewriter released at
    /// its end (nothing where there is none); `aggregated` is the response
    /// that aggregating the held bytes followed by `trailing` gives, if
    /// aggregation succeeds.  A held stream goes through synthesis; any other
    /// passes `trailing` on.
    pub fn finish(&mut self, trailing: Vec<u8>, aggregated: Option<&Json>) -> (r: Result<
        Vec<u8>,
        GatewayError,
    >)
        ensures
            finish_step(*old(self), trailing@, deref_opt(aggregated), r, *final(self)),
    {
        if self.needs_compact_synthesis {
            let mut t = trailing;
            self.synthesis_buffer.append(&mut t);
            let mut bytes: Vec<u8> = Vec::new();
            std::mem::swap(&mut bytes, &mut self.synthesis_buffer);
            return self.finish_compact_synthesis(bytes, aggregated);
        }
        if trailing.len() > 0 {
            self.released_downstream = true;
        }
        Ok(trailing)
    }

    fn finish_compact_synthesis(&mut self, bytes: Vec<u8>, aggregated: Option<&Json>) -> (r:
        Result<Vec<u8>, GatewayError>)
        ensures
            final(self).context() == old(self).context(),
            final(self).holds_for_synthesis() == old(self).holds_for_synthesis(),
            final(self).held() == old(self).held(),
            synthesis_finish_outcome(
                bytes@,
                old(self).context(),
                deref_opt(aggregated),
                old(self).released(),
                r,
                final(self).released(),
            ),
    {
        let sse = match utf8_text(bytes.as_slice()) {
            Some(s) => s,
            None => {
                if bytes.len() > 0 {
                    self.released_downstream = true;
                }
                return Ok(bytes);
            },
        };
        let model = context_model_of(Some(self.report_context));
        match maybe_rewrite_responses_sse_for_compact_synthesis(sse, model, true, true, aggregated) {
            Ok(Some(rewritten)) => {
                self.released_downstream = true;
                let out = rewritten.as_str().as_bytes_vec();
                Ok(out)
            },
            Ok(None) => {
                if bytes.len() > 0 {
                    self.released_downstream = true;
                }
                Ok(bytes)
            },
            Err(err) => {
                if self.released_downstream {
                    Ok(bytes)
                } else {
                    Err(GatewayError::Internal(err))
                }
            },
        }
    }
}

} // verus!
