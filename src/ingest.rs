//! The server side: what is answered to each request, and which artifacts
//! are stored for an accepted upload, in which order. Reading the streams
//! and writing the files happen around these decisions.
use vstd::prelude::*;
use vstd::slice::slice_subrange;

use crate::errors::{error_text, GiftError};
use crate::http::{
    header_view, headers_view, lemma_split_head_bounds, parse_request, parse_request_spec, Header,
};
use crate::wire::{buoy_path, lemma_upload_round_trip, upload_headers, upload_message};
use crate::text::{
    copy_range, decimal, end_boundary, end_boundary_bytes, ends_with, epoch_year,
    epoch_year_bytes, failure_prefix, failure_prefix_bytes, find_byte, get_token, get_token_bytes,
    has_prefix, has_suffix, id_prefix, id_prefix_bytes, index_of, json_between,
    json_between_bytes, json_close, json_close_bytes, json_comma, json_comma_bytes, json_open,
    json_open_bytes, json_quote, json_quote_bytes, name_buoy_id,
    name_buoy_id_bytes, name_decode_errors, name_decode_errors_bytes, name_start_time,
    name_start_time_bytes, newline, newline_bytes, post_method, post_method_bytes, post_token,
    post_token_bytes, push_all, push_decimal, response_not_implemented,
    response_not_implemented_bytes, response_ok, response_ok_bytes, same_bytes, starts_with,
};
use crate::{is_id_byte, valid_buoy_id, BuoyData, MIN_X3_FILE_SIZE};

verus! {

/// The identifier in a path `/id/<identifier>`, where it is 1 to 40 hex
/// digits or hyphens.
pub open spec fn path_buoy_id(path: Seq<u8>) -> Option<Seq<u8>> {
    if starts_with(path, id_prefix()) && valid_buoy_id(path.subrange(4, path.len() as int)) {
        Some(path.subrange(4, path.len() as int))
    } else {
        None
    }
}

/// The buoy identifier in a request path.
pub fn path_to_buoy_id(path: &[u8]) -> (r: Result<Vec<u8>, GiftError>)
    ensures
        match path_buoy_id(path@) {
            Some(id) => r is Ok && r->Ok_0@ == id,
            None => r == Err::<Vec<u8>, GiftError>(GiftError::HttpInvalidPath),
        },
{
    let prefix = id_prefix_bytes();
    if !has_prefix(path, prefix.as_slice()) {
        return Err(GiftError::HttpInvalidPath);
    }
    let n: usize = path.len();
    if n - 4 < 1 || n - 4 > 40 {
        return Err(GiftError::HttpInvalidPath);
    }
    let mut i: usize = 4;
    while i < n
        invariant
            n == path@.len(),
            4 <= i <= n,
            forall|k: int| 4 <= k < i ==> #[trigger] is_id_byte(path@[k]),
        decreases n - i,
    {
        let b = path[i];
        if !((48 <= b && b <= 57) || (65 <= b && b <= 70) || (97 <= b && b <= 102) || b == 45) {
            assert(path@.subrange(4, n as int)[i - 4] == b);
            assert(!is_id_byte(path@.subrange(4, n as int)[i - 4]));
            return Err(GiftError::HttpInvalidPath);
        }
        i = i + 1;
    }
    let id = copy_range(path, 4, n);
    assert forall|k: int| 0 <= k < id@.len() implies #[trigger] is_id_byte(id@[k]) by {
        assert(id@[k] == path@[4 + k]);
    }
    Ok(id)
}

/// The value of the first `Start-Time` header.
pub open spec fn start_time_header(hs: Seq<(Seq<u8>, Seq<u8>)>) -> Option<Seq<u8>>
    decreases hs.len(),
{
    if hs.len() == 0 {
        None
    } else if hs[0].0 == name_start_time() {
        Some(hs[0].1)
    } else {
        start_time_header(hs.drop_first())
    }
}

/// When a recording started: the first `Start-Time` header, unless it is
/// missing or still in the epoch year, in which case `now`.
pub open spec fn recording_date(hs: Seq<(Seq<u8>, Seq<u8>)>, now: Seq<u8>) -> Seq<u8> {
    match start_time_header(hs) {
        Some(v) => if starts_with(v, epoch_year()) {
            now
        } else {
            v
        },
        None => now,
    }
}

/// When a recording started, from the headers of its upload.
pub fn date_from_header(headers: &Vec<Header>, now: &[u8]) -> (r: Vec<u8>)
    ensures
        r@ == recording_date(headers_view(headers@), now@),
{
    let name = name_start_time_bytes();
    let year = epoch_year_bytes();
    let ghost hv = headers_view(headers@);
    let n: usize = headers.len();
    let mut i: usize = 0;
    assert(hv.subrange(0, hv.len() as int) =~= hv);
    while i < n
        invariant
            n == headers@.len(),
            hv == headers_view(headers@),
            name@ == name_start_time(),
            year@ == epoch_year(),
            i <= n,
            start_time_header(hv) == start_time_header(hv.subrange(i as int, n as int)),
        decreases n - i,
    {
        let ghost rest = hv.subrange(i as int, n as int);
        assert(rest[0] == header_view(headers@[i as int]));
        assert(rest.drop_first() =~= hv.subrange(i + 1, n as int));
        if same_bytes(headers[i].name.as_slice(), name.as_slice()) {
            let v = headers[i].value.as_slice();
            assert(start_time_header(rest) == Some(v@));
            if has_prefix(v, year.as_slice()) {
                assert(now@.subrange(0, now@.len() as int) =~= now@);
                return copy_range(now, 0, now.len());
            }
            assert(v@.subrange(0, v@.len() as int) =~= v@);
            return copy_range(v, 0, v.len());
        }
        i = i + 1;
    }
    assert(now@.subrange(0, now@.len() as int) =~= now@);
    copy_range(now, 0, now.len())
}

/// The first token of a request: up to and with its first space, or all of
/// it where there is none.
pub open spec fn first_token_spec(buf: Seq<u8>) -> Seq<u8> {
    let i = find_byte(buf, 32, 0);
    if i < buf.len() {
        buf.subrange(0, i as int + 1)
    } else {
        buf
    }
}

/// The first token of a request.
pub fn first_token(buf: &[u8]) -> (r: &[u8])
    ensures
        r@ == first_token_spec(buf@),
{
    let i = index_of(buf, 32, 0);
    if i < buf.len() {
        slice_subrange(buf, 0, i + 1)
    } else {
        buf
    }
}

/// The kinds of request of the protocol.
#[derive(Clone, Copy, Debug, PartialEq, Eq, Structural)]
pub enum HTTPRequestType {
    GET,
    HEAD,
    POST,
    PUT,
    DELETE,
    CONNECT,
    OPTIONS,
    TRACE,
    PATCH,
}

/// The kind of a request, from its first token; only fetches and uploads
/// are known.
pub open spec fn request_type_spec(buf: Seq<u8>) -> Result<HTTPRequestType, GiftError> {
    if first_token_spec(buf) == get_token() {
        Ok(HTTPRequestType::GET)
    } else if first_token_spec(buf) == post_token() {
        Ok(HTTPRequestType::POST)
    } else {
        Err(GiftError::HttpInvalidMethod)
    }
}

/// The kind of a request.
pub fn request_type(buf: &[u8]) -> (r: Result<HTTPRequestType, GiftError>)
    ensures
        r == request_type_spec(buf@),
{
    let token = first_token(buf);
    let get = get_token_bytes();
    let post = post_token_bytes();
    if same_bytes(token, get.as_slice()) {
        Ok(HTTPRequestType::GET)
    } else if same_bytes(token, post.as_slice()) {
        Ok(HTTPRequestType::POST)
    } else {
        Err(GiftError::HttpInvalidMethod)
    }
}

/// The reply to a request that is not an upload.
pub fn process_error(_buf: &[u8]) -> (r: Result<Vec<u8>, GiftError>)
    ensures
        r is Ok && r->Ok_0@ == response_not_implemented(),
{
    Ok(response_not_implemented_bytes())
}

/// What is stored for an accepted upload.
pub struct IngestPlan {
    /// The identifier of the buoy, from the path.
    pub buoy_id: Vec<u8>,
    /// When the recording started; with the identifier it names the files.
    pub date: Vec<u8>,
    /// The payload, without the end boundary.
    pub raw: Vec<u8>,
    /// Every header of the request, as received.
    pub headers: Vec<Header>,
    /// Whether the payload is long enough to be decoded and pictured.
    pub decode: bool,
}

pub struct PlanView {
    pub buoy_id: Seq<u8>,
    pub date: Seq<u8>,
    pub raw: Seq<u8>,
    pub headers: Seq<(Seq<u8>, Seq<u8>)>,
    pub decode: bool,
}

impl IngestPlan {
    pub open spec fn view(&self) -> PlanView {
        PlanView {
            buoy_id: self.buoy_id@,
            date: self.date@,
            raw: self.raw@,
            headers: headers_view(self.headers@),
            decode: self.decode,
        }
    }
}

/// The plan for a request, or why it is refused: it must frame a request,
/// be an upload, name a buoy in its path, and end with the end boundary.
/// Payloads longer than twice the minimum file size are decoded.
pub open spec fn ingest_spec(buf: Seq<u8>, now: Seq<u8>) -> Result<PlanView, GiftError> {
    match parse_request_spec(buf) {
        None => Err(GiftError::HttpInvalidRequest),
        Some(req) => if req.method != post_method() {
            Err(GiftError::HttpInvalidMethod)
        } else {
            match path_buoy_id(req.path) {
                None => Err(GiftError::HttpInvalidPath),
                Some(id) => if !ends_with(req.body, end_boundary()) {
                    Err(GiftError::HttpMissingBoundary)
                } else {
                    let raw = req.body.subrange(0, req.body.len() - end_boundary().len());
                    Ok(
                        PlanView {
                            buoy_id: id,
                            date: recording_date(req.headers, now),
                            raw,
                            headers: req.headers,
                            decode: raw.len() > 2 * MIN_X3_FILE_SIZE,
                        },
                    )
                },
            }
        },
    }
}

/// Checks an upload and plans what is stored for it; `now` dates a
/// recording whose upload carries no usable start time.
pub fn process_post(buf: &[u8], now: &[u8]) -> (r: Result<IngestPlan, GiftError>)
    ensures
        match ingest_spec(buf@, now@) {
            Ok(p) => r is Ok && r->Ok_0.view() == p,
            Err(e) => r == Err::<IngestPlan, GiftError>(e),
        },
{
    let req = parse_request(buf)?;
    let post = post_method_bytes();
    if !same_bytes(req.method.as_slice(), post.as_slice()) {
        return Err(GiftError::HttpInvalidMethod);
    }
    let buoy_id = path_to_buoy_id(req.path.as_slice())?;
    let boundary = end_boundary_bytes();
    if !has_suffix(req.body.as_slice(), boundary.as_slice()) {
        return Err(GiftError::HttpMissingBoundary);
    }
    let raw = copy_range(req.body.as_slice(), 0, req.body.len() - boundary.len());
    let date = date_from_header(&req.headers, now);
    let decode = raw.len() > 2 * MIN_X3_FILE_SIZE;
    Ok(IngestPlan { buoy_id, date, raw, headers: req.headers, decode })
}

/// One step of storing an upload.
#[derive(Clone, Copy, Debug, PartialEq, Eq, Structural)]
pub enum IngestStep {
    /// Write the payload to `<id>.<date>.bin`.
    WriteRaw,
    /// Decode the payload into `<id>.<date>.wav`, counting decode errors.
    DecodeWaveform,
    /// Draw the spectrogram of the sound into `<id>.<date>.png`.
    RenderSpectrogram,
    /// Write the headers, the decode errors and the identifier to
    /// `<id>.<date>.json`.
    WriteMetadata,
}

pub open spec fn ingest_steps_spec(decode: bool) -> Seq<IngestStep> {
    if decode {
        seq![
            IngestStep::WriteRaw,
            IngestStep::DecodeWaveform,
            IngestStep::RenderSpectrogram,
            IngestStep::WriteMetadata,
        ]
    } else {
        seq![IngestStep::WriteRaw, IngestStep::WriteMetadata]
    }
}

/// The steps that store an upload, in the order they must run. The raw
/// payload comes first, and the metadata, whose appearance tells that the
/// upload is processed, comes last and only there.
pub fn ingest_steps(plan: &IngestPlan) -> (r: Vec<IngestStep>)
    ensures
        r@ == ingest_steps_spec(plan.decode),
        r@.len() >= 2,
        r@[0] == IngestStep::WriteRaw,
        r@.last() == IngestStep::WriteMetadata,
        forall|i: int| 0 <= i < r@.len() - 1 ==> r@[i] != IngestStep::WriteMetadata,
        plan.decode <==> r@.contains(IngestStep::DecodeWaveform),
        plan.decode <==> r@.contains(IngestStep::RenderSpectrogram),
{
    let mut r: Vec<IngestStep> = Vec::new();
    r.push(IngestStep::WriteRaw);
    if plan.decode {
        r.push(IngestStep::DecodeWaveform);
        r.push(IngestStep::RenderSpectrogram);
    }
    r.push(IngestStep::WriteMetadata);
    assert(r@ =~= ingest_steps_spec(plan.decode));
    if plan.decode {
        assert(r@[1] == IngestStep::DecodeWaveform);
        assert(r@[2] == IngestStep::RenderSpectrogram);
    } else {
        assert(!r@.contains(IngestStep::DecodeWaveform)) by {
            assert forall|i: int| 0 <= i < r@.len() implies r@[i] != IngestStep::DecodeWaveform by {}
        }
        assert(!r@.contains(IngestStep::RenderSpectrogram)) by {
            assert forall|i: int| 0 <= i < r@.len() implies r@[i]
                != IngestStep::RenderSpectrogram by {}
        }
    }
    r
}

/// One field of the metadata: `"name": "value"`.
pub open spec fn json_field(name: Seq<u8>, value: Seq<u8>) -> Seq<u8> {
    json_quote() + name + json_between() + value + json_quote()
}

/// A field for each header, each followed by a comma.
pub open spec fn json_header_fields(hs: Seq<(Seq<u8>, Seq<u8>)>) -> Seq<u8>
    decreases hs.len(),
{
    if hs.len() == 0 {
        Seq::empty()
    } else {
        json_field(hs[0].0, hs[0].1) + json_comma() + json_header_fields(hs.drop_first())
    }
}

/// The metadata of an upload: every header as received, then the number
/// of decode errors and the buoy identifier.
pub open spec fn metadata_spec(
    hs: Seq<(Seq<u8>, Seq<u8>)>,
    buoy_id: Seq<u8>,
    decode_errors: nat,
) -> Seq<u8> {
    json_open() + json_header_fields(hs) + json_field(name_decode_errors(), decimal(decode_errors))
        + json_comma() + json_field(name_buoy_id(), buoy_id) + json_close()
}

proof fn lemma_fields_push(hs: Seq<(Seq<u8>, Seq<u8>)>, h: (Seq<u8>, Seq<u8>))
    ensures
        json_header_fields(hs.push(h)) == json_header_fields(hs) + json_field(h.0, h.1)
            + json_comma(),
    decreases hs.len(),
{
    let s = hs.push(h);
    if hs.len() == 0 {
        assert(s.drop_first() =~= Seq::<(Seq<u8>, Seq<u8>)>::empty());
        assert(s[0] == h);
        assert(json_header_fields(s.drop_first()) == Seq::<u8>::empty());
        assert(json_header_fields(s) =~= json_field(h.0, h.1) + json_comma());
        assert(json_header_fields(hs) + json_field(h.0, h.1) + json_comma() =~= json_field(
            h.0,
            h.1,
        ) + json_comma());
    } else {
        assert(s.drop_first() =~= hs.drop_first().push(h));
        lemma_fields_push(hs.drop_first(), h);
        assert(json_header_fields(s) =~= json_field(hs[0].0, hs[0].1) + json_comma() + (
        json_header_fields(hs.drop_first()) + json_field(h.0, h.1) + json_comma()));
    }
}

fn push_json_field(out: &mut Vec<u8>, name: &[u8], value: &[u8])
    ensures
        final(out)@ == old(out)@ + json_field(name@, value@),
{
    push_all(out, json_quote_bytes().as_slice());
    push_all(out, name);
    push_all(out, json_between_bytes().as_slice());
    push_all(out, value);
    push_all(out, json_quote_bytes().as_slice());
    assert(final(out)@ =~= old(out)@ + json_field(name@, value@));
}

/// The metadata file of an upload.
pub fn metadata_json(headers: &Vec<Header>, buoy_id: &[u8], decode_errors: usize) -> (r: Vec<u8>)
    ensures
        r@ == metadata_spec(headers_view(headers@), buoy_id@, decode_errors as nat),
{
    let mut out = json_open_bytes();
    let ghost start = out@;
    let ghost hv = headers_view(headers@);
    let n: usize = headers.len();
    let mut i: usize = 0;
    assert(hv.subrange(0, 0) =~= Seq::<(Seq<u8>, Seq<u8>)>::empty());
    assert(start + Seq::<u8>::empty() =~= start);
    while i < n
        invariant
            n == headers@.len(),
            hv == headers_view(headers@),
            start == json_open(),
            i <= n,
            out@ == start + json_header_fields(hv.subrange(0, i as int)),
        decreases n - i,
    {
        let ghost done = hv.subrange(0, i as int);
        push_json_field(&mut out, headers[i].name.as_slice(), headers[i].value.as_slice());
        push_all(&mut out, json_comma_bytes().as_slice());
        proof {
            assert(hv[i as int] == header_view(headers@[i as int]));
            assert(hv.subrange(0, i + 1) =~= done.push(hv[i as int]));
            lemma_fields_push(done, hv[i as int]);
            assert(out@ =~= start + (json_header_fields(done) + json_field(
                hv[i as int].0,
                hv[i as int].1,
            ) + json_comma()));
        }
        i = i + 1;
    }
    assert(hv.subrange(0, n as int) =~= hv);
    let mut count: Vec<u8> = Vec::new();
    push_decimal(&mut count, decode_errors as u64);
    assert(count@ =~= decimal(decode_errors as nat));
    push_json_field(&mut out, name_decode_errors_bytes().as_slice(), count.as_slice());
    push_all(&mut out, json_comma_bytes().as_slice());
    push_json_field(&mut out, name_buoy_id_bytes().as_slice(), buoy_id);
    push_all(&mut out, json_close_bytes().as_slice());
    assert(out@ =~= metadata_spec(hv, buoy_id@, decode_errors as nat));
    out
}

/// The reply to an upload that was refused.
pub open spec fn failure_response(e: GiftError) -> Seq<u8> {
    failure_prefix() + error_text(e) + newline()
}

/// The answer to one request, and the plan of what to store, if anything.
pub struct Reply {
    pub response: Vec<u8>,
    pub plan: Option<IngestPlan>,
}

/// The answer to a request: an upload that passes every check is
/// acknowledged and planned; a refused upload gets the reason; any other
/// request is not implemented.
pub fn handle_request(req: &[u8], now: &[u8]) -> (r: Reply)
    ensures
        request_type_spec(req@) == Ok::<HTTPRequestType, GiftError>(HTTPRequestType::POST) ==> match ingest_spec(req@, now@) {
            Ok(p) => r.response@ == response_ok() && r.plan is Some && r.plan->0.view() == p,
            Err(e) => r.response@ == failure_response(e) && r.plan is None,
        },
        request_type_spec(req@) != Ok::<HTTPRequestType, GiftError>(HTTPRequestType::POST) ==> r.response@
            == response_not_implemented() && r.plan is None,
{
    match request_type(req) {
        Ok(HTTPRequestType::POST) => match process_post(req, now) {
            Ok(plan) => Reply { response: response_ok_bytes(), plan: Some(plan) },
            Err(e) => {
                let mut response = failure_prefix_bytes();
                push_all(&mut response, e.describe().as_slice());
                push_all(&mut response, newline_bytes().as_slice());
                Reply { response, plan: None }
            },
        },
        _ => {
            let response = match process_error(req) {
                Ok(b) => b,
                Err(_) => response_not_implemented_bytes(),
            };
            Reply { response, plan: None }
        },
    }
}

} // verus!

verus! {

/// An upload of a record is accepted, and the plan stores its hydrophone
/// data as raw payload, under the record's identifier, with every header it
/// carried; it is dated by its start time unless that is in the epoch year.
pub proof fn lemma_upload_accepted(d: BuoyData, now: Seq<u8>)
    requires
        d.wf(),
    ensures
        ingest_spec(upload_message(d), now) == Ok::<PlanView, GiftError>(
            PlanView {
                buoy_id: d.id@,
                date: if starts_with(d.start_time@, epoch_year()) {
                    now
                } else {
                    d.start_time@
                },
                raw: d.hydrophone@,
                headers: upload_headers(d),
                decode: d.hydrophone@.len() > 2 * MIN_X3_FILE_SIZE,
            },
        ),
{
    lemma_upload_round_trip(d);
    let path = buoy_path(d.id@);
    assert(path.subrange(0, 4) =~= id_prefix());
    assert(path.subrange(4, path.len() as int) =~= d.id@);
    let body = d.hydrophone@ + end_boundary();
    assert(body.subrange(body.len() - 12, body.len() as int) =~= end_boundary());
    assert(body.subrange(0, body.len() - 12) =~= d.hydrophone@);
    let hs = upload_headers(d);
    assert(hs[0].0 != name_start_time());
    assert(hs[1].0 != name_start_time());
    assert(hs[2].0 != name_start_time());
    assert(hs[3].0 != name_start_time());
    assert(hs[4].0 != name_start_time());
    let h1 = hs.drop_first();
    let h2 = h1.drop_first();
    let h3 = h2.drop_first();
    let h4 = h3.drop_first();
    let h5 = h4.drop_first();
    assert(h1[0] == hs[1] && h2[0] == hs[2] && h3[0] == hs[3] && h4[0] == hs[4]);
    assert(h5[0] == hs[5]);
    assert(start_time_header(h5) == Some(d.start_time@));
    assert(start_time_header(h4) == start_time_header(h5));
    assert(start_time_header(h3) == start_time_header(h4));
    assert(start_time_header(h2) == start_time_header(h3));
    assert(start_time_header(h1) == start_time_header(h2));
    assert(start_time_header(hs) == start_time_header(h1));
}

/// A request that does not end with the end boundary is never planned for
/// storage, so no file is written for it.
pub proof fn lemma_no_boundary_no_files(buf: Seq<u8>, now: Seq<u8>)
    requires
        !ends_with(buf, end_boundary()),
    ensures
        ingest_spec(buf, now) is Err,
{
    match parse_request_spec(buf) {
        None => {},
        Some(req) => {
            lemma_body_is_suffix(buf);
            let body = req.body;
            if ends_with(body, end_boundary()) {
                let k = buf.len() - body.len();
                assert(buf.subrange(buf.len() - 12, buf.len() as int) =~= body.subrange(
                    body.len() - 12,
                    body.len() as int,
                )) by {
                    assert forall|i: int| 0 <= i < 12 implies buf.subrange(
                        buf.len() - 12,
                        buf.len() as int,
                    )[i] == #[trigger] body.subrange(body.len() - 12, body.len() as int)[i] by {
                        assert(body[body.len() - 12 + i] == buf[k + body.len() - 12 + i]);
                    }
                }
            }
        },
    }
}

proof fn lemma_body_is_suffix(buf: Seq<u8>)
    ensures
        match parse_request_spec(buf) {
            None => true,
            Some(req) => req.body.len() <= buf.len() && forall|i: int|
                0 <= i < req.body.len() ==> #[trigger] req.body[i] == buf[buf.len() - req.body.len()
                    + i],
        },
{
    lemma_split_head_bounds(buf, 0, 0);
}

} // verus!
