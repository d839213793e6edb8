//! The upload message that the buoy sends for each record.
use vstd::prelude::*;

use crate::http::{
    crlf_at, header_view, headers_view, parse_header_lines, parse_request_spec, split_head,
    split_header_line, split_request_line, Header, RequestView,
};
use crate::text::{
    colon_space, colon_space_bytes, content_type, content_type_bytes, crlf, crlf_bytes, decimal,
    end_boundary, end_boundary_bytes, http_version, http_version_bytes, id_prefix, id_prefix_bytes,
    name_battery_voltage, name_battery_voltage_bytes, name_content_type, name_content_type_bytes,
    name_dropped_blocks, name_dropped_blocks_bytes, name_gps, name_gps_bytes, name_host,
    name_host_bytes, name_length, name_length_bytes, name_start_time, name_start_time_bytes,
    name_sw_version, name_sw_version_bytes, name_uptime, name_uptime_bytes, post_method,
    post_method_bytes, push_all, push_decimal, push_signed_decimal, push_volts, signed_decimal,
    sw_version, sw_version_bytes, volts_text, lemma_find_byte_at,
};
use crate::{is_id_byte, valid_buoy_id, BuoyData};

verus! {

/// One header line: the name, a colon and a space, the value, CR LF.
pub open spec fn header_line(h: (Seq<u8>, Seq<u8>)) -> Seq<u8> {
    h.0 + colon_space() + h.1 + crlf()
}

/// The header lines, in order.
pub open spec fn render_headers(hs: Seq<(Seq<u8>, Seq<u8>)>) -> Seq<u8>
    decreases hs.len(),
{
    if hs.len() == 0 {
        Seq::empty()
    } else {
        header_line(hs[0]) + render_headers(hs.drop_first())
    }
}

/// The path under which a buoy uploads: `/id/` and its identifier.
pub open spec fn buoy_path(id: Seq<u8>) -> Seq<u8> {
    id_prefix() + id
}

/// A request line: method, space, path, space, version, CR LF.
pub open spec fn request_line(method: Seq<u8>, path: Seq<u8>) -> Seq<u8> {
    method + seq![32u8] + path + seq![32u8] + http_version() + crlf()
}

/// The headers of the upload of a record, in the order they are sent.
pub open spec fn upload_headers(d: BuoyData) -> Seq<(Seq<u8>, Seq<u8>)> {
    seq![
        (name_host(), buoy_path(d.id@)),
        (name_content_type(), content_type()),
        (name_battery_voltage(), volts_text(d.voltage_mv as int)),
        (name_dropped_blocks(), decimal(d.dropped_blocks as nat)),
        (name_gps(), d.gps@),
        (name_start_time(), d.start_time@),
        (name_uptime(), signed_decimal(d.uptime as int)),
        (name_sw_version(), sw_version()),
        (name_length(), decimal(d.hydrophone@.len())),
    ]
}

/// The upload of a record: request line, headers, blank line, the
/// hydrophone bytes and the end boundary.
pub open spec fn upload_message(d: BuoyData) -> Seq<u8> {
    request_line(post_method(), buoy_path(d.id@)) + render_headers(upload_headers(d)) + crlf()
        + d.hydrophone@ + end_boundary()
}

proof fn lemma_render_push(hs: Seq<(Seq<u8>, Seq<u8>)>, h: (Seq<u8>, Seq<u8>))
    ensures
        render_headers(hs.push(h)) == render_headers(hs) + header_line(h),
    decreases hs.len(),
{
    if hs.len() == 0 {
        let s = hs.push(h);
        assert(s.drop_first() =~= Seq::<(Seq<u8>, Seq<u8>)>::empty());
        assert(s[0] == h);
        assert(render_headers(s.drop_first()) == Seq::<u8>::empty());
        assert(render_headers(s) == header_line(h) + render_headers(s.drop_first()));
        assert(header_line(h) + Seq::<u8>::empty() =~= header_line(h));
        assert(render_headers(hs) + header_line(h) =~= header_line(h));
    } else {
        assert(hs.push(h).drop_first() =~= hs.drop_first().push(h));
        lemma_render_push(hs.drop_first(), h);
        assert(render_headers(hs.push(h)) =~= header_line(hs[0]) + (render_headers(
            hs.drop_first(),
        ) + header_line(h)));
    }
}

fn header(name: Vec<u8>, value: Vec<u8>) -> (r: Header)
    ensures
        header_view(r) == (name@, value@),
{
    Header { name, value }
}

/// The headers of the upload of a record.
fn upload_header_list(buoy: &BuoyData) -> (r: Vec<Header>)
    ensures
        headers_view(r@) == upload_headers(*buoy),
{
    let mut host = id_prefix_bytes();
    push_all(&mut host, buoy.id.as_slice());
    let mut volts: Vec<u8> = Vec::new();
    push_volts(&mut volts, buoy.voltage_mv);
    let mut dropped: Vec<u8> = Vec::new();
    push_decimal(&mut dropped, buoy.dropped_blocks as u64);
    let mut gps: Vec<u8> = Vec::new();
    push_all(&mut gps, buoy.gps.as_slice());
    let mut start: Vec<u8> = Vec::new();
    push_all(&mut start, buoy.start_time.as_slice());
    let mut uptime: Vec<u8> = Vec::new();
    push_signed_decimal(&mut uptime, buoy.uptime);
    let mut length: Vec<u8> = Vec::new();
    push_decimal(&mut length, buoy.hydrophone.len() as u64);

    let mut r: Vec<Header> = Vec::new();
    r.push(header(name_host_bytes(), host));
    r.push(header(name_content_type_bytes(), content_type_bytes()));
    r.push(header(name_battery_voltage_bytes(), volts));
    r.push(header(name_dropped_blocks_bytes(), dropped));
    r.push(header(name_gps_bytes(), gps));
    r.push(header(name_start_time_bytes(), start));
    r.push(header(name_uptime_bytes(), uptime));
    r.push(header(name_sw_version_bytes(), sw_version_bytes()));
    r.push(header(name_length_bytes(), length));
    assert(Seq::<u8>::empty() + buoy.gps@ =~= buoy.gps@);
    assert(Seq::<u8>::empty() + buoy.start_time@ =~= buoy.start_time@);
    assert(headers_view(r@) =~= upload_headers(*buoy));
    r
}

/// Appends the header lines of `hs`.
fn push_headers(out: &mut Vec<u8>, hs: &Vec<Header>)
    ensures
        final(out)@ == old(out)@ + render_headers(headers_view(hs@)),
{
    let n: usize = hs.len();
    let mut i: usize = 0;
    assert(headers_view(hs@).subrange(0, 0) =~= Seq::<(Seq<u8>, Seq<u8>)>::empty());
    assert(old(out)@ + Seq::<u8>::empty() =~= old(out)@);
    while i < n
        invariant
            n == hs@.len(),
            i <= n,
            out@ == old(out)@ + render_headers(headers_view(hs@).subrange(0, i as int)),
        decreases n - i,
    {
        let h = &hs[i];
        let ghost before = out@;
        push_all(out, h.name.as_slice());
        let sep = colon_space_bytes();
        push_all(out, sep.as_slice());
        push_all(out, h.value.as_slice());
        let brk = crlf_bytes();
        push_all(out, brk.as_slice());
        proof {
            let done = headers_view(hs@).subrange(0, i as int);
            assert(headers_view(hs@).subrange(0, i + 1) =~= done.push(header_view(hs@[i as int])));
            lemma_render_push(done, header_view(hs@[i as int]));
            assert(out@ =~= old(out)@ + render_headers(done) + header_line(
                header_view(hs@[i as int]),
            ));
        }
        i = i + 1;
    }
    assert(headers_view(hs@).subrange(0, n as int) =~= headers_view(hs@));
}

/// The upload message of a record.
pub fn build_http_post(buoy: &BuoyData) -> (r: Vec<u8>)
    ensures
        r@ == upload_message(*buoy),
{
    let mut post = post_method_bytes();
    post.push(32);
    push_all(&mut post, id_prefix_bytes().as_slice());
    push_all(&mut post, buoy.id.as_slice());
    post.push(32);
    push_all(&mut post, http_version_bytes().as_slice());
    push_all(&mut post, crlf_bytes().as_slice());
    assert(post@ =~= request_line(post_method(), buoy_path(buoy.id@)));
    let headers = upload_header_list(buoy);
    push_headers(&mut post, &headers);
    push_all(&mut post, crlf_bytes().as_slice());
    push_all(&mut post, buoy.hydrophone.as_slice());
    push_all(&mut post, end_boundary_bytes().as_slice());
    post
}

} // verus!

verus! {

/// `s` holds no byte `c`.
pub open spec fn lacks(s: Seq<u8>, c: u8) -> bool {
    forall|i: int| 0 <= i < s.len() ==> #[trigger] s[i] != c
}

/// The lines of a head, each followed by CR LF.
pub open spec fn render_lines(ls: Seq<Seq<u8>>) -> Seq<u8>
    decreases ls.len(),
{
    if ls.len() == 0 {
        Seq::empty()
    } else {
        ls[0] + crlf() + render_lines(ls.drop_first())
    }
}

/// The header lines without their line breaks.
pub open spec fn header_texts(hs: Seq<(Seq<u8>, Seq<u8>)>) -> Seq<Seq<u8>> {
    hs.map_values(|h: (Seq<u8>, Seq<u8>)| h.0 + colon_space() + h.1)
}

/// A header that the framing carries: a non-empty name without colon or CR,
/// a value without CR.
pub open spec fn carried_header(h: (Seq<u8>, Seq<u8>)) -> bool {
    &&& h.0.len() > 0
    &&& lacks(h.0, 58)
    &&& lacks(h.0, 13)
    &&& lacks(h.1, 13)
}

proof fn lemma_lacks_concat(a: Seq<u8>, b: Seq<u8>, c: u8)
    requires
        lacks(a, c),
        lacks(b, c),
    ensures
        lacks(a + b, c),
{
    assert forall|i: int| 0 <= i < (a + b).len() implies #[trigger] (a + b)[i] != c by {
        if i >= a.len() {
            assert((a + b)[i] == b[i - a.len()]);
        }
    }
}

proof fn lemma_decimal_digits(n: nat)
    ensures
        forall|i: int| 0 <= i < decimal(n).len() ==> 48 <= #[trigger] decimal(n)[i] <= 57,
    decreases n,
{
    if n >= 10 {
        lemma_decimal_digits(n / 10);
        let a = decimal(n / 10);
        let b = seq![(48 + n % 10) as u8];
        assert forall|i: int| 0 <= i < decimal(n).len() implies 48 <= #[trigger] decimal(n)[i]
            <= 57 by {
            if i < a.len() {
                assert(decimal(n)[i] == a[i]);
            } else {
                assert(decimal(n)[i] == b[i - a.len()]);
            }
        }
    }
}

proof fn lemma_decimal_lacks_cr(n: nat)
    ensures
        lacks(decimal(n), 13),
{
    lemma_decimal_digits(n);
}

proof fn lemma_signed_decimal_lacks_cr(n: int)
    ensures
        lacks(signed_decimal(n), 13),
{
    if n < 0 {
        lemma_decimal_lacks_cr((-n) as nat);
        lemma_lacks_concat(seq![45u8], decimal((-n) as nat), 13);
    } else {
        lemma_decimal_lacks_cr(n as nat);
    }
}

proof fn lemma_volts_lacks_cr(mv: int)
    ensures
        lacks(volts_text(mv), 13),
{
    let m = if mv < 0 { -mv } else { mv };
    let frac = m % 1000;
    let sign = if mv < 0 { seq![45u8] } else { Seq::<u8>::empty() };
    let tail = seq![
        46u8,
        (48 + frac / 100) as u8,
        (48 + (frac / 10) % 10) as u8,
        (48 + frac % 10) as u8,
    ];
    lemma_decimal_lacks_cr((m / 1000) as nat);
    lemma_lacks_concat(sign, decimal((m / 1000) as nat), 13);
    assert(lacks(tail, 13));
    lemma_lacks_concat(sign + decimal((m / 1000) as nat), tail, 13);
}

proof fn lemma_render_lines_headers(hs: Seq<(Seq<u8>, Seq<u8>)>)
    ensures
        render_headers(hs) == render_lines(header_texts(hs)),
    decreases hs.len(),
{
    if hs.len() > 0 {
        assert(header_texts(hs).drop_first() =~= header_texts(hs.drop_first()));
        lemma_render_lines_headers(hs.drop_first());
        assert(header_line(hs[0]) + render_headers(hs.drop_first()) =~= header_texts(hs)[0]
            + crlf() + render_lines(header_texts(hs).drop_first()));
    } else {
        assert(header_texts(hs) =~= Seq::<Seq<u8>>::empty());
    }
}

/// Scanning a line that holds no CR does not change the outcome.
proof fn lemma_scan_line(buf: Seq<u8>, start: nat, q: nat, e: nat)
    requires
        start <= q <= e,
        e + 1 < buf.len(),
        forall|k: int| q <= k < e ==> #[trigger] buf[k] != 13,
    ensures
        split_head(buf, start, q) == split_head(buf, start, e),
    decreases e - q,
{
    if q < e {
        lemma_scan_line(buf, start, q + 1, e);
    }
}

/// A head made of non-empty lines without CR, closed by a blank line, is
/// cut into exactly those lines.
proof fn lemma_split_rendered(buf: Seq<u8>, p: nat, ls: Seq<Seq<u8>>)
    requires
        p + render_lines(ls).len() + 2 <= buf.len(),
        buf.subrange(p as int, p as int + render_lines(ls).len() + 2) == render_lines(ls) + crlf(),
        forall|i: int| 0 <= i < ls.len() ==> (#[trigger] ls[i]).len() > 0 && lacks(ls[i], 13),
    ensures
        split_head(buf, p, p) == Some((ls, (p + render_lines(ls).len() + 2) as nat)),
    decreases ls.len(),
{
    let seg = render_lines(ls) + crlf();
    assert forall|k: int| 0 <= k < seg.len() implies buf[p + k] == #[trigger] seg[k] by {
        assert(buf.subrange(p as int, p as int + seg.len())[k] == buf[p + k]);
    }
    if ls.len() == 0 {
        assert(seg[0] == 13 && seg[1] == 10);
        assert(buf[p as int] == 13 && buf[p as int + 1] == 10);
    } else {
        let l = ls[0];
        let rest = ls.drop_first();
        let e = (p + l.len()) as nat;
        let tail = render_lines(rest);
        assert(render_lines(ls) == l + crlf() + tail);
        assert(seg =~= l + (crlf() + (tail + crlf())));
        assert forall|k: int| p <= k < e implies #[trigger] buf[k] != 13 by {
            assert(seg[k - p] == l[k - p]);
            assert(buf[p + (k - p)] == seg[k - p]);
        }
        assert(seg[l.len() as int] == 13 && seg[l.len() as int + 1] == 10);
        assert(buf[p as int + l.len()] == 13);
        assert(buf[p as int + l.len() + 1] == 10);
        lemma_scan_line(buf, p, p, e);
        assert(crlf_at(buf, e as int));
        let p2 = (e + 2) as nat;
        assert forall|i: int| 0 <= i < rest.len() implies (#[trigger] rest[i]).len() > 0 && lacks(
            rest[i],
            13,
        ) by {
            assert(rest[i] == ls[i + 1]);
        }
        assert(buf.subrange(p2 as int, p2 as int + tail.len() + 2) =~= tail + crlf()) by {
            assert forall|k: int| 0 <= k < tail.len() + 2 implies buf.subrange(
                p2 as int,
                p2 as int + tail.len() + 2,
            )[k] == #[trigger] (tail + crlf())[k] by {
                assert(seg[l.len() + 2 + k] == (tail + crlf())[k]);
                assert(buf[p + (l.len() + 2 + k)] == seg[l.len() + 2 + k]);
            }
        }
        lemma_split_rendered(buf, p2, rest);
        assert(buf.subrange(p as int, e as int) =~= l) by {
            assert forall|k: int| 0 <= k < l.len() implies buf.subrange(p as int, e as int)[k]
                == #[trigger] l[k] by {
                assert(seg[k] == l[k]);
                assert(buf[p + k] == seg[k]);
            }
        }
        assert(seq![l] + rest =~= ls);
    }
}

proof fn lemma_split_header_text(h: (Seq<u8>, Seq<u8>))
    requires
        carried_header(h),
    ensures
        split_header_line(h.0 + colon_space() + h.1) == Some(h),
{
    let line = h.0 + colon_space() + h.1;
    let c = h.0.len();
    assert(line[c as int] == 58);
    assert forall|i: int| 0 <= i < c implies line[i] != 58 by {
        assert(line[i] == h.0[i]);
    }
    lemma_find_byte_at(line, 58, 0, c);
    assert(line.subrange(0, c as int) =~= h.0);
    let rest = line.subrange(c as int + 1, line.len() as int);
    assert(rest[0] == 32);
    assert(rest.drop_first() =~= h.1);
}

proof fn lemma_parse_header_texts(hs: Seq<(Seq<u8>, Seq<u8>)>)
    requires
        forall|i: int| 0 <= i < hs.len() ==> carried_header(#[trigger] hs[i]),
    ensures
        parse_header_lines(header_texts(hs)) == Some(hs),
    decreases hs.len(),
{
    if hs.len() > 0 {
        lemma_split_header_text(hs[0]);
        assert(header_texts(hs).drop_first() =~= header_texts(hs.drop_first()));
        assert forall|i: int| 0 <= i < hs.drop_first().len() implies carried_header(
            #[trigger] hs.drop_first()[i],
        ) by {
            assert(hs.drop_first()[i] == hs[i + 1]);
        }
        lemma_parse_header_texts(hs.drop_first());
        assert(seq![hs[0]] + hs.drop_first() =~= hs);
    } else {
        assert(header_texts(hs) =~= Seq::<Seq<u8>>::empty());
    }
}

proof fn lemma_upload_headers_carried(d: BuoyData)
    requires
        d.wf(),
    ensures
        forall|i: int|
            0 <= i < upload_headers(d).len() ==> carried_header(#[trigger] upload_headers(d)[i]),
{
    let hs = upload_headers(d);
    assert(lacks(id_prefix(), 13));
    assert(lacks(d.id@, 13)) by {
        assert forall|i: int| 0 <= i < d.id@.len() implies #[trigger] d.id@[i] != 13 by {
            assert(is_id_byte(d.id@[i]));
        }
    }
    lemma_lacks_concat(id_prefix(), d.id@, 13);
    lemma_volts_lacks_cr(d.voltage_mv as int);
    lemma_decimal_lacks_cr(d.dropped_blocks as nat);
    lemma_signed_decimal_lacks_cr(d.uptime as int);
    lemma_decimal_lacks_cr(d.hydrophone@.len());
    assert(lacks(d.gps@, 13));
    assert(lacks(d.start_time@, 13));
    assert(carried_header(hs[0]));
    assert(carried_header(hs[1]));
    assert(carried_header(hs[2]));
    assert(carried_header(hs[3]));
    assert(carried_header(hs[4]));
    assert(carried_header(hs[5]));
    assert(carried_header(hs[6]));
    assert(carried_header(hs[7]));
    assert(carried_header(hs[8]));
}

/// The request line of an upload.
pub open spec fn upload_request_text(id: Seq<u8>) -> Seq<u8> {
    post_method() + seq![32u8] + buoy_path(id) + seq![32u8] + http_version()
}

proof fn lemma_split_upload_request(id: Seq<u8>)
    requires
        valid_buoy_id(id),
    ensures
        split_request_line(upload_request_text(id)) == Some((post_method(), buoy_path(id), http_version())),
        upload_request_text(id).len() > 0,
        lacks(upload_request_text(id), 13),
{
    let path = buoy_path(id);
    let line = upload_request_text(id);
    assert(line =~= post_method() + (seq![32u8] + (path + (seq![32u8] + http_version()))));
    assert(forall|i: int| 0 <= i < id.len() ==> #[trigger] is_id_byte(id[i]));
    assert(lacks(path, 32) && lacks(path, 13)) by {
        assert forall|i: int| 0 <= i < path.len() implies #[trigger] path[i] != 32 && path[i] != 13 by {
            if i >= 4 {
                assert(path[i] == id[i - 4]);
                assert(is_id_byte(id[i - 4]));
            }
        }
    }
    assert(line[4] == 32);
    assert forall|i: int| 0 <= i < 4 implies line[i] != 32 by {}
    lemma_find_byte_at(line, 32, 0, 4);
    let b = (5 + path.len()) as nat;
    assert(line[b as int] == 32);
    assert forall|i: int| 5 <= i < b implies line[i] != 32 by {
        assert(line[i] == path[i - 5]);
    }
    lemma_find_byte_at(line, 32, 5, b);
    assert(line.subrange(0, 4) =~= post_method());
    assert(line.subrange(5, b as int) =~= path);
    assert(line.subrange(b as int + 1, line.len() as int) =~= http_version());
    assert forall|i: int| 0 <= i < line.len() implies #[trigger] line[i] != 13 by {
        if 5 <= i < b {
            assert(line[i] == path[i - 5]);
        }
    }
}

/// An upload is read back whole: the server finds the method, the path,
/// the version and every header exactly as the record gave them, and the
/// body is the hydrophone data followed by the end boundary.
pub proof fn lemma_upload_round_trip(d: BuoyData)
    requires
        d.wf(),
    ensures
        parse_request_spec(upload_message(d)) == Some(
            RequestView {
                method: post_method(),
                path: buoy_path(d.id@),
                version: http_version(),
                headers: upload_headers(d),
                body: d.hydrophone@ + end_boundary(),
            },
        ),
{
    let hs = upload_headers(d);
    let l0 = upload_request_text(d.id@);
    let ls = seq![l0] + header_texts(hs);
    let buf = upload_message(d);
    let body = d.hydrophone@ + end_boundary();
    lemma_split_upload_request(d.id@);
    lemma_upload_headers_carried(d);
    lemma_render_lines_headers(hs);
    assert(ls[0] == l0);
    assert(ls.drop_first() =~= header_texts(hs));
    assert(render_lines(ls) == l0 + crlf() + render_lines(header_texts(hs)));
    assert(request_line(post_method(), buoy_path(d.id@)) =~= l0 + crlf());
    assert(buf =~= render_lines(ls) + crlf() + body);
    let k = render_lines(ls).len();
    assert(buf.subrange(0, k as int + 2) =~= render_lines(ls) + crlf());
    assert forall|i: int| 0 <= i < ls.len() implies (#[trigger] ls[i]).len() > 0 && lacks(
        ls[i],
        13,
    ) by {
        if i > 0 {
            let h = hs[i - 1];
            assert(ls[i] == h.0 + colon_space() + h.1);
            assert(carried_header(h));
            lemma_lacks_concat(h.0, colon_space(), 13);
            lemma_lacks_concat(h.0 + colon_space(), h.1, 13);
        }
    }
    lemma_split_rendered(buf, 0, ls);
    lemma_parse_header_texts(hs);
    assert(buf.subrange(k as int + 2, buf.len() as int) =~= body);
}

} // verus!
