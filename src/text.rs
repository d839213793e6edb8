//! Byte strings of the wire protocol and the helpers that assemble and
//! inspect them.
use vstd::prelude::*;
use vstd::slice::{slice_subrange, slice_to_vec};

verus! {

/// The decimal digits of `n`, most significant first.
pub open spec fn decimal(n: nat) -> Seq<u8>
    decreases n,
{
    if n < 10 {
        seq![(48 + n) as u8]
    } else {
        decimal(n / 10) + seq![(48 + n % 10) as u8]
    }
}

/// The decimal text of a signed integer, with a leading `-` when negative.
pub open spec fn signed_decimal(n: int) -> Seq<u8> {
    if n < 0 {
        seq![45u8] + decimal((-n) as nat)
    } else {
        decimal(n as nat)
    }
}

/// A voltage given in millivolts, written in volts with three decimals.
pub open spec fn volts_text(mv: int) -> Seq<u8> {
    let m = if mv < 0 { -mv } else { mv };
    let frac = m % 1000;
    let sign = if mv < 0 { seq![45u8] } else { Seq::<u8>::empty() };
    sign + decimal((m / 1000) as nat) + seq![
        46u8,
        (48 + frac / 100) as u8,
        (48 + (frac / 10) % 10) as u8,
        (48 + frac % 10) as u8,
    ]
}

/// The first index at or after `p` where `s` holds `c`, or the length of
/// `s` where there is none.
pub open spec fn find_byte(s: Seq<u8>, c: u8, p: nat) -> nat
    decreases s.len() - p,
{
    if p >= s.len() {
        s.len()
    } else if s[p as int] == c {
        p
    } else {
        find_byte(s, c, p + 1)
    }
}

pub open spec fn starts_with(s: Seq<u8>, prefix: Seq<u8>) -> bool {
    prefix.len() <= s.len() && s.subrange(0, prefix.len() as int) == prefix
}

pub open spec fn ends_with(s: Seq<u8>, suffix: Seq<u8>) -> bool {
    suffix.len() <= s.len() && s.subrange(s.len() - suffix.len(), s.len() as int) == suffix
}

pub proof fn lemma_find_byte_bounds(s: Seq<u8>, c: u8, p: nat)
    ensures
        p <= s.len() ==> p <= find_byte(s, c, p) <= s.len(),
        find_byte(s, c, p) < s.len() ==> s[find_byte(s, c, p) as int] == c,
        forall|i: int| p <= i < find_byte(s, c, p) ==> s[i] != c,
    decreases s.len() - p,
{
    if p < s.len() && s[p as int] != c {
        lemma_find_byte_bounds(s, c, p + 1);
    }
}

/// Where `s` holds no `c` from `p` up to `q` and holds `c` at `q`, the
/// search from `p` stops at `q`.
pub proof fn lemma_find_byte_at(s: Seq<u8>, c: u8, p: nat, q: nat)
    requires
        p <= q <= s.len(),
        q < s.len() ==> s[q as int] == c,
        forall|i: int| p <= i < q ==> s[i] != c,
    ensures
        find_byte(s, c, p) == q,
    decreases q - p,
{
    if p < q {
        lemma_find_byte_at(s, c, p + 1, q);
    }
}

/// Appends the bytes of `s`.
pub fn push_all(out: &mut Vec<u8>, s: &[u8])
    ensures
        final(out)@ == old(out)@ + s@,
{
    let n: usize = s.len();
    let mut i: usize = 0;
    while i < n
        invariant
            n == s@.len(),
            i <= n,
            out@ == old(out)@ + s@.subrange(0, i as int),
        decreases n - i,
    {
        out.push(s[i]);
        assert(s@.subrange(0, i + 1) =~= s@.subrange(0, i as int).push(s@[i as int]));
        i = i + 1;
    }
    assert(s@.subrange(0, n as int) =~= s@);
}

/// The bytes of `s` from `a` up to `b`.
pub fn copy_range(s: &[u8], a: usize, b: usize) -> (r: Vec<u8>)
    requires
        a <= b <= s@.len(),
    ensures
        r@ == s@.subrange(a as int, b as int),
{
    slice_to_vec(slice_subrange(s, a, b))
}

/// Appends the decimal digits of `n`.
pub fn push_decimal(out: &mut Vec<u8>, n: u64)
    ensures
        final(out)@ == old(out)@ + decimal(n as nat),
    decreases n,
{
    if n >= 10 {
        push_decimal(out, n / 10);
    }
    let d: u8 = (n % 10) as u8;
    out.push(48 + d);
    proof {
        if n >= 10 {
            assert(old(out)@ + decimal(n as nat) =~= old(out)@ + decimal((n / 10) as nat) + seq![
                (48 + n % 10) as u8,
            ]);
        } else {
            assert(old(out)@ + decimal(n as nat) =~= old(out)@.push((48 + n) as u8));
        }
    }
}

/// Appends the decimal text of `n`, signed.
pub fn push_signed_decimal(out: &mut Vec<u8>, n: i64)
    ensures
        final(out)@ == old(out)@ + signed_decimal(n as int),
{
    if n < 0 {
        out.push(45);
        let m: u64 = (0 - (n as i128)) as u64;
        push_decimal(out, m);
        assert(old(out)@ + signed_decimal(n as int) =~= old(out)@.push(45u8) + decimal(m as nat));
    } else {
        push_decimal(out, n as u64);
    }
}

/// Appends a voltage given in millivolts, in volts with three decimals.
pub fn push_volts(out: &mut Vec<u8>, mv: i64)
    ensures
        final(out)@ == old(out)@ + volts_text(mv as int),
{
    let m: u64 = if mv < 0 { (0 - (mv as i128)) as u64 } else { mv as u64 };
    if mv < 0 {
        out.push(45);
    }
    let ghost mid = out@;
    push_decimal(out, m / 1000);
    let frac: u64 = m % 1000;
    out.push(46);
    out.push(48 + (frac / 100) as u8);
    out.push(48 + ((frac / 10) % 10) as u8);
    out.push(48 + (frac % 10) as u8);
    assert(out@ =~= old(out)@ + volts_text(mv as int));
}

/// Whether `s` begins with `prefix`.
pub fn has_prefix(s: &[u8], prefix: &[u8]) -> (r: bool)
    ensures
        r == starts_with(s@, prefix@),
{
    if prefix.len() > s.len() {
        return false;
    }
    let n: usize = prefix.len();
    let mut i: usize = 0;
    while i < n
        invariant
            n == prefix@.len(),
            n <= s@.len(),
            i <= n,
            forall|k: int| 0 <= k < i ==> s@[k] == prefix@[k],
        decreases n - i,
    {
        if s[i] != prefix[i] {
            assert(s@.subrange(0, n as int)[i as int] != prefix@[i as int]);
            return false;
        }
        i = i + 1;
    }
    assert(s@.subrange(0, n as int) =~= prefix@);
    true
}

/// Whether `s` ends with `suffix`.
pub fn has_suffix(s: &[u8], suffix: &[u8]) -> (r: bool)
    ensures
        r == ends_with(s@, suffix@),
{
    if suffix.len() > s.len() {
        return false;
    }
    let n: usize = suffix.len();
    let base: usize = s.len() - n;
    let mut i: usize = 0;
    while i < n
        invariant
            n == suffix@.len(),
            base + n == s@.len(),
            s@.len() <= usize::MAX,
            i <= n,
            forall|k: int| 0 <= k < i ==> s@[base + k] == suffix@[k],
        decreases n - i,
    {
        if s[base + i] != suffix[i] {
            assert(s@.subrange(base as int, s@.len() as int)[i as int] != suffix@[i as int]);
            return false;
        }
        i = i + 1;
    }
    assert(s@.subrange(base as int, s@.len() as int) =~= suffix@);
    true
}

/// Whether two byte strings are equal.
pub fn same_bytes(a: &[u8], b: &[u8]) -> (r: bool)
    ensures
        r == (a@ == b@),
{
    if a.len() != b.len() {
        return false;
    }
    let r = has_prefix(a, b);
    assert(a@.subrange(0, b@.len() as int) =~= a@);
    r
}

/// The first index at or after `from` where `s` holds `c`, or the length of
/// `s` where there is none.
pub fn index_of(s: &[u8], c: u8, from: usize) -> (r: usize)
    requires
        from <= s@.len(),
    ensures
        r == find_byte(s@, c, from as nat),
{
    let n: usize = s.len();
    let mut i: usize = from;
    while i < n
        invariant
            n == s@.len(),
            from <= i <= n,
            find_byte(s@, c, from as nat) == find_byte(s@, c, i as nat),
        decreases n - i,
    {
        if s[i] == c {
            return i;
        }
        i = i + 1;
    }
    i
}

/// The line break of the wire protocol. `\r\n`
pub open spec fn crlf() -> Seq<u8> {
    seq![13u8, 10]
}

pub fn crlf_bytes() -> (r: Vec<u8>)
    ensures
        r@ == crlf(),
{
    let r: Vec<u8> = vec![13, 10];
    assert(r@ =~= crlf());
    r
}

/// The first token of an upload request. `POST `
pub open spec fn post_token() -> Seq<u8> {
    seq![80u8, 79, 83, 84, 32]
}

pub fn post_token_bytes() -> (r: Vec<u8>)
    ensures
        r@ == post_token(),
{
    let r: Vec<u8> = vec![80, 79, 83, 84, 32];
    assert(r@ =~= post_token());
    r
}

/// The first token of a fetch request. `GET `
pub open spec fn get_token() -> Seq<u8> {
    seq![71u8, 69, 84, 32]
}

pub fn get_token_bytes() -> (r: Vec<u8>)
    ensures
        r@ == get_token(),
{
    let r: Vec<u8> = vec![71, 69, 84, 32];
    assert(r@ =~= get_token());
    r
}

/// The method of an upload request. `POST`
pub open spec fn post_method() -> Seq<u8> {
    seq![80u8, 79, 83, 84]
}

pub fn post_method_bytes() -> (r: Vec<u8>)
    ensures
        r@ == post_method(),
{
    let r: Vec<u8> = vec![80, 79, 83, 84];
    assert(r@ =~= post_method());
    r
}

/// The start of every buoy path. `/id/`
pub open spec fn id_prefix() -> Seq<u8> {
    seq![47u8, 105, 100, 47]
}

pub fn id_prefix_bytes() -> (r: Vec<u8>)
    ensures
        r@ == id_prefix(),
{
    let r: Vec<u8> = vec![47, 105, 100, 47];
    assert(r@ =~= id_prefix());
    r
}

/// The protocol version named in the request line. `HTTP/1.1`
pub open spec fn http_version() -> Seq<u8> {
    seq![72u8, 84, 84, 80, 47, 49, 46, 49]
}

pub fn http_version_bytes() -> (r: Vec<u8>)
    ensures
        r@ == http_version(),
{
    let r: Vec<u8> = vec![72, 84, 84, 80, 47, 49, 46, 49];
    assert(r@ =~= http_version());
    r
}

/// What stands between a header's name and its value. `: `
pub open spec fn colon_space() -> Seq<u8> {
    seq![58u8, 32]
}

pub fn colon_space_bytes() -> (r: Vec<u8>)
    ensures
        r@ == colon_space(),
{
    let r: Vec<u8> = vec![58, 32];
    assert(r@ =~= colon_space());
    r
}

/// The content type announced by the buoy. `multipart/form-data`
pub open spec fn content_type() -> Seq<u8> {
    seq![109u8, 117, 108, 116, 105, 112, 97, 114, 116, 47, 102, 111, 114, 109, 45, 100, 97, 116, 97]
}

pub fn content_type_bytes() -> (r: Vec<u8>)
    ensures
        r@ == content_type(),
{
    let r: Vec<u8> = vec![109, 117, 108, 116, 105, 112, 97, 114, 116, 47, 102, 111, 114, 109, 45, 100, 97, 116, 97];
    assert(r@ =~= content_type());
    r
}

/// The software version announced by the buoy. `0.1.0`
pub open spec fn sw_version() -> Seq<u8> {
    seq![48u8, 46, 49, 46, 48]
}

pub fn sw_version_bytes() -> (r: Vec<u8>)
    ensures
        r@ == sw_version(),
{
    let r: Vec<u8> = vec![48, 46, 49, 46, 48];
    assert(r@ =~= sw_version());
    r
}

/// The literal that closes every upload. `------END!!!`
pub open spec fn end_boundary() -> Seq<u8> {
    seq![45u8, 45, 45, 45, 45, 45, 69, 78, 68, 33, 33, 33]
}

pub fn end_boundary_bytes() -> (r: Vec<u8>)
    ensures
        r@ == end_boundary(),
{
    let r: Vec<u8> = vec![45, 45, 45, 45, 45, 45, 69, 78, 68, 33, 33, 33];
    assert(r@ =~= end_boundary());
    r
}

/// The reply to an accepted upload. `HTTP/1.1 200 OK\r\n\r\n`
pub open spec fn response_ok() -> Seq<u8> {
    seq![72u8, 84, 84, 80, 47, 49, 46, 49, 32, 50, 48, 48, 32, 79, 75, 13, 10, 13, 10]
}

pub fn response_ok_bytes() -> (r: Vec<u8>)
    ensures
        r@ == response_ok(),
{
    let r: Vec<u8> = vec![72, 84, 84, 80, 47, 49, 46, 49, 32, 50, 48, 48, 32, 79, 75, 13, 10, 13, 10];
    assert(r@ =~= response_ok());
    r
}

/// The reply to a request that is not an upload. `HTTP/1.1 501 Not Implemented\r\n\r\n`
pub open spec fn response_not_implemented() -> Seq<u8> {
    seq![72u8, 84, 84, 80, 47, 49, 46, 49, 32, 53, 48, 49, 32, 78, 111, 116, 32, 73, 109, 112, 108, 101, 109, 101, 110, 116, 101, 100, 13, 10, 13, 10]
}

pub fn response_not_implemented_bytes() -> (r: Vec<u8>)
    ensures
        r@ == response_not_implemented(),
{
    let r: Vec<u8> = vec![72, 84, 84, 80, 47, 49, 46, 49, 32, 53, 48, 49, 32, 78, 111, 116, 32, 73, 109, 112, 108, 101, 109, 101, 110, 116, 101, 100, 13, 10, 13, 10];
    assert(r@ =~= response_not_implemented());
    r
}

/// The start of the reply to an upload that was refused. `failed to process request: `
pub open spec fn failure_prefix() -> Seq<u8> {
    seq![102u8, 97, 105, 108, 101, 100, 32, 116, 111, 32, 112, 114, 111, 99, 101, 115, 115, 32, 114, 101, 113, 117, 101, 115, 116, 58, 32]
}

pub fn failure_prefix_bytes() -> (r: Vec<u8>)
    ensures
        r@ == failure_prefix(),
{
    let r: Vec<u8> = vec![102, 97, 105, 108, 101, 100, 32, 116, 111, 32, 112, 114, 111, 99, 101, 115, 115, 32, 114, 101, 113, 117, 101, 115, 116, 58, 32];
    assert(r@ =~= failure_prefix());
    r
}

/// The year a buoy reports before its clock is set. `1970`
pub open spec fn epoch_year() -> Seq<u8> {
    seq![49u8, 57, 55, 48]
}

pub fn epoch_year_bytes() -> (r: Vec<u8>)
    ensures
        r@ == epoch_year(),
{
    let r: Vec<u8> = vec![49, 57, 55, 48];
    assert(r@ =~= epoch_year());
    r
}

/// The header name `Host`.
pub open spec fn name_host() -> Seq<u8> {
    seq![72u8, 111, 115, 116]
}

pub fn name_host_bytes() -> (r: Vec<u8>)
    ensures
        r@ == name_host(),
{
    let r: Vec<u8> = vec![72, 111, 115, 116];
    assert(r@ =~= name_host());
    r
}

/// The header name `Content-Type`.
pub open spec fn name_content_type() -> Seq<u8> {
    seq![67u8, 111, 110, 116, 101, 110, 116, 45, 84, 121, 112, 101]
}

pub fn name_content_type_bytes() -> (r: Vec<u8>)
    ensures
        r@ == name_content_type(),
{
    let r: Vec<u8> = vec![67, 111, 110, 116, 101, 110, 116, 45, 84, 121, 112, 101];
    assert(r@ =~= name_content_type());
    r
}

/// The header name `Battery-Voltage`.
pub open spec fn name_battery_voltage() -> Seq<u8> {
    seq![66u8, 97, 116, 116, 101, 114, 121, 45, 86, 111, 108, 116, 97, 103, 101]
}

pub fn name_battery_voltage_bytes() -> (r: Vec<u8>)
    ensures
        r@ == name_battery_voltage(),
{
    let r: Vec<u8> = vec![66, 97, 116, 116, 101, 114, 121, 45, 86, 111, 108, 116, 97, 103, 101];
    assert(r@ =~= name_battery_voltage());
    r
}

/// The header name `Dropped-Blocks`.
pub open spec fn name_dropped_blocks() -> Seq<u8> {
    seq![68u8, 114, 111, 112, 112, 101, 100, 45, 66, 108, 111, 99, 107, 115]
}

pub fn name_dropped_blocks_bytes() -> (r: Vec<u8>)
    ensures
        r@ == name_dropped_blocks(),
{
    let r: Vec<u8> = vec![68, 114, 111, 112, 112, 101, 100, 45, 66, 108, 111, 99, 107, 115];
    assert(r@ =~= name_dropped_blocks());
    r
}

/// The header name `GPS`.
pub open spec fn name_gps() -> Seq<u8> {
    seq![71u8, 80, 83]
}

pub fn name_gps_bytes() -> (r: Vec<u8>)
    ensures
        r@ == name_gps(),
{
    let r: Vec<u8> = vec![71, 80, 83];
    assert(r@ =~= name_gps());
    r
}

/// The header name `Start-Time`.
pub open spec fn name_start_time() -> Seq<u8> {
    seq![83u8, 116, 97, 114, 116, 45, 84, 105, 109, 101]
}

pub fn name_start_time_bytes() -> (r: Vec<u8>)
    ensures
        r@ == name_start_time(),
{
    let r: Vec<u8> = vec![83, 116, 97, 114, 116, 45, 84, 105, 109, 101];
    assert(r@ =~= name_start_time());
    r
}

/// The header name `Uptime`.
pub open spec fn name_uptime() -> Seq<u8> {
    seq![85u8, 112, 116, 105, 109, 101]
}

pub fn name_uptime_bytes() -> (r: Vec<u8>)
    ensures
        r@ == name_uptime(),
{
    let r: Vec<u8> = vec![85, 112, 116, 105, 109, 101];
    assert(r@ =~= name_uptime());
    r
}

/// The header name `sw-version`.
pub open spec fn name_sw_version() -> Seq<u8> {
    seq![115u8, 119, 45, 118, 101, 114, 115, 105, 111, 110]
}

pub fn name_sw_version_bytes() -> (r: Vec<u8>)
    ensures
        r@ == name_sw_version(),
{
    let r: Vec<u8> = vec![115, 119, 45, 118, 101, 114, 115, 105, 111, 110];
    assert(r@ =~= name_sw_version());
    r
}

/// The header name `length`.
pub open spec fn name_length() -> Seq<u8> {
    seq![108u8, 101, 110, 103, 116, 104]
}

pub fn name_length_bytes() -> (r: Vec<u8>)
    ensures
        r@ == name_length(),
{
    let r: Vec<u8> = vec![108, 101, 110, 103, 116, 104];
    assert(r@ =~= name_length());
    r
}

/// The header name `decode_errors`.
pub open spec fn name_decode_errors() -> Seq<u8> {
    seq![100u8, 101, 99, 111, 100, 101, 95, 101, 114, 114, 111, 114, 115]
}

pub fn name_decode_errors_bytes() -> (r: Vec<u8>)
    ensures
        r@ == name_decode_errors(),
{
    let r: Vec<u8> = vec![100, 101, 99, 111, 100, 101, 95, 101, 114, 114, 111, 114, 115];
    assert(r@ =~= name_decode_errors());
    r
}

/// The header name `buoy_id`.
pub open spec fn name_buoy_id() -> Seq<u8> {
    seq![98u8, 117, 111, 121, 95, 105, 100]
}

pub fn name_buoy_id_bytes() -> (r: Vec<u8>)
    ensures
        r@ == name_buoy_id(),
{
    let r: Vec<u8> = vec![98, 117, 111, 121, 95, 105, 100];
    assert(r@ =~= name_buoy_id());
    r
}

/// The identifier this buoy reports. `1`
pub open spec fn buoy_id_value() -> Seq<u8> {
    seq![49u8]
}

pub fn buoy_id_value_bytes() -> (r: Vec<u8>)
    ensures
        r@ == buoy_id_value(),
{
    let r: Vec<u8> = vec![49];
    assert(r@ =~= buoy_id_value());
    r
}

/// The end of a refusal reply. `\n`
pub open spec fn newline() -> Seq<u8> {
    seq![10u8]
}

pub fn newline_bytes() -> (r: Vec<u8>)
    ensures
        r@ == newline(),
{
    let r: Vec<u8> = vec![10];
    assert(r@ =~= newline());
    r
}

/// Why a request was refused: `malformed request`
pub open spec fn text_invalid_request() -> Seq<u8> {
    seq![109u8, 97, 108, 102, 111, 114, 109, 101, 100, 32, 114, 101, 113, 117, 101, 115, 116]
}

pub fn text_invalid_request_bytes() -> (r: Vec<u8>)
    ensures
        r@ == text_invalid_request(),
{
    let r: Vec<u8> = vec![109, 97, 108, 102, 111, 114, 109, 101, 100, 32, 114, 101, 113, 117, 101, 115, 116];
    assert(r@ =~= text_invalid_request());
    r
}

/// Why a request was refused: `invalid path`
pub open spec fn text_invalid_path() -> Seq<u8> {
    seq![105u8, 110, 118, 97, 108, 105, 100, 32, 112, 97, 116, 104]
}

pub fn text_invalid_path_bytes() -> (r: Vec<u8>)
    ensures
        r@ == text_invalid_path(),
{
    let r: Vec<u8> = vec![105, 110, 118, 97, 108, 105, 100, 32, 112, 97, 116, 104];
    assert(r@ =~= text_invalid_path());
    r
}

/// Why a request was refused: `unhandled http request type`
pub open spec fn text_invalid_method() -> Seq<u8> {
    seq![117u8, 110, 104, 97, 110, 100, 108, 101, 100, 32, 104, 116, 116, 112, 32, 114, 101, 113, 117, 101, 115, 116, 32, 116, 121, 112, 101]
}

pub fn text_invalid_method_bytes() -> (r: Vec<u8>)
    ensures
        r@ == text_invalid_method(),
{
    let r: Vec<u8> = vec![117, 110, 104, 97, 110, 100, 108, 101, 100, 32, 104, 116, 116, 112, 32, 114, 101, 113, 117, 101, 115, 116, 32, 116, 121, 112, 101];
    assert(r@ =~= text_invalid_method());
    r
}

/// Why a request was refused: `missing END_BOUNDARY`
pub open spec fn text_missing_boundary() -> Seq<u8> {
    seq![109u8, 105, 115, 115, 105, 110, 103, 32, 69, 78, 68, 95, 66, 79, 85, 78, 68, 65, 82, 89]
}

pub fn text_missing_boundary_bytes() -> (r: Vec<u8>)
    ensures
        r@ == text_missing_boundary(),
{
    let r: Vec<u8> = vec![109, 105, 115, 115, 105, 110, 103, 32, 69, 78, 68, 95, 66, 79, 85, 78, 68, 65, 82, 89];
    assert(r@ =~= text_missing_boundary());
    r
}

/// Why a request was refused: `internal error`
pub open spec fn text_other_error() -> Seq<u8> {
    seq![105u8, 110, 116, 101, 114, 110, 97, 108, 32, 101, 114, 114, 111, 114]
}

pub fn text_other_error_bytes() -> (r: Vec<u8>)
    ensures
        r@ == text_other_error(),
{
    let r: Vec<u8> = vec![105, 110, 116, 101, 114, 110, 97, 108, 32, 101, 114, 114, 111, 114];
    assert(r@ =~= text_other_error());
    r
}

/// Opens the metadata object. `{`
pub open spec fn json_open() -> Seq<u8> {
    seq![123u8]
}

pub fn json_open_bytes() -> (r: Vec<u8>)
    ensures
        r@ == json_open(),
{
    let r: Vec<u8> = vec![123];
    assert(r@ =~= json_open());
    r
}

/// Closes the metadata object. `}`
pub open spec fn json_close() -> Seq<u8> {
    seq![125u8]
}

pub fn json_close_bytes() -> (r: Vec<u8>)
    ensures
        r@ == json_close(),
{
    let r: Vec<u8> = vec![125];
    assert(r@ =~= json_close());
    r
}

/// Opens and closes a name or a value of the metadata. `"`
pub open spec fn json_quote() -> Seq<u8> {
    seq![34u8]
}

pub fn json_quote_bytes() -> (r: Vec<u8>)
    ensures
        r@ == json_quote(),
{
    let r: Vec<u8> = vec![34];
    assert(r@ =~= json_quote());
    r
}

/// Stands between a name and its value in the metadata. `": "`
pub open spec fn json_between() -> Seq<u8> {
    seq![34u8, 58, 32, 34]
}

pub fn json_between_bytes() -> (r: Vec<u8>)
    ensures
        r@ == json_between(),
{
    let r: Vec<u8> = vec![34, 58, 32, 34];
    assert(r@ =~= json_between());
    r
}

/// Separates two fields of the metadata. `,`
pub open spec fn json_comma() -> Seq<u8> {
    seq![44u8]
}

pub fn json_comma_bytes() -> (r: Vec<u8>)
    ensures
        r@ == json_comma(),
{
    let r: Vec<u8> = vec![44];
    assert(r@ =~= json_comma());
    r
}

} // verus!
