use buoy_code::errors::GiftError;
use buoy_code::http::{parse_request, Header};
use buoy_code::ingest::{
    date_from_header, first_token, handle_request, ingest_steps, metadata_json, path_to_buoy_id,
    process_error, process_post, request_type, HTTPRequestType, IngestStep,
};
use buoy_code::wire::build_http_post;
use buoy_code::BuoyData;

fn sample(hydrophone: Vec<u8>) -> BuoyData {
    BuoyData {
        id: b"1a2b-3c".to_vec(),
        hydrophone,
        voltage_mv: 12345,
        dropped_blocks: 2,
        gps: b"-41.29,174.78".to_vec(),
        start_time: b"20200101T101500.000Z".to_vec(),
        uptime: 42,
    }
}

fn header(name: &str, value: &str) -> Header {
    Header { name: name.as_bytes().to_vec(), value: value.as_bytes().to_vec() }
}

#[test]
fn message_layout_is_exact() {
    let msg = build_http_post(&sample(vec![1, 2, 3]));
    let mut expected = b"POST /id/1a2b-3c HTTP/1.1\r\n\
Host: /id/1a2b-3c\r\n\
Content-Type: multipart/form-data\r\n\
Battery-Voltage: 12.345\r\n\
Dropped-Blocks: 2\r\n\
GPS: -41.29,174.78\r\n\
Start-Time: 20200101T101500.000Z\r\n\
Uptime: 42\r\n\
sw-version: 0.1.0\r\n\
length: 3\r\n\r\n"
        .to_vec();
    expected.extend_from_slice(&[1, 2, 3]);
    expected.extend_from_slice(b"------END!!!");
    assert_eq!(msg, expected);
}

#[test]
fn negative_and_small_numbers_are_written() {
    let mut d = sample(vec![]);
    d.voltage_mv = -31967;
    d.uptime = -5;
    let msg = String::from_utf8(build_http_post(&d)).unwrap();
    assert!(msg.contains("Battery-Voltage: -31.967\r\n"));
    assert!(msg.contains("Uptime: -5\r\n"));
    assert!(msg.contains("length: 0\r\n"));
    d.voltage_mv = 5;
    let msg = String::from_utf8(build_http_post(&d)).unwrap();
    assert!(msg.contains("Battery-Voltage: 0.005\r\n"));
}

#[test]
fn message_round_trip() {
    let d = sample(vec![7, 13, 10, 13, 10, 0]);
    let msg = build_http_post(&d);
    let req = parse_request(&msg).unwrap();
    assert_eq!(req.method, b"POST".to_vec());
    assert_eq!(req.path, b"/id/1a2b-3c".to_vec());
    assert_eq!(req.version, b"HTTP/1.1".to_vec());
    let names: Vec<Vec<u8>> = req.headers.iter().map(|h| h.name.clone()).collect();
    let values: Vec<Vec<u8>> = req.headers.iter().map(|h| h.value.clone()).collect();
    assert_eq!(names[4], b"GPS".to_vec());
    assert_eq!(values[4], d.gps);
    assert_eq!(values[5], d.start_time);
    assert_eq!(values[2], b"12.345".to_vec());
    assert_eq!(values[8], b"6".to_vec());
    let plan = process_post(&msg, b"NOW").unwrap();
    assert_eq!(plan.raw, d.hydrophone);
    assert_eq!(plan.buoy_id, d.id);
    assert_eq!(plan.date, d.start_time);
    assert!(!plan.decode);
}

#[test]
fn path_grammar() {
    assert_eq!(path_to_buoy_id(b"/id/1a2b-3c").unwrap(), b"1a2b-3c".to_vec());
    assert_eq!(path_to_buoy_id(b"/id/ABCdef-0").unwrap(), b"ABCdef-0".to_vec());
    assert_eq!(path_to_buoy_id(b"/id/"), Err(GiftError::HttpInvalidPath));
    let long = format!("/id/{}", "a".repeat(41));
    assert_eq!(path_to_buoy_id(long.as_bytes()), Err(GiftError::HttpInvalidPath));
    let longest = format!("/id/{}", "a".repeat(40));
    assert!(path_to_buoy_id(longest.as_bytes()).is_ok());
    assert_eq!(path_to_buoy_id(b"/other/1"), Err(GiftError::HttpInvalidPath));
    assert_eq!(path_to_buoy_id(b"/id/12g"), Err(GiftError::HttpInvalidPath));
    assert_eq!(path_to_buoy_id(b"/id/12\n"), Err(GiftError::HttpInvalidPath));
}

#[test]
fn missing_boundary_is_refused_without_plan() {
    let mut msg = build_http_post(&sample(vec![1, 2, 3]));
    msg.pop();
    assert_eq!(process_post(&msg, b"NOW").err(), Some(GiftError::HttpMissingBoundary));
    let reply = handle_request(&msg, b"NOW");
    assert!(reply.plan.is_none());
    assert_eq!(reply.response, b"failed to process request: missing END_BOUNDARY\n".to_vec());
}

#[test]
fn large_upload_is_decoded_and_pictured() {
    let msg = build_http_post(&sample(vec![0x55; 2050]));
    let reply = handle_request(&msg, b"NOW");
    assert_eq!(reply.response, b"HTTP/1.1 200 OK\r\n\r\n".to_vec());
    let plan = reply.plan.unwrap();
    assert!(plan.decode);
    assert_eq!(plan.raw.len(), 2050);
    assert_eq!(
        ingest_steps(&plan),
        vec![
            IngestStep::WriteRaw,
            IngestStep::DecodeWaveform,
            IngestStep::RenderSpectrogram,
            IngestStep::WriteMetadata
        ]
    );
    let json = String::from_utf8(metadata_json(&plan.headers, &plan.buoy_id, 4)).unwrap();
    assert!(json.contains("\"decode_errors\": \"4\""));
}

#[test]
fn small_upload_is_stored_raw_only() {
    let msg = build_http_post(&sample(vec![0x55; 500]));
    let reply = handle_request(&msg, b"NOW");
    assert_eq!(reply.response, b"HTTP/1.1 200 OK\r\n\r\n".to_vec());
    let plan = reply.plan.unwrap();
    assert!(!plan.decode);
    assert_eq!(ingest_steps(&plan), vec![IngestStep::WriteRaw, IngestStep::WriteMetadata]);
    let json = String::from_utf8(metadata_json(&plan.headers, &plan.buoy_id, 0)).unwrap();
    assert!(json.ends_with("\"decode_errors\": \"0\",\"buoy_id\": \"1a2b-3c\"}"));
}

#[test]
fn metadata_is_exact() {
    let hs = vec![header("a", "1"), header("Start-Time", "x y")];
    let json = metadata_json(&hs, b"7", 3);
    assert_eq!(
        json,
        b"{\"a\": \"1\",\"Start-Time\": \"x y\",\"decode_errors\": \"3\",\"buoy_id\": \"7\"}".to_vec()
    );
    let none: Vec<Header> = vec![];
    assert_eq!(
        metadata_json(&none, b"ff", 12),
        b"{\"decode_errors\": \"12\",\"buoy_id\": \"ff\"}".to_vec()
    );
}

#[test]
fn other_requests_are_not_implemented() {
    let reply = handle_request(b"GET /id/1 HTTP/1.1\r\n\r\n", b"NOW");
    assert_eq!(reply.response, b"HTTP/1.1 501 Not Implemented\r\n\r\n".to_vec());
    assert!(reply.plan.is_none());
    let reply = handle_request(b"PUT /id/1 HTTP/1.1\r\n\r\n", b"NOW");
    assert_eq!(reply.response, b"HTTP/1.1 501 Not Implemented\r\n\r\n".to_vec());
    assert_eq!(process_error(b"x").unwrap(), b"HTTP/1.1 501 Not Implemented\r\n\r\n".to_vec());
}

#[test]
fn request_kinds() {
    assert_eq!(first_token(b"POST /id/1"), b"POST ");
    assert_eq!(first_token(b"POST"), b"POST");
    assert_eq!(request_type(b"GET /").unwrap(), HTTPRequestType::GET);
    assert_eq!(request_type(b"POST /").unwrap(), HTTPRequestType::POST);
    assert_eq!(request_type(b"DELETE /"), Err(GiftError::HttpInvalidMethod));
}

#[test]
fn refusals_name_their_reason() {
    let bad_path = b"POST /other/1 HTTP/1.1\r\nHost: x\r\n\r\nabc------END!!!";
    assert_eq!(process_post(bad_path, b"N").err(), Some(GiftError::HttpInvalidPath));
    let reply = handle_request(bad_path, b"N");
    assert_eq!(reply.response, b"failed to process request: invalid path\n".to_vec());
    let unframed = b"POST /id/1 HTTP/1.1\r\nHost: x\r\nabc------END!!!";
    assert_eq!(process_post(unframed, b"N").err(), Some(GiftError::HttpInvalidRequest));
    let bad_header = b"POST /id/1 HTTP/1.1\r\nno colon\r\n\r\n------END!!!";
    assert_eq!(process_post(bad_header, b"N").err(), Some(GiftError::HttpInvalidRequest));
    let not_post = b"POSTX /id/1 HTTP/1.1\r\n\r\n------END!!!";
    assert_eq!(process_post(not_post, b"N").err(), Some(GiftError::HttpInvalidMethod));
    assert_eq!(parse_request(b"no line end").err(), Some(GiftError::HttpInvalidRequest));
}

#[test]
fn recording_date_falls_back_to_now() {
    let now = b"NOW".to_vec();
    let hs = vec![header("Host", "h"), header("Start-Time", "20201010"), header("Start-Time", "x")];
    assert_eq!(date_from_header(&hs, &now), b"20201010".to_vec());
    let epoch = vec![header("Start-Time", "19700101T000012.000Z")];
    assert_eq!(date_from_header(&epoch, &now), now);
    let short = vec![header("Start-Time", "19")];
    assert_eq!(date_from_header(&short, &now), b"19".to_vec());
    let missing = vec![header("Host", "h")];
    assert_eq!(date_from_header(&missing, &now), now);
}
