use rustedflask::http::{
    httpver_to_vecu8, parse_i32, Error, HTTPRequest, HTTPResponse, HttpStatusCodes,
    InvalidContentLengthReason,
};
use rustedflask::misc::ReadableVec;
use rustedflask::strmap::StringMap;

#[test]
fn test_readablevec() -> Result<(), rustedflask::misc::VectorTooShort> {
    let vec = vec![b'f', b'o', b'o'];
    let mut buf: Vec<u8> = vec![0u8; 3];
    let mut readablevec = ReadableVec { vector: vec.clone() };
    readablevec.read(&mut buf)?;
    assert_eq!(vec[0], buf[0]);
    assert_eq!(vec[1], buf[1]);
    assert_eq!(vec[2], buf[2]);
    return Ok(());
}

#[test]
fn test_readablevec_too_short() {
    let mut buf: Vec<u8> = vec![0u8; 4];
    let mut readablevec = ReadableVec { vector: vec![1u8, 2u8] };
    assert!(readablevec.read(&mut buf).is_err());
    assert_eq!(readablevec.vector, vec![1u8, 2u8]);
}

#[test]
fn test_parse() -> Result<(), Error> {
    let mut headers = StringMap::new();
    headers.insert("Host", "example.com".to_string());
    headers.insert("Content-Length", "0".to_string());
    let example_response = HTTPResponse {
        httptag: b"HTTP".to_vec(),
        httpversion: (1, 1),
        reason: b"OK".to_vec(),
        statuscode: HttpStatusCodes::NoContent,
        headers,
        content: b"".to_vec(),
    };
    let resp_bytes: Vec<u8> = example_response.into_bytes();
    let resp_parsed =
        HTTPResponse::read_http_response(&mut ReadableVec { vector: resp_bytes });
    if resp_parsed.is_err() {
        return Err(resp_parsed.unwrap_err());
    }
    Ok(())
}

#[test]
fn test_httpver_to_vecu8() {
    assert_eq!(httpver_to_vecu8((1, 1)), b"1.1".to_vec());
    assert_eq!(httpver_to_vecu8((10, 25)), b"10.25".to_vec());
    assert_eq!(httpver_to_vecu8((-1, 0)), b"-1.0".to_vec());
}

#[test]
fn test_response_from_str_bytes() {
    let response = HTTPResponse::from("hi");
    let bytes = response.into_bytes();
    assert_eq!(
        bytes,
        b"HTTP/1.1 200 OK\r\nContent-Length: 2\r\n\r\nhi\r\n".to_vec()
    );
}

#[test]
fn test_request_bytes() {
    let mut headers = StringMap::new();
    headers.insert("Host", "example.com".to_string());
    let request = HTTPRequest {
        method: b"GET".to_vec(),
        path: b"/".to_vec(),
        httptag: b"HTTP".to_vec(),
        httpversion: (1, 1),
        headers,
        content: b"".to_vec(),
    };
    assert_eq!(
        request.into_bytes(),
        b"GET / HTTP/1.1\r\nHost: example.com\r\n\r\n".to_vec()
    );
}

#[test]
fn test_request_roundtrip() {
    let mut headers = StringMap::new();
    headers.insert("Host", "example.com".to_string());
    let request = HTTPRequest {
        method: b"GET".to_vec(),
        path: b"/where".to_vec(),
        httptag: b"HTTP".to_vec(),
        httpversion: (1, 1),
        headers,
        content: b"".to_vec(),
    };
    let bytes = request.into_bytes();
    let parsed = HTTPRequest::read_http_request(&mut ReadableVec { vector: bytes }).unwrap();
    assert_eq!(parsed.method, b"GET".to_vec());
    assert_eq!(parsed.path, b"/where".to_vec());
    assert_eq!(parsed.httptag, b"HTTP/".to_vec());
    assert_eq!(parsed.httpversion, (1, 1));
    assert!(parsed.content.is_empty());
}

#[test]
fn test_response_parse_errors() {
    let not_http =
        HTTPResponse::read_http_response(&mut ReadableVec { vector: b"HTTX/1.1 200 OK\r\n\r\n".to_vec() });
    assert!(matches!(not_http, Err(Error::NotHTTP)));

    let bad_version =
        HTTPResponse::read_http_response(&mut ReadableVec { vector: b"HTTP/1x1 200 OK\r\n\r\n".to_vec() });
    assert!(matches!(bad_version, Err(Error::InvalidVersionError)));

    let bad_code =
        HTTPResponse::read_http_response(&mut ReadableVec { vector: b"HTTP/1.1 abc OK\r\n\r\n".to_vec() });
    assert!(matches!(bad_code, Err(Error::UnreadableStatusCode)));

    let unknown_code =
        HTTPResponse::read_http_response(&mut ReadableVec { vector: b"HTTP/1.1 299 OK\r\n\r\n".to_vec() });
    assert!(matches!(unknown_code, Err(Error::UnknownStatusError)));

    let missing_length = HTTPResponse::read_http_response(&mut ReadableVec {
        vector: b"HTTP/1.1 200 OK\r\nHost: a\r\n\r".to_vec(),
    });
    assert!(matches!(
        missing_length,
        Err(Error::InvalidContentLength(InvalidContentLengthReason::MissingContentLength))
    ));

    let malformed_length = HTTPResponse::read_http_response(&mut ReadableVec {
        vector: b"HTTP/1.1 200 OK\r\nContent-Length: xy\r\n\r".to_vec(),
    });
    assert!(matches!(
        malformed_length,
        Err(Error::InvalidContentLength(InvalidContentLengthReason::MalformedContentLength))
    ));

    let short_content = HTTPResponse::read_http_response(&mut ReadableVec {
        vector: b"HTTP/1.1 200 OK\r\nContent-Length: 5\r\n\rab".to_vec(),
    });
    assert!(matches!(short_content, Err(Error::StreamReadError)));

    let truncated =
        HTTPResponse::read_http_response(&mut ReadableVec { vector: b"HTT".to_vec() });
    assert!(matches!(truncated, Err(Error::StreamReadError)));
}

#[test]
fn test_response_parse_failure_leaves_stream() {
    let mut stream = ReadableVec { vector: b"HTT".to_vec() };
    let _ = HTTPResponse::read_http_response(&mut stream);
    assert_eq!(stream.vector, b"HTT".to_vec());
}

#[test]
fn test_request_parse_errors() {
    let no_space =
        HTTPRequest::read_http_request(&mut ReadableVec { vector: b"GET/".to_vec() });
    assert!(matches!(no_space, Err(Error::StreamReadError)));

    let not_http =
        HTTPRequest::read_http_request(&mut ReadableVec { vector: b"GET / XTTP/1.1\r\n\r\n".to_vec() });
    assert!(matches!(not_http, Err(Error::NotHTTP)));

    let bad_version =
        HTTPRequest::read_http_request(&mut ReadableVec { vector: b"GET / HTTP/a.1\r\n\r\n".to_vec() });
    assert!(matches!(bad_version, Err(Error::InvalidVersionError)));
}

#[test]
fn test_status_codes() {
    assert!(matches!(
        HttpStatusCodes::from_i32(404),
        Some(HttpStatusCodes::NotFound)
    ));
    assert!(matches!(
        HttpStatusCodes::from_i32(204),
        Some(HttpStatusCodes::NoContent)
    ));
    assert!(HttpStatusCodes::from_i32(299).is_none());
    assert_eq!(HttpStatusCodes::NotFound.code(), 404);
    assert_eq!(HttpStatusCodes::Okay.code(), 200);
    assert_eq!(HttpStatusCodes::ImATeapot.code(), 418);
}

#[test]
fn test_parse_i32() {
    assert_eq!(parse_i32("123"), Some(123));
    assert_eq!(parse_i32("-7"), Some(-7));
    assert_eq!(parse_i32("+5"), Some(5));
    assert_eq!(parse_i32("0012"), Some(12));
    assert_eq!(parse_i32("2147483647"), Some(2147483647));
    assert_eq!(parse_i32("2147483648"), None);
    assert_eq!(parse_i32("-2147483648"), Some(-2147483648));
    assert_eq!(parse_i32(""), None);
    assert_eq!(parse_i32("-"), None);
    assert_eq!(parse_i32("12x"), None);
}
