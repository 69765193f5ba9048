use docker_client::client::{images_body, pull_path, pull_segments, Docker};
use docker_client::err::ClientError;
use docker_client::response::{parse_response, read_status, skip_headers};

#[test]
fn status_line_200_parses() {
    let (status, next) = read_status(b"HTTP/1.1 200 OK\r\n").unwrap();
    assert_eq!(status, 200);
    assert_eq!(next, 17);
}

#[test]
fn status_line_404_parses() {
    let (status, _) = read_status(b"HTTP/1.1 404 Not Found\r\n").unwrap();
    assert_eq!(status, 404);
}

#[test]
fn status_line_with_empty_reason_is_long_enough() {
    let (status, next) = read_status(b"HTTP/1.1 200\r\n").unwrap();
    assert_eq!(status, 200);
    assert_eq!(next, 14);
}

#[test]
fn status_line_one_byte_short_is_rejected() {
    assert_eq!(read_status(b"HTTP/1.1 20\r\n"), Err(ClientError::Protocol));
}

#[test]
fn status_line_rejects_short_or_unterminated_lines() {
    assert_eq!(read_status(b"HTTP/1.1 200 OK"), Err(ClientError::Protocol));
    assert_eq!(read_status(b"HTTP/1.1\r\n"), Err(ClientError::Protocol));
    assert_eq!(read_status(b""), Err(ClientError::Protocol));
}

#[test]
fn status_line_rejects_non_numeric_codes() {
    assert_eq!(
        read_status(b"HTTP/1.1 2x0 OK\r\n"),
        Err(ClientError::Protocol)
    );
    assert_eq!(
        read_status(b"HTTP/1.1 -20 OK\r\n"),
        Err(ClientError::Protocol)
    );
}

#[test]
fn headers_are_skipped_to_the_blank_line() {
    let input = b"A: b\r\nC: d\r\n\r\nrest";
    let body = skip_headers(input, 0).unwrap();
    assert_eq!(&input[body..], b"rest");
}

#[test]
fn unterminated_headers_are_a_protocol_error() {
    assert_eq!(skip_headers(b"A: b\r\nC", 0), Err(ClientError::Protocol));
}

#[test]
fn whole_preamble_parses_to_status_and_body() {
    let input = b"HTTP/1.1 200 OK\r\nContent-Type: application/json\r\n\r\n[1,2]";
    let resp = parse_response(input).unwrap();
    assert_eq!(resp.status, 200);
    assert_eq!(resp.body, b"[1,2]".to_vec());
}

#[test]
fn connect_with_unix_strips_the_scheme() {
    let docker = Docker::connect_with_unix("unix:///var/run/docker.sock").unwrap();
    assert_eq!(docker.socket, "/var/run/docker.sock");
    assert_eq!(docker.host_name, "localhost");
}

#[test]
fn connect_with_unix_accepts_a_bare_scheme() {
    let docker = Docker::connect_with_unix("unix://").unwrap();
    assert_eq!(docker.socket, "");
    assert_eq!(docker.host_name, "localhost");
}

#[test]
fn request_head_is_exact() {
    let docker = Docker::connect_with_unix("unix:///var/run/docker.sock").unwrap();
    let head = docker.request_head(b"GET", b"/images/json");
    assert_eq!(
        head,
        b"GET /images/json HTTP/1.1\r\nConnection: close\r\nHost: localhost\r\n\r\n".to_vec()
    );
}

#[test]
fn pull_path_carries_the_image_name() {
    assert_eq!(
        pull_path(b"redis:latest"),
        b"/images/create?fromImage=redis:latest".to_vec()
    );
}

#[test]
fn images_body_returns_two_records_in_order() {
    let json = br#"[{"Id":"sha256:aaa","Created":100,"Containers":2,"RepoTags":["redis:latest"],"Size":5},{"Id":"sha256:bbb","Created":200,"Containers":0,"RepoTags":null,"Size":7}]"#;
    let mut response = b"HTTP/1.1 200 OK\r\nContent-Type: application/json\r\n\r\n".to_vec();
    response.extend_from_slice(json);
    let body = images_body(&response).unwrap();
    assert_eq!(body, json.to_vec());
    let value: serde_json::Value = serde_json::from_slice(&body).unwrap();
    let records = value.as_array().unwrap();
    assert_eq!(records.len(), 2);
    assert_eq!(records[0].get("Id").unwrap().as_str(), Some("sha256:aaa"));
    assert_eq!(records[1].get("Id").unwrap().as_str(), Some("sha256:bbb"));
}

#[test]
fn images_body_rejects_status_500_without_reading_the_body() {
    let response = b"HTTP/1.1 500 Internal Server Error\r\n\r\nnot json at all";
    assert_eq!(images_body(response), Err(ClientError::HttpStatus(500)));
}

#[test]
fn pull_segments_yields_one_hello_segment() {
    let response = b"HTTP/1.1 200 OK\r\n\r\n5\r\nhello\r\n0\r\n\r\n";
    let segments = pull_segments(response).unwrap();
    assert_eq!(segments, vec![b"hello".to_vec()]);
}

#[test]
fn pull_segments_rejects_status_500() {
    let response = b"HTTP/1.1 500 Oops\r\n\r\n5\r\nhello\r\n0\r\n\r\n";
    assert_eq!(pull_segments(response), Err(ClientError::HttpStatus(500)));
}
