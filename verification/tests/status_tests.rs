use normd::status::{first_line, parse_status_code, parse_status_line, status_line_text};

#[test]
fn status_line_round_trips_to_success() {
    let line = status_line_text();
    assert_eq!(line, "HTTP/1.1 200 OK");
    assert_eq!(parse_status_line(&line), Some(200));
}

#[test]
fn parser_reads_other_codes_exactly() {
    assert_eq!(parse_status_line("HTTP/1.1 404 Not Found"), Some(404));
    assert_eq!(parse_status_line("HTTP/1.1 65535 X"), Some(65535));
    assert_eq!(parse_status_line("HTTP/1.1 65536 X"), None);
    assert_eq!(parse_status_line("HTTP/1.1 2x0 X"), None);
    assert_eq!(parse_status_line("HTTP/1.1"), None);
    assert_eq!(parse_status_line(""), None);
}

#[test]
fn first_line_stops_at_the_first_break() {
    assert_eq!(first_line("HTTP/1.1 200 OK\r\n\r\nbody"), "HTTP/1.1 200 OK");
    assert_eq!(first_line("one\ntwo"), "one");
    assert_eq!(first_line("no break"), "no break");
    assert_eq!(first_line(""), "");
}

#[test]
fn whole_response_reparses_as_success() {
    assert_eq!(parse_status_code("HTTP/1.1 200 OK\r\n\r\n<html>\nmore\n</html>"), Some(200));
}
