use normd::render::{FilesTemplate, MarkdownTemplate};
use normd::server::{Server, SourceFile};

fn two_file_server() -> Server {
    Server::new(
        8080,
        vec![
            SourceFile { path: "a.md".to_string(), content: "# Hi".to_string() },
            SourceFile { path: "sub/b.md".to_string(), content: "text".to_string() },
        ],
    )
}

fn document_response(source: &str) -> String {
    let tmpl = MarkdownTemplate { content: markdown::to_html(source) };
    format!("HTTP/1.1 200 OK\r\n\r\n{}", tmpl.render())
}

fn listing_response(links: &str) -> String {
    let tmpl = FilesTemplate { content: links.to_string() };
    format!("HTTP/1.1 200 OK\r\n\r\n{}", tmpl.render())
}

#[test]
fn unique_prefix_serves_rendered_document() {
    let server = two_file_server();
    let resp = server.handle_request("GET /a.md HTTP/1.1").unwrap();
    assert_eq!(resp, document_response("# Hi"));
}

#[test]
fn served_document_is_rendered_not_raw() {
    let server = two_file_server();
    let resp = server.handle_request("GET /a.md HTTP/1.1").unwrap();
    assert!(resp.contains(&markdown::to_html("# Hi")));
    assert!(!resp.contains("# Hi"));
}

#[test]
fn root_lists_every_indexed_file() {
    let server = two_file_server();
    let resp = server.handle_request("GET / HTTP/1.1").unwrap();
    let links = "<a href='a.md'>a.md</a><br><a href='sub/b.md'>sub/b.md</a><br>";
    assert_eq!(resp, listing_response(links));
}

#[test]
fn unmatched_prefix_gives_empty_listing() {
    let server = two_file_server();
    let resp = server.handle_request("GET /nonexistent HTTP/1.1").unwrap();
    assert_eq!(resp, listing_response(""));
}

#[test]
fn directory_prefix_lists_its_files_in_order() {
    let server = Server::new(
        8080,
        vec![
            SourceFile { path: "sub/a.md".to_string(), content: "a".to_string() },
            SourceFile { path: "top.md".to_string(), content: "t".to_string() },
            SourceFile { path: "sub/b.md".to_string(), content: "b".to_string() },
        ],
    );
    let resp = server.handle_request("GET /sub HTTP/1.1").unwrap();
    let links = "<a href='sub/a.md'>sub/a.md</a><br><a href='sub/b.md'>sub/b.md</a><br>";
    assert_eq!(resp, listing_response(links));
}

#[test]
fn empty_index_serves_empty_listing() {
    let server = Server::new(8080, vec![]);
    let resp = server.handle_request("GET /anything HTTP/1.1").unwrap();
    assert_eq!(resp, listing_response(""));
    let resp_root = server.handle_request("GET / HTTP/1.1").unwrap();
    assert_eq!(resp_root, listing_response(""));
}

#[test]
fn malformed_request_line_is_refused() {
    let server = two_file_server();
    assert!(server.handle_request("GET").is_none());
    assert!(server.handle_request("").is_none());
    assert!(server.handle_request("   ").is_none());
}

#[test]
fn leading_separator_is_stripped_once() {
    let server = two_file_server();
    let with_slash = server.handle_request("GET /a.md HTTP/1.1").unwrap();
    let without_slash = server.handle_request("GET a.md HTTP/1.1").unwrap();
    assert_eq!(with_slash, without_slash);
}

#[test]
fn server_keeps_its_port() {
    let server = two_file_server();
    assert_eq!(server.port(), 8080);
}

#[test]
fn response_status_reparses_as_success() {
    let server = two_file_server();
    for line in ["GET /a.md HTTP/1.1", "GET / HTTP/1.1", "GET /none HTTP/1.1"] {
        let resp = server.handle_request(line).unwrap();
        assert_eq!(normd::status::parse_status_code(&resp), Some(200));
    }
}
