use tron::http::{
    reply, route, write_event_stream_headers, write_response, write_sse_event, BindOutcome, Body, ContentType, PortSearch,
    PortStep, Route,
};

#[test]
fn routes_requests_by_method_and_path() {
    assert_eq!(route("GET / HTTP/1.1\r\nHost: x\r\n\r\n"), Route::Index);
    assert_eq!(route("GET /index.html HTTP/1.1\r\n"), Route::Index);
    assert_eq!(route("GET /metadata.json HTTP/1.1\r\n"), Route::Metadata);
    assert_eq!(route("GET /metadata HTTP/1.1"), Route::Metadata);
    assert_eq!(route("GET /events HTTP/1.1\r\n"), Route::Events);
    assert_eq!(route("GET /health HTTP/1.1\r\n"), Route::Health);
    assert_eq!(route("GET /nope HTTP/1.1\r\n"), Route::NotFound);
    assert_eq!(route("POST / HTTP/1.1\r\n"), Route::MethodNotAllowed);
    assert_eq!(route("\r\n"), Route::MethodNotAllowed);
    assert_eq!(route(""), Route::BadRequest);
    assert_eq!(route("GET\n/health"), Route::NotFound);
}

#[test]
fn replies() {
    assert_eq!(reply(Route::NotFound), Some((404, ContentType::PlainText, Body::NotFound)));
    assert_eq!(reply(Route::Metadata), Some((200, ContentType::Json, Body::LatestMetadata)));
    assert_eq!(reply(Route::Events), None);
}

#[test]
fn response_head() {
    assert_eq!(
        write_response(404, "text/plain; charset=utf-8", 9),
        "HTTP/1.1 404 Not Found\r\nAccess-Control-Allow-Origin: *\r\nCache-Control: no-store\r\nContent-Type: text/plain; charset=utf-8\r\nContent-Length: 9\r\nConnection: close\r\n\r\n"
    );
    assert!(write_response(200, "text/html", 0).starts_with("HTTP/1.1 200 OK\r\n"));
    assert!(write_event_stream_headers().ends_with("retry: 1000\r\n\r\n"));
}

#[test]
fn sse_events_carry_one_data_line_per_line() {
    assert_eq!(write_sse_event("{\"a\":1}"), "event: metadata\ndata: {\"a\":1}\n\n");
    assert_eq!(write_sse_event("a\r\nb\n"), "event: metadata\ndata: a\ndata: b\n\n");
    assert_eq!(write_sse_event(""), "event: metadata\n\n");
    assert_eq!(write_sse_event("\n\nx"), "event: metadata\ndata: \ndata: \ndata: x\n\n");
}

#[test]
fn port_search_moves_past_busy_ports() {
    let mut search = PortSearch::new(8080, 2);
    assert_eq!(search.port(), 8080);
    assert_eq!(search.on_bind(BindOutcome::Busy), PortStep::Try(8081));
    assert_eq!(search.port(), 8081);
    assert_eq!(search.on_bind(BindOutcome::Bound), PortStep::Listening { port: 8081, moved: true });

    let mut search = PortSearch::new(8080, 1);
    assert_eq!(search.on_bind(BindOutcome::Bound), PortStep::Listening { port: 8080, moved: false });
}

#[test]
fn port_search_gives_up() {
    let mut search = PortSearch::new(8080, 1);
    assert_eq!(search.on_bind(BindOutcome::Busy), PortStep::Try(8081));
    assert_eq!(search.on_bind(BindOutcome::Busy), PortStep::AllBusy);

    let mut search = PortSearch::new(65535, 10);
    assert_eq!(search.last, 65535);
    assert_eq!(search.on_bind(BindOutcome::Busy), PortStep::AllBusy);

    let mut search = PortSearch::new(8080, 5);
    assert_eq!(search.on_bind(BindOutcome::Failed), PortStep::Fail);
    assert_eq!(search.port(), 8080);
}
