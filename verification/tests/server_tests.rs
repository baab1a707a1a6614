use httpcore::request::RequestError;
use httpcore::server::{Dispatch, ServerCore};

fn core_with_wildcard(workers: usize) -> ServerCore<u32> {
    let mut core: ServerCore<u32> = ServerCore::new(workers);
    core.configure(|b| b.def("GET", "*", 42));
    core
}

fn assigned_worker(d: Dispatch<u32>) -> usize {
    match d {
        Dispatch::Assigned(w, h, _) => {
            assert_eq!(h, 42);
            w
        }
        _ => panic!("expected an assignment"),
    }
}

#[test]
fn round_robin_assigns_each_worker_once_per_lap() {
    let mut core = core_with_wildcard(4);
    let req = b"GET /a HTTP/1.1\r\n";
    let mut seen = Vec::new();
    for _ in 0..4 {
        seen.push(assigned_worker(core.distribute(req)));
    }
    // acceptance order equals assignment order, one per worker
    assert_eq!(seen, vec![0, 1, 2, 3]);
    // the next lap wraps around to the first worker
    assert_eq!(assigned_worker(core.distribute(req)), 0);
}

#[test]
fn zero_byte_probe_is_discarded_silently() {
    let mut core = core_with_wildcard(4);
    assert!(matches!(core.distribute(b""), Dispatch::KeepAlive));
    // no rotation was consumed and nothing was routed
    assert_eq!(assigned_worker(core.distribute(b"GET / HTTP/1.1\r\n")), 0);
}

#[test]
fn malformed_line_is_rejected_without_assignment() {
    let mut core = core_with_wildcard(2);
    assert!(matches!(
        core.distribute(b"GET /\r\n"),
        Dispatch::Rejected(RequestError::MissingParts)
    ));
    assert!(matches!(
        core.distribute(b"no line end"),
        Dispatch::Rejected(RequestError::NoLineEnd)
    ));
    // the rotation still points at the first worker
    assert_eq!(assigned_worker(core.distribute(b"GET / HTTP/1.1\r\n")), 0);
}

#[test]
fn unrouted_request_is_dropped() {
    let mut core: ServerCore<u32> = ServerCore::new(2);
    core.configure(|b| b.def("POST", "/submit", 1));
    match core.distribute(b"GET / HTTP/1.1\r\n") {
        Dispatch::NoRoute(q) => {
            assert_eq!(q.uri().as_str(), "/");
            assert_eq!(q.method().as_str(), "GET");
        }
        _ => panic!("expected a dropped, unrouted request"),
    }
}

#[test]
fn dispatch_routes_through_the_table() {
    let mut core: ServerCore<u32> = ServerCore::new(3);
    core.configure(|b| b.def("GET", "/", 1).def("GET", "*", 2));
    match core.distribute(b"GET / HTTP/1.1\r\n") {
        Dispatch::Assigned(w, h, q) => {
            assert_eq!(w, 0);
            assert_eq!(h, 1);
            assert_eq!(q.uri().as_str(), "/");
            assert_eq!(q.protocol().as_str(), "HTTP/1.1");
        }
        _ => panic!("expected an assignment"),
    }
    match core.distribute(b"GET /missing HTTP/1.1\r\n") {
        Dispatch::Assigned(w, h, _) => {
            assert_eq!(w, 1);
            assert_eq!(h, 2);
        }
        _ => panic!("expected an assignment"),
    }
}
