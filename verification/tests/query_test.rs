use msq::query::{
    build_request, QuerySession, Step, DEFAULT_MAX_SERVERS, HEADER_LEN, REQUEST_TYPE,
};
use msq::{ByteCursor, Filter, QueryError, ReadPacketExt, Region};

const HEADER: [u8; 6] = [0xFF, 0xFF, 0xFF, 0xFF, 0x66, 0x0A];

fn page(records: &[[u8; 6]]) -> Vec<u8> {
    let mut datagram = HEADER.to_vec();
    for record in records {
        datagram.extend_from_slice(record);
    }
    datagram
}

fn request(region: u8, last: &str, filter: &str) -> Vec<u8> {
    let mut bytes = vec![0x31, region];
    bytes.extend_from_slice(last.as_bytes());
    bytes.push(0);
    bytes.extend_from_slice(filter.as_bytes());
    bytes.push(0);
    bytes
}

fn done(step: Result<Step, QueryError>) -> Vec<String> {
    match step {
        Ok(Step::Done { servers }) => servers,
        Ok(Step::Continue { .. }) => panic!("the query asked for another page"),
        Err(e) => panic!("the query failed: {:?}", e),
    }
}

fn go_on(step: Result<Step, QueryError>) -> (QuerySession, Vec<u8>) {
    match step {
        Ok(Step::Continue { session, request }) => (session, request),
        Ok(Step::Done { .. }) => panic!("the query ended"),
        Err(e) => panic!("the query failed: {:?}", e),
    }
}

fn failed(step: Result<Step, QueryError>) -> QueryError {
    match step {
        Ok(_) => panic!("the query went on"),
        Err(e) => e,
    }
}

const A: [u8; 6] = [216, 52, 143, 114, 0x69, 0x87];
const B: [u8; 6] = [10, 0, 0, 1, 0x00, 0x50];
const C: [u8; 6] = [192, 168, 1, 20, 0xFF, 0xFF];
const D: [u8; 6] = [1, 2, 3, 4, 0x00, 0x05];
const END: [u8; 6] = [0, 0, 0, 0, 0, 0];

#[test]
fn test_constants() {
    assert_eq!(REQUEST_TYPE, 0x31);
    assert_eq!(DEFAULT_MAX_SERVERS, 64);
    assert_eq!(HEADER_LEN, 6);
}

#[test]
fn test_build_request() {
    assert_eq!(
        build_request(0xFF, "\\appid\\240", "0.0.0.0:0"),
        b"\x31\xFF0.0.0.0:0\0\\appid\\240\0".to_vec()
    );
    assert_eq!(build_request(0x03, "", ""), vec![0x31, 0x03, 0, 0]);
}

#[test]
fn test_first_request_continues_from_the_sentinel() {
    let (session, first) = QuerySession::start_raw(0x03, "\\appid\\240\\map\\de_dust2", 64);
    assert_eq!(first, request(0x03, "0.0.0.0:0", "\\appid\\240\\map\\de_dust2"));
    assert!(session.servers().is_empty());
    assert_eq!(session.max_servers(), 64);
}

#[test]
fn test_start_with_region_and_filter() {
    let filter = Filter::new().appid(240).map("de_dust2");
    let (session, first) = QuerySession::start(Region::Europe, &filter, 256);
    assert_eq!(first, request(0x03, "0.0.0.0:0", "\\appid\\240\\map\\de_dust2"));
    assert!(session.servers().is_empty());
    assert_eq!(session.max_servers(), 256);
}

#[test]
fn test_sentinel_ends_the_query() {
    let (session, _) = QuerySession::start_raw(0xFF, "\\appid\\240", 64);
    let servers = done(session.on_datagram(page(&[A, B, C, END])));
    assert_eq!(
        servers,
        vec![
            "216.52.143.114:27015",
            "10.0.0.1:80",
            "192.168.1.20:65535"
        ]
    );
}

#[test]
fn test_nothing_after_the_sentinel_is_read() {
    let (session, _) = QuerySession::start_raw(0xFF, "", 64);
    let mut datagram = page(&[A, END, B]);
    datagram.extend_from_slice(&[1, 2, 3]);
    assert_eq!(
        done(session.on_datagram(datagram)),
        vec!["216.52.143.114:27015"]
    );
}

#[test]
fn test_sentinel_alone_is_an_empty_result() {
    let (session, _) = QuerySession::start_raw(0xFF, "", 64);
    assert!(done(session.on_datagram(page(&[END]))).is_empty());
}

#[test]
fn test_cap_of_zero_ends_after_one_page() {
    let (session, _) = QuerySession::start_raw(0xFF, "\\appid\\240", 0);
    assert!(done(session.on_datagram(page(&[A, B, C]))).is_empty());
    let (session, _) = QuerySession::start_raw(0xFF, "\\appid\\240", 0);
    assert!(done(session.on_datagram(page(&[END]))).is_empty());
    let (session, _) = QuerySession::start_raw(0xFF, "\\appid\\240", 0);
    assert!(done(session.on_datagram(page(&[]))).is_empty());
}

#[test]
fn test_cap_stops_in_the_middle_of_a_page() {
    let (session, _) = QuerySession::start_raw(0xFF, "", 2);
    let mut datagram = page(&[A, B, C, D]);
    datagram.extend_from_slice(&[7, 7]);
    assert_eq!(
        done(session.on_datagram(datagram)),
        vec!["216.52.143.114:27015", "10.0.0.1:80"]
    );
}

#[test]
fn test_page_that_fills_the_cap_exactly_asks_for_more() {
    let (session, _) = QuerySession::start_raw(0x01, "f", 2);
    let (session, next) = go_on(session.on_datagram(page(&[A, B])));
    assert_eq!(next, request(0x01, "10.0.0.1:80", "f"));
    assert_eq!(
        done(session.on_datagram(page(&[C, D]))),
        vec!["216.52.143.114:27015", "10.0.0.1:80"]
    );
}

#[test]
fn test_two_pages() {
    let filter = "\\appid\\240";
    let (session, first) = QuerySession::start_raw(0x03, filter, 64);
    assert_eq!(first, request(0x03, "0.0.0.0:0", filter));
    let (session, second) = go_on(session.on_datagram(page(&[A, B])));
    assert_eq!(second, request(0x03, "10.0.0.1:80", filter));
    assert_eq!(
        session.servers(),
        &vec![
            String::from("216.52.143.114:27015"),
            String::from("10.0.0.1:80")
        ]
    );
    let servers = done(session.on_datagram(page(&[C, D, END])));
    assert_eq!(
        servers,
        vec![
            "216.52.143.114:27015",
            "10.0.0.1:80",
            "192.168.1.20:65535",
            "1.2.3.4:5"
        ]
    );
}

#[test]
fn test_three_pages_count_requests() {
    let (mut session, mut next) = QuerySession::start_raw(0xFF, "", 64);
    let pages = vec![page(&[A]), page(&[B, C]), page(&[D, END])];
    let mut requests = vec![next.clone()];
    let mut result = None;
    for datagram in pages {
        match session.on_datagram(datagram) {
            Ok(Step::Continue { session: s, request: r }) => {
                session = s;
                next = r;
                requests.push(next.clone());
            }
            Ok(Step::Done { servers }) => {
                result = Some(servers);
                break;
            }
            Err(e) => panic!("the query failed: {:?}", e),
        }
    }
    assert_eq!(
        requests,
        vec![
            request(0xFF, "0.0.0.0:0", ""),
            request(0xFF, "216.52.143.114:27015", ""),
            request(0xFF, "192.168.1.20:65535", ""),
        ]
    );
    assert_eq!(
        result.unwrap(),
        vec![
            "216.52.143.114:27015",
            "10.0.0.1:80",
            "192.168.1.20:65535",
            "1.2.3.4:5"
        ]
    );
}

#[test]
fn test_duplicates_are_kept() {
    let (session, _) = QuerySession::start_raw(0xFF, "", 64);
    assert_eq!(
        done(session.on_datagram(page(&[B, B, END]))),
        vec!["10.0.0.1:80", "10.0.0.1:80"]
    );
}

#[test]
fn test_empty_page_ends_the_query() {
    let (session, _) = QuerySession::start_raw(0xFF, "", 64);
    assert!(done(session.on_datagram(page(&[]))).is_empty());
}

#[test]
fn test_empty_second_page_ends_the_query_with_the_first() {
    let (session, _) = QuerySession::start_raw(0xFF, "", 64);
    let (session, _) = go_on(session.on_datagram(page(&[A])));
    assert_eq!(
        done(session.on_datagram(page(&[]))),
        vec!["216.52.143.114:27015"]
    );
}

#[test]
fn test_wrong_header_is_a_protocol_error() {
    let (session, _) = QuerySession::start_raw(0xFF, "", 64);
    let mut datagram = page(&[A, END]);
    datagram[5] = 0x0B;
    assert_eq!(failed(session.on_datagram(datagram)), QueryError::ProtocolError);
    let (session, _) = QuerySession::start_raw(0xFF, "", 64);
    let mut datagram = page(&[A, END]);
    datagram[0] = 0x00;
    assert_eq!(failed(session.on_datagram(datagram)), QueryError::ProtocolError);
    let (session, _) = QuerySession::start_raw(0xFF, "", 0);
    assert_eq!(
        failed(session.on_datagram(vec![0, 0, 0, 0, 0, 0])),
        QueryError::ProtocolError
    );
}

#[test]
fn test_wrong_header_on_a_later_page_loses_the_result() {
    let (session, _) = QuerySession::start_raw(0xFF, "", 64);
    let (session, _) = go_on(session.on_datagram(page(&[A])));
    assert_eq!(
        failed(session.on_datagram(vec![1, 2, 3, 4, 5, 6, 7, 8, 9, 10, 11, 12])),
        QueryError::ProtocolError
    );
}

#[test]
fn test_short_datagram_is_truncated() {
    let (session, _) = QuerySession::start_raw(0xFF, "", 64);
    assert_eq!(failed(session.on_datagram(vec![])), QueryError::TruncatedInput);
    let (session, _) = QuerySession::start_raw(0xFF, "", 64);
    assert_eq!(
        failed(session.on_datagram(vec![0xFF, 0xFF, 0xFF, 0xFF, 0x66])),
        QueryError::TruncatedInput
    );
    let (session, _) = QuerySession::start_raw(0xFF, "", 64);
    assert_eq!(
        failed(session.on_datagram(vec![0x00])),
        QueryError::TruncatedInput
    );
}

#[test]
fn test_cut_record_is_truncated() {
    for extra in 1..6 {
        let (session, _) = QuerySession::start_raw(0xFF, "", 64);
        let mut datagram = page(&[A]);
        datagram.extend_from_slice(&END[..extra]);
        assert_eq!(
            failed(session.on_datagram(datagram)),
            QueryError::TruncatedInput
        );
    }
}

#[test]
fn test_cut_record_with_cap_of_zero_is_truncated() {
    let (session, _) = QuerySession::start_raw(0xFF, "", 0);
    let mut datagram = page(&[]);
    datagram.extend_from_slice(&[1, 2, 3]);
    assert_eq!(
        failed(session.on_datagram(datagram)),
        QueryError::TruncatedInput
    );
}

#[test]
fn test_continuation_request_carries_the_last_address() {
    let filter = Filter::new().appid(240).nand().map("de_dust2").empty(true).end();
    let (session, _) = QuerySession::start(Region::Asia, &filter, 64);
    let (_, second) = go_on(session.on_datagram(page(&[A, B, C])));
    let mut cursor = ByteCursor::new(second);
    assert_eq!(cursor.read_u8(), Ok(0x31));
    assert_eq!(cursor.read_u8(), Ok(0x04));
    assert_eq!(cursor.read_cstring(), Ok(String::from("192.168.1.20:65535")));
    assert_eq!(
        cursor.read_cstring(),
        Ok(String::from("\\appid\\240\\nand\\2\\map\\de_dust2\\noplayers\\1"))
    );
    assert_eq!(cursor.remaining(), 0);
}

#[test]
fn test_list_never_outgrows_the_cap() {
    for cap in 0..6usize {
        let (mut session, _) = QuerySession::start_raw(0xFF, "", cap);
        let mut servers = None;
        for _ in 0..10 {
            match session.on_datagram(page(&[A, B])) {
                Ok(Step::Continue { session: next, .. }) => {
                    assert!(next.servers().len() <= cap);
                    session = next;
                }
                Ok(Step::Done { servers: found }) => {
                    servers = Some(found);
                    break;
                }
                Err(e) => panic!("the query failed: {:?}", e),
            }
        }
        let servers = servers.unwrap();
        assert_eq!(servers.len(), cap);
        for (i, server) in servers.iter().enumerate() {
            let expected = if i % 2 == 0 {
                "216.52.143.114:27015"
            } else {
                "10.0.0.1:80"
            };
            assert_eq!(server, expected);
        }
    }
}
