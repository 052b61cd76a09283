//! The paginated query engine.
//!
//! A query is a sequence of round trips. Each request carries the address
//! that the previous page ended with, and the server answers with the page
//! that follows it. The engine holds no socket: it hands its driver the
//! request to send and takes back the datagram that arrived, until the list
//! is complete.

use crate::address::{
    format_address, lemma_sentinel_only_for_zero_record, record_text, sentinel_record,
    sentinel_text, RECORD_LEN, SENTINEL_ADDRESS,
};
use crate::error::QueryError;
use crate::filter::Filter;
use crate::packet_ext::{cstring_bytes, ByteCursor, ReadPacketExt, WritePacketExt};
use crate::region::{region_code, Region};
use crate::wire::write_u8_to;
use vstd::prelude::*;
use vstd::string::StringExecFns;

verus! {

/// The message type of a query request.
pub const REQUEST_TYPE: u8 = 0x31;

/// The number of servers that a query collects where its caller sets no
/// other limit.
pub const DEFAULT_MAX_SERVERS: usize = 64;

/// The number of bytes of the header of a response.
pub const HEADER_LEN: usize = 6;

/// The six bytes that every response begins with.
pub open spec fn response_header() -> Seq<u8> {
    seq![0xFFu8, 0xFFu8, 0xFFu8, 0xFFu8, 0x66u8, 0x0Au8]
}

/// The bytes of a request: the message type, the region code, the address
/// to continue from and the filter, both NUL-terminated.
pub open spec fn request_bytes(region: u8, last_address: Seq<char>, filter: Seq<char>) -> Seq<u8> {
    seq![REQUEST_TYPE, region] + cstring_bytes(last_address) + cstring_bytes(filter)
}

/// The texts of a list of strings.
pub open spec fn texts(strings: Seq<String>) -> Seq<Seq<char>> {
    strings.map_values(|s: String| s@)
}

/// How reading the records of one page ends.
pub enum Scan {
    /// A record was cut short by the end of the page.
    Truncated,
    /// The sentinel or the cap was met: the list is complete.
    Stopped { servers: Seq<Seq<char>> },
    /// The page ended without either: the list may go on.
    Exhausted { servers: Seq<Seq<char>> },
}

/// Read the records of a page from the front, adding each address to
/// `servers`. The cap is tested before each address is added, so a record
/// that meets a full list ends the scan as the sentinel does, and what
/// follows it is not looked at.
pub open spec fn scan_records(records: Seq<u8>, servers: Seq<Seq<char>>, max_servers: nat) -> Scan
    decreases records.len(),
{
    if records.len() == 0 {
        Scan::Exhausted { servers }
    } else if records.len() < RECORD_LEN {
        Scan::Truncated
    } else if servers.len() >= max_servers || record_text(records.take(RECORD_LEN as int))
        == sentinel_text() {
        Scan::Stopped { servers }
    } else {
        scan_records(
            records.skip(RECORD_LEN as int),
            servers.push(record_text(records.take(RECORD_LEN as int))),
            max_servers,
        )
    }
}

impl Scan {
    /// The list that the scan ended with, where it did not fail.
    pub open spec fn found(self) -> Option<Seq<Seq<char>>> {
        match self {
            Scan::Truncated => None,
            Scan::Stopped { servers } => Some(servers),
            Scan::Exhausted { servers } => Some(servers),
        }
    }
}

/// A scan adds addresses only while the list is below the cap, so a list
/// that was within the cap stays within it. It only ever adds to the end of
/// the list, and it never adds the sentinel.
pub proof fn lemma_scan_extends_list(records: Seq<u8>, servers: Seq<Seq<char>>, max_servers: nat)
    requires
        servers.len() <= max_servers,
    ensures
        scan_records(records, servers, max_servers).found() matches Some(found) ==> {
            &&& found.len() <= max_servers
            &&& extends_without_sentinel(servers, found)
        },
    decreases records.len(),
{
    if records.len() >= RECORD_LEN && !(servers.len() >= max_servers || record_text(
        records.take(RECORD_LEN as int),
    ) == sentinel_text()) {
        let next = servers.push(record_text(records.take(RECORD_LEN as int)));
        lemma_scan_extends_list(records.skip(RECORD_LEN as int), next, max_servers);
        if let Some(found) = scan_records(records, servers, max_servers).found() {
            let kept = found.take(next.len() as int);
            assert(kept == next);
            assert(found.take(servers.len() as int) =~= kept.take(servers.len() as int));
            assert(next.take(servers.len() as int) =~= servers);
            assert forall|i: int| servers.len() <= i < found.len() implies found[i]
                != sentinel_text() by {
                if i == servers.len() {
                    assert(found[i] == kept[i]);
                    assert(kept[i] == next[i]);
                }
            }
        }
    } else {
        assert(servers.take(servers.len() as int) =~= servers);
    }
}

/// What a query in progress consists of.
pub struct SessionView {
    pub region: u8,
    pub filter: Seq<char>,
    pub max_servers: nat,
    pub servers: Seq<Seq<char>>,
}

impl SessionView {
    /// The list never holds more servers than the cap allows.
    pub open spec fn wf(self) -> bool {
        self.servers.len() <= self.max_servers
    }

    /// The state of a query before its first response.
    pub open spec fn initial(region: u8, filter: Seq<char>, max_servers: nat) -> SessionView {
        SessionView { region, filter, max_servers, servers: Seq::empty() }
    }
}

/// What a step asks of the driver, over views.
pub enum StepView {
    Continue { session: SessionView, request: Seq<u8> },
    Done { servers: Seq<Seq<char>> },
}

/// The step that a datagram causes.
///
/// A datagram shorter than the header is truncated input; one that begins
/// with other bytes is a protocol error. Otherwise its records are read. The
/// query is complete where the sentinel or the cap was met, and also where
/// the page added no address, so that a server that sends empty pages cannot
/// keep a query going. In every other case the next page is asked for, from
/// the last address that was added.
pub open spec fn page_step(session: SessionView, datagram: Seq<u8>) -> Result<StepView, QueryError> {
    if datagram.len() < HEADER_LEN {
        Err(QueryError::TruncatedInput)
    } else if datagram.take(HEADER_LEN as int) != response_header() {
        Err(QueryError::ProtocolError)
    } else {
        match scan_records(datagram.skip(HEADER_LEN as int), session.servers, session.max_servers) {
            Scan::Truncated => Err(QueryError::TruncatedInput),
            Scan::Stopped { servers } => Ok(StepView::Done { servers }),
            Scan::Exhausted { servers } => if servers.len() == session.servers.len() {
                Ok(StepView::Done { servers })
            } else {
                Ok(
                    StepView::Continue {
                        session: SessionView { servers, ..session },
                        request: request_bytes(session.region, servers.last(), session.filter),
                    },
                )
            },
        }
    }
}

/// Frame a request for the page that follows `address`.
pub fn build_request(region_code: u8, filter_str: &str, address: &str) -> (packet: Vec<u8>)
    ensures
        packet@ == request_bytes(region_code, address@, filter_str@),
{
    let mut packet: Vec<u8> = Vec::new();
    write_u8_to(&mut packet, REQUEST_TYPE);
    write_u8_to(&mut packet, region_code);
    let _ = packet.write_cstring(address);
    let _ = packet.write_cstring(filter_str);
    assert(packet@ =~= request_bytes(region_code, address@, filter_str@));
    packet
}

/// The header of a response, as the bytes to match a datagram against.
fn header_bytes() -> (header: Vec<u8>)
    ensures
        header@ == response_header(),
{
    let mut header: Vec<u8> = Vec::new();
    header.push(0xFF);
    header.push(0xFF);
    header.push(0xFF);
    header.push(0xFF);
    header.push(0x66);
    header.push(0x0A);
    assert(header@ =~= response_header());
    header
}

/// Read the records that are left in `cursor`, adding their addresses to
/// `servers`, and tell whether the list is complete.
fn read_records(cursor: &mut ByteCursor, servers: Vec<String>, max_servers: usize) -> (read:
    Result<(Vec<String>, bool), QueryError>)
    ensures
        match scan_records(old(cursor)@, texts(servers@), max_servers as nat) {
            Scan::Truncated => read == Err::<(Vec<String>, bool), QueryError>(
                QueryError::TruncatedInput,
            ),
            Scan::Stopped { servers: found } => read is Ok && read->Ok_0.1 && texts(read->Ok_0.0@)
                == found,
            Scan::Exhausted { servers: found } => read is Ok && !read->Ok_0.1 && texts(
                read->Ok_0.0@,
            ) == found,
        },
{
    let ghost goal = scan_records(cursor@, texts(servers@), max_servers as nat);
    let sentinel = String::from_str(SENTINEL_ADDRESS);
    let mut found = servers;
    while cursor.remaining() > 0
        invariant
            sentinel@ == sentinel_text(),
            goal == scan_records(old(cursor)@, texts(servers@), max_servers as nat),
            scan_records(cursor@, texts(found@), max_servers as nat) == goal,
        decreases cursor@.len(),
    {
        let ghost rest = cursor@;
        let a = cursor.read_u8()?;
        let b = cursor.read_u8()?;
        let c = cursor.read_u8()?;
        let d = cursor.read_u8()?;
        let port = cursor.read_u16_be()?;
        assert(rest.len() >= RECORD_LEN);
        assert(cursor@ =~= rest.skip(RECORD_LEN as int));
        let addr_str = format_address(a, b, c, d, port);
        assert(addr_str@ == record_text(rest.take(RECORD_LEN as int)));
        if found.len() >= max_servers || addr_str == sentinel {
            return Ok((found, true));
        }
        proof {
            assert(texts(found@.push(addr_str)) =~= texts(found@).push(addr_str@));
        }
        found.push(addr_str);
    }
    Ok((found, false))
}

/// A query between two round trips: what was asked for, and the servers
/// found so far.
pub struct QuerySession {
    region: u8,
    filter: String,
    max_servers: usize,
    servers: Vec<String>,
}

/// What the driver of a query does next.
pub enum Step {
    /// Send `request`, receive one datagram and hand it to `session`.
    Continue { session: QuerySession, request: Vec<u8> },
    /// The query is complete: these are the servers, in the order in which
    /// they were received.
    Done { servers: Vec<String> },
}

impl View for QuerySession {
    type V = SessionView;

    closed spec fn view(&self) -> SessionView {
        SessionView {
            region: self.region,
            filter: self.filter@,
            max_servers: self.max_servers as nat,
            servers: texts(self.servers@),
        }
    }
}

impl View for Step {
    type V = StepView;

    open spec fn view(&self) -> StepView {
        match *self {
            Step::Continue { session, request } => StepView::Continue {
                session: session@,
                request: request@,
            },
            Step::Done { servers } => StepView::Done { servers: texts(servers@) },
        }
    }
}

impl QuerySession {
    #[verifier::type_invariant]
    spec fn within_cap(self) -> bool {
        self.servers@.len() <= self.max_servers
    }

    /// Begin a query from a raw region code and a filter string: the session,
    /// and the first request, which continues from the sentinel.
    pub fn start_raw(region_code: u8, filter_str: &str, max_servers: usize) -> (started: (
        QuerySession,
        Vec<u8>,
    ))
        ensures
            started.0@ == SessionView::initial(region_code, filter_str@, max_servers as nat),
            started.1@ == request_bytes(region_code, sentinel_text(), filter_str@),
    {
        let request = build_request(region_code, filter_str, SENTINEL_ADDRESS);
        let session = QuerySession {
            region: region_code,
            filter: String::from_str(filter_str),
            max_servers,
            servers: Vec::new(),
        };
        assert(session@.servers =~= Seq::empty());
        (session, request)
    }

    /// Begin a query from a region and a filter: as `start_raw`, with the
    /// region's code and the filter's string.
    pub fn start(region: Region, filter: &Filter, max_servers: usize) -> (started: (
        QuerySession,
        Vec<u8>,
    ))
        ensures
            started.0@ == SessionView::initial(
                region_code(region),
                filter@.text,
                max_servers as nat,
            ),
            started.1@ == request_bytes(region_code(region), sentinel_text(), filter@.text),
    {
        let filter_str = filter.as_string();
        QuerySession::start_raw(region.as_u8(), filter_str.as_str(), max_servers)
    }

    /// The servers found so far, in the order in which they were received.
    pub fn servers(&self) -> (servers: &Vec<String>)
        ensures
            texts(servers@) == self@.servers,
    {
        &self.servers
    }

    /// The most servers that the query will collect.
    pub fn max_servers(&self) -> (max_servers: usize)
        ensures
            max_servers == self@.max_servers,
    {
        self.max_servers
    }

    /// Take the datagram that answered the last request and decide what
    /// comes next. An error ends the query: the session is used up and no
    /// server is handed out.
    pub fn on_datagram(self, datagram: Vec<u8>) -> (result: Result<Step, QueryError>)
        ensures
            page_step(self@, datagram@) == match result {
                Ok(step) => Ok::<StepView, QueryError>(step@),
                Err(e) => Err::<StepView, QueryError>(e),
            },
            result matches Ok(Step::Continue { session, .. }) ==> session@.wf(),
    {
        proof {
            use_type_invariant(&self);
            lemma_scan_extends_list(
                datagram@.skip(HEADER_LEN as int),
                self@.servers,
                self@.max_servers,
            );
        }
        let mut cursor = ByteCursor::new(datagram);
        let header = header_bytes();
        if !cursor.read_u8_veccheck(&header)? {
            return Err(QueryError::ProtocolError);
        }
        let QuerySession { region, filter, max_servers, servers } = self;
        let found_before = servers.len();
        let (servers, done) = read_records(&mut cursor, servers, max_servers)?;
        if done || servers.len() == found_before {
            Ok(Step::Done { servers })
        } else {
            let request = build_request(region, filter.as_str(), servers[servers.len() - 1].as_str());
            let session = QuerySession { region, filter, max_servers, servers };
            Ok(Step::Continue { session, request })
        }
    }
}

/// `after` is `before` with addresses added at its end, none of them the
/// sentinel.
pub open spec fn extends_without_sentinel(before: Seq<Seq<char>>, after: Seq<Seq<char>>) -> bool {
    &&& before.len() <= after.len()
    &&& after.take(before.len() as int) == before
    &&& forall|i: int| #![auto] before.len() <= i < after.len() ==> after[i] != sentinel_text()
}

/// Records of six bytes each, none of which is the sentinel record.
pub open spec fn plain_records(records: Seq<Seq<u8>>) -> bool {
    forall|i: int|
        0 <= i < records.len() ==> (#[trigger] records[i]).len() == RECORD_LEN && records[i]
            != sentinel_record()
}

/// The addresses of the records of a page.
pub open spec fn record_texts(records: Seq<Seq<u8>>) -> Seq<Seq<char>> {
    records.map_values(|record: Seq<u8>| record_text(record))
}

/// Records that are no sentinel are all taken while the cap allows it, and
/// the scan goes on with what follows them.
pub proof fn lemma_scan_plain_records(
    records: Seq<Seq<u8>>,
    rest: Seq<u8>,
    servers: Seq<Seq<char>>,
    max_servers: nat,
)
    requires
        plain_records(records),
        servers.len() + records.len() <= max_servers,
    ensures
        scan_records(records.flatten() + rest, servers, max_servers) == scan_records(
            rest,
            servers + record_texts(records),
            max_servers,
        ),
    decreases records.len(),
{
    if records.len() == 0 {
        assert(records.flatten() + rest =~= rest);
        assert(servers + record_texts(records) =~= servers);
    } else {
        let first = records.first();
        let others = records.drop_first();
        let bytes = records.flatten() + rest;
        assert(first.len() == RECORD_LEN);
        assert(bytes.take(RECORD_LEN as int) =~= first);
        assert(bytes.skip(RECORD_LEN as int) =~= others.flatten() + rest);
        assert(plain_records(others)) by {
            assert forall|i: int| 0 <= i < others.len() implies (#[trigger] others[i]).len()
                == RECORD_LEN && others[i] != sentinel_record() by {
                assert(others[i] == records[i + 1]);
            }
        }
        lemma_sentinel_only_for_zero_record(first);
        lemma_scan_plain_records(others, rest, servers.push(record_text(first)), max_servers);
        assert(servers.push(record_text(first)) + record_texts(others) =~= servers + record_texts(
            records,
        ));
    }
}

/// A response that does not begin with the header fails the query, whatever
/// else it holds and whatever the session has found: as truncated input
/// where it is shorter than the header, as a protocol error otherwise.
pub proof fn lemma_header_is_checked(session: SessionView, datagram: Seq<u8>)
    requires
        datagram.len() < HEADER_LEN || datagram.take(HEADER_LEN as int) != response_header(),
    ensures
        datagram.len() < HEADER_LEN ==> page_step(session, datagram) == Err::<
            StepView,
            QueryError,
        >(QueryError::TruncatedInput),
        datagram.len() >= HEADER_LEN ==> page_step(session, datagram) == Err::<
            StepView,
            QueryError,
        >(QueryError::ProtocolError),
{
}

/// A page of records that ends with the sentinel completes the query: the
/// result is what was found before, then the addresses of the records, in
/// their order, and no further request is made. What follows the sentinel in
/// the datagram is not looked at.
pub proof fn lemma_sentinel_ends_query(
    session: SessionView,
    records: Seq<Seq<u8>>,
    unread: Seq<u8>,
)
    requires
        plain_records(records),
        session.servers.len() + records.len() <= session.max_servers,
    ensures
        page_step(
            session,
            response_header() + records.flatten() + sentinel_record() + unread,
        ) == Ok::<StepView, QueryError>(
            StepView::Done { servers: session.servers + record_texts(records) },
        ),
{
    let rest = sentinel_record() + unread;
    let datagram = response_header() + records.flatten() + sentinel_record() + unread;
    assert(datagram.take(HEADER_LEN as int) =~= response_header());
    assert(datagram.skip(HEADER_LEN as int) =~= records.flatten() + rest);
    lemma_scan_plain_records(records, rest, session.servers, session.max_servers);
    lemma_sentinel_only_for_zero_record(sentinel_record());
    assert(rest.take(RECORD_LEN as int) =~= sentinel_record());
}

/// With the cap reached, and so with a cap of zero, one response completes
/// the query and adds nothing, whatever records it holds. The response must
/// begin with the header and hold at least one whole record or none at all.
pub proof fn lemma_cap_ends_query(session: SessionView, records: Seq<u8>)
    requires
        session.servers.len() >= session.max_servers,
        records.len() == 0 || records.len() >= RECORD_LEN,
    ensures
        page_step(session, response_header() + records) == Ok::<StepView, QueryError>(
            StepView::Done { servers: session.servers },
        ),
{
    let datagram = response_header() + records;
    assert(datagram.take(HEADER_LEN as int) =~= response_header());
    assert(datagram.skip(HEADER_LEN as int) =~= records);
}

/// A page that holds more records than the cap leaves room for completes
/// the query with the records that fit: the list is filled to the cap, in
/// the order of the page, and the record that met the full list is dropped
/// with all that follows it.
pub proof fn lemma_cap_cuts_page(session: SessionView, records: Seq<Seq<u8>>, unread: Seq<u8>)
    requires
        plain_records(records),
        session.servers.len() + records.len() == session.max_servers,
        unread.len() >= RECORD_LEN,
    ensures
        page_step(session, response_header() + records.flatten() + unread) == Ok::<
            StepView,
            QueryError,
        >(StepView::Done { servers: session.servers + record_texts(records) }),
{
    let datagram = response_header() + records.flatten() + unread;
    assert(datagram.take(HEADER_LEN as int) =~= response_header());
    assert(datagram.skip(HEADER_LEN as int) =~= records.flatten() + unread);
    lemma_scan_plain_records(records, unread, session.servers, session.max_servers);
}

/// A page of records without the sentinel asks for the page that follows its
/// last address, and a second page that ends with the sentinel then
/// completes the query with the addresses of both pages, in their order.
pub proof fn lemma_two_pages(
    session: SessionView,
    first: Seq<Seq<u8>>,
    second: Seq<Seq<u8>>,
    unread: Seq<u8>,
)
    requires
        plain_records(first),
        plain_records(second),
        first.len() >= 1,
        session.servers.len() + first.len() + second.len() <= session.max_servers,
    ensures
        page_step(session, response_header() + first.flatten()) == Ok::<StepView, QueryError>(
            StepView::Continue {
                session: SessionView {
                    servers: session.servers + record_texts(first),
                    ..session
                },
                request: request_bytes(
                    session.region,
                    record_text(first.last()),
                    session.filter,
                ),
            },
        ),
        page_step(
            SessionView { servers: session.servers + record_texts(first), ..session },
            response_header() + second.flatten() + sentinel_record() + unread,
        ) == Ok::<StepView, QueryError>(
            StepView::Done {
                servers: session.servers + record_texts(first) + record_texts(second),
            },
        ),
{
    let page = response_header() + first.flatten();
    assert(page.take(HEADER_LEN as int) =~= response_header());
    assert(page.skip(HEADER_LEN as int) =~= first.flatten() + Seq::<u8>::empty());
    lemma_scan_plain_records(first, Seq::empty(), session.servers, session.max_servers);
    let next = SessionView { servers: session.servers + record_texts(first), ..session };
    assert(next.servers.last() == record_text(first.last()));
    lemma_sentinel_ends_query(next, second, unread);
}

/// Every request for a further page was earned by at least one new address,
/// and the list stays within the cap: a query of cap `n` asks for at most
/// `n` further pages. What was found is kept, in its order, the sentinel is
/// never added, and the request continues from the address that was added
/// last.
pub proof fn lemma_continue_makes_progress(session: SessionView, datagram: Seq<u8>)
    requires
        session.wf(),
    ensures
        page_step(session, datagram) matches Ok(StepView::Continue { session: next, request })
            ==> {
            &&& next.wf()
            &&& next.servers.len() > session.servers.len()
            &&& next.region == session.region
            &&& next.filter == session.filter
            &&& next.max_servers == session.max_servers
            &&& request == request_bytes(session.region, next.servers.last(), session.filter)
            &&& extends_without_sentinel(session.servers, next.servers)
        },
        page_step(session, datagram) matches Ok(StepView::Done { servers }) ==> {
            &&& servers.len() <= session.max_servers
            &&& extends_without_sentinel(session.servers, servers)
        },
{
    if datagram.len() >= HEADER_LEN {
        lemma_scan_extends_list(
            datagram.skip(HEADER_LEN as int),
            session.servers,
            session.max_servers,
        );
    }
}

} // verus!
