//! Ad-hoc append logging to a local file or a remote TCP endpoint, safe to
//! call from any number of threads at once.
//!
//! A destination string is resolved into a typed target (file path, or
//! host and port). Each target kind has a process-wide cache of open
//! handles, keyed by destination: a handle is opened lazily on first use,
//! opened at most once per key, and kept for the life of the process. A
//! failed open is not cached, so the next call with the same key retries
//! it. Writes to one key never interleave; distinct keys never block each
//! other.
//!
//! The resolver and the composition around the cache are verified; the
//! cache itself wraps a concurrent map, and the caller supplies the open
//! and write actions, since opening files or sockets is I/O that the
//! verified core does not perform itself.

use vstd::prelude::*;
use vstd::string::StrSliceExecFns;
use vstd::string::StringSliceAdditionalSpecFns;

pub mod cache;
pub mod resolver;

pub use cache::HandleCache;
pub use resolver::Destination;
pub use resolver::ResolveError;
pub use resolver::Target;
pub use resolver::resolve;
pub use resolver::spec_resolve;
pub use resolver::spec_resolve_reason;

verus! {

/// A write routine's failure: the write of the bytes, or the flush after
/// it. `E` is the caller's underlying error type.
#[derive(Debug, PartialEq, Eq)]
pub enum WriteError<E> {
    Write { cause: E },
    Flush { cause: E },
}

/// Everything that can go wrong in one log call.
///
/// A malformed destination is a caller error and never retried. A failed
/// open leaves no cache entry behind, so a later call with the same key
/// retries the open. A write or flush failure leaves the handle cached as
/// it is: the next call retries over the same, possibly broken, handle —
/// simplicity is preferred over self-healing there.
#[derive(Debug, PartialEq, Eq)]
pub enum LogError<E> {
    InvalidDestination { reason: ResolveError },
    OpenFailure { cause: E },
    WriteFailure { cause: E },
    FlushFailure { cause: E },
}

/// One framed record: the message bytes followed by a single newline.
pub open spec fn framed(message: Seq<u8>) -> Seq<u8> {
    message + seq![10u8]
}

/// A message without interior newlines: the only framing byte a stream of
/// such records holds is the record terminator itself.
pub open spec fn newline_free(message: Seq<u8>) -> bool {
    forall|i: int| 0 <= i < message.len() ==> message[i] != 10u8
}

/// The byte stream that a sequence of messages leaves behind when each is
/// appended as one framed record.
pub open spec fn records(messages: Seq<Seq<u8>>) -> Seq<u8>
    decreases messages.len(),
{
    if messages.len() == 0 {
        Seq::empty()
    } else {
        framed(messages[0]) + records(messages.drop_first())
    }
}

/// Produces the exact byte sequence of one log record: the UTF-8 bytes of
/// the message followed by a single newline byte. A record is appended
/// verbatim; there is no other framing.
pub fn dirty_log_str_writer(message: &str) -> (line: Vec<u8>)
    ensures
        line@ == framed(message.spec_bytes()),
{
    let mut line = message.as_bytes_vec();
    line.push(10u8);
    proof {
        assert(line@ =~= framed(message.spec_bytes()));
    }
    line
}

/// No interleaving, seen from the bytes: when every message is
/// newline-free, the stream of framed records determines the messages and
/// their order — equal streams mean equal message sequences, so splitting
/// the output at newlines recovers each record whole, never bytes of two
/// messages in one line.
pub proof fn lemma_records_uniquely_decodable(a: Seq<Seq<u8>>, b: Seq<Seq<u8>>)
    requires
        forall|i: int| 0 <= i < a.len() ==> newline_free(#[trigger] a[i]),
        forall|i: int| 0 <= i < b.len() ==> newline_free(#[trigger] b[i]),
        records(a) == records(b),
    ensures
        a == b,
    decreases a.len(),
{
    if a.len() == 0 && b.len() == 0 {
        assert(a =~= b);
    } else if a.len() == 0 {
        assert(records(b).len() >= framed(b[0]).len());
    } else if b.len() == 0 {
        assert(records(a).len() >= framed(a[0]).len());
    } else {
        let la = a[0].len() as int;
        let lb = b[0].len() as int;
        assert(records(a)[la] == 10u8);
        assert(records(b)[lb] == 10u8);
        assert(forall|j: int| 0 <= j < la ==> records(a)[j] == a[0][j]);
        assert(forall|j: int| 0 <= j < lb ==> records(b)[j] == b[0][j]);
        if la < lb {
            assert(records(b)[la] != 10u8);
        }
        if lb < la {
            assert(records(a)[lb] != 10u8);
        }
        assert(la == lb);
        assert forall|j: int| 0 <= j < la implies a[0][j] == b[0][j] by {
            assert(records(a)[j] == a[0][j]);
            assert(records(b)[j] == b[0][j]);
        }
        assert(a[0] =~= b[0]);
        let ra = records(a.drop_first());
        let rb = records(b.drop_first());
        assert(ra =~= records(a).subrange(la + 1, records(a).len() as int));
        assert(rb =~= records(b).subrange(lb + 1, records(b).len() as int));
        lemma_records_uniquely_decodable(a.drop_first(), b.drop_first());
        assert(a =~= seq![a[0]] + a.drop_first());
        assert(b =~= seq![b[0]] + b.drop_first());
    }
}

/// Appends one record to the file destination `filepath`, opening it on
/// first use through `open` and writing through `write`, both run under
/// the key's exclusive cache entry.
pub fn dirty_log_str_file<V, E, FO, FW>(
    files: &HandleCache<String, V>,
    filepath: &str,
    open: FO,
    write: FW,
) -> (r: Result<(), LogError<E>>) where
    FO: FnOnce() -> Result<V, E>,
    FW: FnOnce(&mut V) -> Result<(), WriteError<E>>,

    requires
        call_requires(open, ()),
        forall|m: &mut V| call_requires(write, (m,)),
    ensures
        match r {
            Ok(()) => exists|m: &mut V| call_ensures(write, (m,), Ok::<(), WriteError<E>>(())),
            Err(e) => match e {
                LogError::InvalidDestination { .. } => false,
                LogError::OpenFailure { cause } => call_ensures(open, (), Err::<V, E>(cause)),
                LogError::WriteFailure { cause } => exists|m: &mut V|
                    call_ensures(write, (m,), Err::<(), _>(WriteError::Write { cause })),
                LogError::FlushFailure { cause } => exists|m: &mut V|
                    call_ensures(write, (m,), Err::<(), _>(WriteError::Flush { cause })),
            },
        },
{
    files.acquire_and_use(filepath.to_owned(), open, write)
}

/// Appends one record to the TCP destination `(hostname, port)`,
/// connecting on first use through `open` and writing through `write`,
/// both run under the key's exclusive cache entry.
pub fn dirty_log_str_tcp<V, E, FO, FW>(
    streams: &HandleCache<(String, u16), V>,
    hostname: &str,
    port: u16,
    open: FO,
    write: FW,
) -> (r: Result<(), LogError<E>>) where
    FO: FnOnce() -> Result<V, E>,
    FW: FnOnce(&mut V) -> Result<(), WriteError<E>>,

    requires
        call_requires(open, ()),
        forall|m: &mut V| call_requires(write, (m,)),
    ensures
        match r {
            Ok(()) => exists|m: &mut V| call_ensures(write, (m,), Ok::<(), WriteError<E>>(())),
            Err(e) => match e {
                LogError::InvalidDestination { .. } => false,
                LogError::OpenFailure { cause } => call_ensures(open, (), Err::<V, E>(cause)),
                LogError::WriteFailure { cause } => exists|m: &mut V|
                    call_ensures(write, (m,), Err::<(), _>(WriteError::Write { cause })),
                LogError::FlushFailure { cause } => exists|m: &mut V|
                    call_ensures(write, (m,), Err::<(), _>(WriteError::Flush { cause })),
            },
        },
{
    streams.acquire_and_use((hostname.to_owned(), port), open, write)
}

/// One log call: resolves `uri`, dispatches to the cache of the resolved
/// kind, and appends one record there. The caller supplies how a file
/// destination and a TCP destination are opened and written; each runs
/// under the destination key's exclusive cache entry.
///
/// The destination is rejected, and nothing else happens, exactly when
/// `uri` is malformed: a TCP destination without a colon, with a part
/// after its last colon that is not a base-10 unsigned 16-bit integer, or
/// with an unbracketed host holding a colon.
pub fn dirty_log_message<VF, VT, E, OF, OT, WF, WT>(
    files: &HandleCache<String, VF>,
    streams: &HandleCache<(String, u16), VT>,
    uri: &str,
    open_file: OF,
    open_tcp: OT,
    write_file: WF,
    write_tcp: WT,
) -> (r: Result<(), LogError<E>>) where
    OF: FnOnce(&str) -> Result<VF, E>,
    OT: FnOnce(&str, u16) -> Result<VT, E>,
    WF: FnOnce(&mut VF) -> Result<(), WriteError<E>>,
    WT: FnOnce(&mut VT) -> Result<(), WriteError<E>>,

    requires
        forall|p: &str| call_requires(open_file, (p,)),
        forall|h: &str, port: u16| call_requires(open_tcp, (h, port)),
        forall|m: &mut VF| call_requires(write_file, (m,)),
        forall|m: &mut VT| call_requires(write_tcp, (m,)),
    ensures
        r matches Err(LogError::InvalidDestination { .. }) <==> spec_resolve(uri@) is None,
        spec_resolve(uri@) is None ==> r == Err::<(), LogError<E>>(
            LogError::InvalidDestination { reason: spec_resolve_reason(uri@) },
        ),
        r matches Err(LogError::OpenFailure { cause }) ==> ({
            ||| (spec_resolve(uri@) matches Some(Target::File { path }) && exists|p: &str|
                p@ == path && call_ensures(open_file, (p,), Err::<VF, E>(cause)))
            ||| (spec_resolve(uri@) matches Some(Target::Tcp { host, port }) && exists|h: &str|
                h@ == host && call_ensures(open_tcp, (h, port), Err::<VT, E>(cause)))
        }),
        r matches Err(LogError::WriteFailure { cause }) ==> ({
            &&& spec_resolve(uri@) is Some
            &&& (spec_resolve(uri@) matches Some(Target::File { .. }) ==> exists|m: &mut VF|
                call_ensures(write_file, (m,), Err::<(), _>(WriteError::Write { cause })))
            &&& (spec_resolve(uri@) matches Some(Target::Tcp { .. }) ==> exists|m: &mut VT|
                call_ensures(write_tcp, (m,), Err::<(), _>(WriteError::Write { cause })))
        }),
        r matches Err(LogError::FlushFailure { cause }) ==> ({
            &&& spec_resolve(uri@) is Some
            &&& (spec_resolve(uri@) matches Some(Target::File { .. }) ==> exists|m: &mut VF|
                call_ensures(write_file, (m,), Err::<(), _>(WriteError::Flush { cause })))
            &&& (spec_resolve(uri@) matches Some(Target::Tcp { .. }) ==> exists|m: &mut VT|
                call_ensures(write_tcp, (m,), Err::<(), _>(WriteError::Flush { cause })))
        }),
        r is Ok ==> ({
            &&& spec_resolve(uri@) is Some
            &&& (spec_resolve(uri@) matches Some(Target::File { .. }) ==> exists|m: &mut VF|
                call_ensures(write_file, (m,), Ok::<(), WriteError<E>>(())))
            &&& (spec_resolve(uri@) matches Some(Target::Tcp { .. }) ==> exists|m: &mut VT|
                call_ensures(write_tcp, (m,), Ok::<(), WriteError<E>>(())))
        }),
{
    match resolve(uri) {
        Err(reason) => Err(LogError::InvalidDestination { reason }),
        Ok(Destination::File { path }) => {
            let filepath = path.clone();
            let opener = (move || -> (out: Result<VF, E>)
                ensures
                    out matches Err(cause) ==> exists|p: &str|
                        p@ == path@ && call_ensures(open_file, (p,), Err::<VF, E>(cause)),
                {
                    open_file(path.as_str())
                });
            dirty_log_str_file(files, filepath.as_str(), opener, write_file)
        },
        Ok(Destination::Tcp { host, port }) => {
            let hostname = host.clone();
            let opener = (move || -> (out: Result<VT, E>)
                ensures
                    out matches Err(cause) ==> exists|h: &str|
                        h@ == host@ && call_ensures(open_tcp, (h, port), Err::<VT, E>(cause)),
                {
                    open_tcp(host.as_str(), port)
                });
            dirty_log_str_tcp(streams, hostname.as_str(), port, opener, write_tcp)
        },
    }
}

} // verus!
