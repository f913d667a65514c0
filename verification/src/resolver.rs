use vstd::prelude::*;
use vstd::string::StrSliceExecFns;

verus! {

/// The spec-level picture of a resolved destination: either a local file
/// path or a remote host plus port.
pub enum Target {
    File { path: Seq<char> },
    Tcp { host: Seq<char>, port: u16 },
}

/// A resolved destination: a local file path, or a remote host and port.
#[derive(Debug, PartialEq, Eq)]
pub enum Destination {
    File { path: String },
    Tcp { host: String, port: u16 },
}

impl View for Destination {
    type V = Target;

    open spec fn view(&self) -> Target {
        match self {
            Destination::File { path } => Target::File { path: path@ },
            Destination::Tcp { host, port } => Target::Tcp { host: host@, port: *port },
        }
    }
}

/// Why a destination string was rejected.
#[derive(Debug, PartialEq, Eq, Structural, Clone, Copy)]
pub enum ResolveError {
    /// A TCP destination held no colon separating host from port.
    MissingPortSeparator,
    /// The part after the last colon of a TCP destination was not a
    /// base-10 unsigned 16-bit integer.
    InvalidPort,
    /// The host part of a TCP destination held a colon without being a
    /// bracketed IPv6 literal.
    InvalidHost,
}

pub open spec fn spec_tcp_prefix() -> Seq<char> {
    seq!['t', 'c', 'p', ':', '/', '/']
}

pub open spec fn spec_file_prefix() -> Seq<char> {
    seq!['f', 'i', 'l', 'e', ':', '/', '/']
}

pub open spec fn starts_with(s: Seq<char>, prefix: Seq<char>) -> bool {
    prefix.len() <= s.len() && s.subrange(0, prefix.len() as int) == prefix
}

pub open spec fn is_digit(c: char) -> bool {
    48 <= c as u32 <= 57
}

pub open spec fn digit_val(c: char) -> int {
    c as u32 - 48
}

/// The base-10 value of a digit string.
pub open spec fn port_val(s: Seq<char>) -> int
    decreases s.len(),
{
    if s.len() == 0 {
        0
    } else {
        port_val(s.drop_last()) * 10 + digit_val(s.last())
    }
}

pub open spec fn all_digits(s: Seq<char>) -> bool {
    forall|i: int| 0 <= i < s.len() ==> is_digit(#[trigger] s[i])
}

/// A port string is a non-empty run of digits whose value fits in 16 bits.
pub open spec fn is_valid_port(s: Seq<char>) -> bool {
    0 < s.len() && all_digits(s) && port_val(s) <= 65535
}

pub open spec fn has_colon(s: Seq<char>) -> bool {
    exists|i: int| 0 <= i < s.len() && s[i] == ':'
}

/// Index of the last colon of `s`, or -1 when there is none.
pub open spec fn last_colon(s: Seq<char>) -> int
    decreases s.len(),
{
    if s.len() == 0 {
        -1
    } else if s.last() == ':' {
        s.len() - 1
    } else {
        last_colon(s.drop_last())
    }
}

/// A bracketed IPv6 literal: one pair of enclosing square brackets.
pub open spec fn spec_is_bracketed(host: Seq<char>) -> bool {
    host.len() >= 2 && host[0] == '[' && host[host.len() - 1] == ']'
}

/// Strips one pair of enclosing square brackets, if both are present.
pub open spec fn spec_strip_brackets(host: Seq<char>) -> Seq<char> {
    if spec_is_bracketed(host) {
        host.subrange(1, host.len() - 1)
    } else {
        host
    }
}

/// A host part is acceptable when its colons, if any, are explained by
/// brackets: an unbracketed host holding a colon is taken for a
/// malformed IPv6 literal and rejected, not guessed at.
pub open spec fn spec_host_ok(host: Seq<char>) -> bool {
    spec_is_bracketed(host) || !has_colon(host)
}

/// The part of a TCP destination after the scheme prefix.
pub open spec fn spec_authority(uri: Seq<char>) -> Seq<char> {
    uri.subrange(spec_tcp_prefix().len() as int, uri.len() as int)
}

/// The part of the authority after its last colon.
pub open spec fn spec_port_part(auth: Seq<char>) -> Seq<char> {
    auth.subrange(last_colon(auth) + 1, auth.len() as int)
}

/// The part of the authority before its last colon.
pub open spec fn spec_host_part(auth: Seq<char>) -> Seq<char> {
    auth.subrange(0, last_colon(auth))
}

/// What a destination string denotes: `None` when it is malformed.
pub open spec fn spec_resolve(uri: Seq<char>) -> Option<Target> {
    if starts_with(uri, spec_tcp_prefix()) {
        let auth = spec_authority(uri);
        if !has_colon(auth) {
            None
        } else if !is_valid_port(spec_port_part(auth)) {
            None
        } else if !spec_host_ok(spec_host_part(auth)) {
            None
        } else {
            Some(
                Target::Tcp {
                    host: spec_strip_brackets(spec_host_part(auth)),
                    port: port_val(spec_port_part(auth)) as u16,
                },
            )
        }
    } else if starts_with(uri, spec_file_prefix()) {
        Some(Target::File { path: uri.subrange(spec_file_prefix().len() as int, uri.len() as int) })
    } else {
        Some(Target::File { path: uri })
    }
}

/// The rejection a malformed destination string gets: only a TCP
/// destination can be malformed, for want of a colon, for a bad port, or
/// for a host whose colons no brackets explain.
pub open spec fn spec_resolve_reason(uri: Seq<char>) -> ResolveError {
    if !has_colon(spec_authority(uri)) {
        ResolveError::MissingPortSeparator
    } else if !is_valid_port(spec_port_part(spec_authority(uri))) {
        ResolveError::InvalidPort
    } else {
        ResolveError::InvalidHost
    }
}

fn str_has_prefix(s: &str, prefix: &str) -> (b: bool)
    ensures
        b == starts_with(s@, prefix@),
{
    let n = prefix.unicode_len();
    if n > s.unicode_len() {
        return false;
    }
    let mut i: usize = 0;
    while i < n
        invariant
            i <= n,
            n == prefix@.len(),
            n <= s@.len(),
            forall|j: int| 0 <= j < i ==> s@[j] == prefix@[j],
        decreases n - i,
    {
        if s.get_char(i) != prefix.get_char(i) {
            proof {
                assert(s@.subrange(0, n as int)[i as int] != prefix@[i as int]);
            }
            return false;
        }
        i += 1;
    }
    proof {
        assert(s@.subrange(0, n as int) =~= prefix@);
    }
    true
}

proof fn lemma_last_colon_at(s: Seq<char>, i: int)
    requires
        0 <= i < s.len(),
        s[i] == ':',
        forall|j: int| i < j < s.len() ==> s[j] != ':',
    ensures
        last_colon(s) == i,
    decreases s.len(),
{
    if i == s.len() - 1 {
    } else {
        assert(s.last() != ':');
        assert(s.drop_last()[i] == ':');
        lemma_last_colon_at(s.drop_last(), i);
    }
}

proof fn lemma_no_colon(s: Seq<char>)
    requires
        forall|j: int| 0 <= j < s.len() ==> s[j] != ':',
    ensures
        last_colon(s) == -1,
        !has_colon(s),
    decreases s.len(),
{
    if s.len() > 0 {
        lemma_no_colon(s.drop_last());
    }
}

/// Finds the index of the last colon of `s`, scanning from the right.
fn rfind_colon(s: &str) -> (r: Option<usize>)
    ensures
        match r {
            Some(i) => has_colon(s@) && i == last_colon(s@) && i < s@.len() && s@[i as int]
                == ':',
            None => !has_colon(s@) && last_colon(s@) == -1,
        },
{
    let n = s.unicode_len();
    let mut i: usize = n;
    while i > 0
        invariant
            i <= n,
            n == s@.len(),
            forall|j: int| i <= j < n ==> s@[j] != ':',
        decreases i,
    {
        i -= 1;
        if s.get_char(i) == ':' {
            proof {
                lemma_last_colon_at(s@, i as int);
            }
            return Some(i);
        }
    }
    proof {
        lemma_no_colon(s@);
    }
    None
}

proof fn lemma_port_val_nonneg(s: Seq<char>)
    requires
        all_digits(s),
    ensures
        port_val(s) >= 0,
    decreases s.len(),
{
    if s.len() > 0 {
        assert(all_digits(s.drop_last()));
        lemma_port_val_nonneg(s.drop_last());
    }
}

/// Extending a digit string never shrinks its value.
proof fn lemma_port_val_prefix(s: Seq<char>, i: int)
    requires
        0 <= i <= s.len(),
        all_digits(s),
    ensures
        port_val(s) >= port_val(s.subrange(0, i)),
    decreases s.len() - i,
{
    if i < s.len() {
        let t = s.subrange(0, i + 1);
        assert(t.drop_last() =~= s.subrange(0, i));
        assert(all_digits(s.subrange(0, i)));
        lemma_port_val_nonneg(s.subrange(0, i));
        assert(port_val(t) == port_val(s.subrange(0, i)) * 10 + digit_val(s[i]));
        lemma_port_val_prefix(s, i + 1);
    } else {
        assert(s.subrange(0, i) =~= s);
    }
}

/// Parses a base-10 unsigned 16-bit integer, the whole string or nothing.
fn parse_port(s: &str) -> (r: Option<u16>)
    ensures
        match r {
            Some(p) => is_valid_port(s@) && p == port_val(s@),
            None => !is_valid_port(s@),
        },
{
    let n = s.unicode_len();
    if n == 0 {
        return None;
    }
    let mut i: usize = 0;
    let mut v: u32 = 0;
    while i < n
        invariant
            i <= n,
            n == s@.len(),
            all_digits(s@.subrange(0, i as int)),
            v == port_val(s@.subrange(0, i as int)),
            v <= 65535,
        decreases n - i,
    {
        let c = s.get_char(i);
        let u = c as u32;
        if u < 48 || u > 57 {
            assert(!is_digit(s@[i as int]));
            return None;
        }
        let w = v * 10 + (u - 48);
        proof {
            let pre = s@.subrange(0, i as int);
            let ext = s@.subrange(0, i + 1);
            assert(ext.drop_last() =~= pre);
            assert(ext.last() == s@[i as int]);
            assert(forall|j: int| 0 <= j < ext.len() ==> is_digit(#[trigger] ext[j]));
            assert(w == port_val(ext));
        }
        if w > 65535 {
            proof {
                if is_valid_port(s@) {
                    lemma_port_val_prefix(s@, i + 1);
                }
            }
            return None;
        }
        v = w;
        i += 1;
    }
    proof {
        assert(s@.subrange(0, n as int) =~= s@);
    }
    Some(v as u16)
}

/// Whether the host is enclosed in one pair of square brackets.
fn is_bracketed(host: &str) -> (b: bool)
    ensures
        b == spec_is_bracketed(host@),
{
    let n = host.unicode_len();
    n >= 2 && host.get_char(0) == '[' && host.get_char(n - 1) == ']'
}

/// Strips one pair of enclosing square brackets, recovering an IPv6
/// literal from its bracketed form; anything else is returned unchanged.
fn strip_brackets<'a>(host: &'a str) -> (r: &'a str)
    ensures
        r@ == spec_strip_brackets(host@),
{
    let n = host.unicode_len();
    if is_bracketed(host) {
        host.substring_char(1, n - 1)
    } else {
        host
    }
}

/// Classifies a destination string and extracts its normalized key.
///
/// A string with the TCP scheme prefix is split on its last colon into a
/// host part (square brackets around an IPv6 literal are stripped; an
/// unbracketed host holding a colon is rejected) and a base-10 unsigned
/// 16-bit port. Any other string is a file path, with a leading file
/// scheme prefix stripped. Resolution is pure: no part of it touches the
/// outside world.
pub fn resolve(uri: &str) -> (r: Result<Destination, ResolveError>)
    ensures
        r is Ok <==> spec_resolve(uri@) is Some,
        r matches Ok(d) ==> spec_resolve(uri@) == Some(d@),
        r == Err::<Destination, _>(ResolveError::MissingPortSeparator) <==> starts_with(
            uri@,
            spec_tcp_prefix(),
        ) && !has_colon(spec_authority(uri@)),
        r == Err::<Destination, _>(ResolveError::InvalidPort) <==> starts_with(
            uri@,
            spec_tcp_prefix(),
        ) && has_colon(spec_authority(uri@)) && !is_valid_port(
            spec_port_part(spec_authority(uri@)),
        ),
        r == Err::<Destination, _>(ResolveError::InvalidHost) <==> starts_with(
            uri@,
            spec_tcp_prefix(),
        ) && has_colon(spec_authority(uri@)) && is_valid_port(
            spec_port_part(spec_authority(uri@)),
        ) && !spec_host_ok(spec_host_part(spec_authority(uri@))),
        r is Err ==> r == Err::<Destination, _>(spec_resolve_reason(uri@)),
{
    proof {
        reveal_strlit("tcp://");
        reveal_strlit("file://");
        assert("tcp://"@ =~= spec_tcp_prefix());
        assert("file://"@ =~= spec_file_prefix());
    }
    let n = uri.unicode_len();
    if str_has_prefix(uri, "tcp://") {
        let auth = uri.substring_char(6, n);
        proof {
            assert(auth@ =~= spec_authority(uri@));
        }
        match rfind_colon(auth) {
            None => Err(ResolveError::MissingPortSeparator),
            Some(ci) => {
                let an = auth.unicode_len();
                let port_str = auth.substring_char(ci + 1, an);
                proof {
                    assert(port_str@ =~= spec_port_part(auth@));
                }
                match parse_port(port_str) {
                    None => Err(ResolveError::InvalidPort),
                    Some(port) => {
                        let host_raw = auth.substring_char(0, ci);
                        proof {
                            assert(host_raw@ =~= spec_host_part(auth@));
                        }
                        if !is_bracketed(host_raw) && rfind_colon(host_raw).is_some() {
                            return Err(ResolveError::InvalidHost);
                        }
                        let host = strip_brackets(host_raw);
                        Ok(Destination::Tcp { host: host.to_owned(), port })
                    },
                }
            },
        }
    } else if str_has_prefix(uri, "file://") {
        let path = uri.substring_char(7, n);
        Ok(Destination::File { path: path.to_owned() })
    } else {
        Ok(Destination::File { path: uri.to_owned() })
    }
}

/// Scheme stripping: a plain path, and the same path behind the file
/// scheme prefix, resolve to the identical file key — so both share one
/// cache entry. Holds for every path that carries neither scheme prefix
/// itself.
pub proof fn lemma_file_scheme_stripping(path: Seq<char>)
    requires
        !starts_with(path, spec_tcp_prefix()),
        !starts_with(path, spec_file_prefix()),
    ensures
        spec_resolve(path) == Some(Target::File { path }),
        spec_resolve(spec_file_prefix() + path) == spec_resolve(path),
{
    let u = spec_file_prefix() + path;
    assert(u.subrange(0, spec_file_prefix().len() as int) =~= spec_file_prefix());
    assert(u[0] == 'f');
    if starts_with(u, spec_tcp_prefix()) {
        assert(u.subrange(0, spec_tcp_prefix().len() as int)[0] == 'f');
    }
    assert(u.subrange(spec_file_prefix().len() as int, u.len() as int) =~= path);
}

/// TCP resolution: a destination built from the scheme prefix, any
/// acceptable host, a colon, and any valid port string resolves to that
/// host (brackets stripped) and that port. The split happens at the last
/// colon, so the internal colons of a bracketed IPv6 literal stay inside
/// the host part.
pub proof fn lemma_tcp_resolution(host: Seq<char>, port: Seq<char>)
    requires
        is_valid_port(port),
        spec_host_ok(host),
    ensures
        spec_resolve(spec_tcp_prefix() + host + seq![':'] + port) == Some(
            Target::Tcp { host: spec_strip_brackets(host), port: port_val(port) as u16 },
        ),
{
    let u = spec_tcp_prefix() + host + seq![':'] + port;
    let auth = host + seq![':'] + port;
    assert(u.subrange(0, spec_tcp_prefix().len() as int) =~= spec_tcp_prefix());
    assert(spec_authority(u) =~= auth);
    let ci = host.len() as int;
    assert(auth[ci] == ':');
    assert(has_colon(auth));
    assert forall|j: int| ci < j < auth.len() implies auth[j] != ':' by {
        assert(auth[j] == port[j - ci - 1]);
        assert(is_digit(port[j - ci - 1]));
    }
    lemma_last_colon_at(auth, ci);
    assert(spec_port_part(auth) =~= port);
    assert(spec_host_part(auth) =~= host);
}

} // verus!


