//! SCPI instruments addressed by VISA-style resource strings such as
//! `TCPIP0::192.168.1.10::inst0::INSTR`.
use vstd::prelude::*;
use crate::text::{
    chars_of, find_chars, find_from, lemma_find_from_first, lemma_lookup_skip, lookup, occurs_at, push_str,
    str_eq, string_of,
};

verus! {

/// Errors of instrument I/O.
#[derive(Debug)]
pub enum InstrumentError {
    ConnectionFailed(String),
    WriteFailed(String),
    QueryFailed(String),
    Timeout(String),
    Closed,
}

/// The port that every resource string resolves to.
pub const DEFAULT_SCPI_PORT: u16 = 5025;

/// The `::` field separator of resource strings.
pub open spec fn field_separator() -> Seq<char> {
    seq![':', ':']
}

/// The address used when a resource string has no second field.
pub open spec fn fallback_address() -> Seq<char> {
    seq!['1', '2', '7', '.', '0', '.', '0', '.', '1']
}

/// The second `::`-separated field of `s` (the host of a `TCPIP0::host::...`
/// resource), or the loopback address when `s` has no `::`.
pub open spec fn resource_host(s: Seq<char>) -> Seq<char> {
    match find_from(s, field_separator(), 0) {
        None => fallback_address(),
        Some(i) => match find_from(s, field_separator(), i + 2) {
            Some(j) => s.subrange(i + 2, j),
            None => s.subrange(i + 2, s.len() as int),
        },
    }
}

/// `s` holds no `:`.
pub open spec fn colon_free(s: Seq<char>) -> bool {
    forall|i: int| 0 <= i < s.len() ==> s[i] != ':'
}

/// For a resource `a::host::rest` whose first field and host hold no `:`,
/// the address is the host.
pub proof fn lemma_resource_host(a: Seq<char>, host: Seq<char>, rest: Seq<char>)
    requires
        colon_free(a),
        colon_free(host),
    ensures
        resource_host(a + field_separator() + host + field_separator() + rest) == host,
{
    let sep = field_separator();
    let s = a + sep + host + sep + rest;
    let i = a.len() as int;
    let j = i + 2 + host.len();
    assert(s.subrange(i, i + 2) =~= sep);
    assert forall|k: int| 0 <= k < i implies !occurs_at(s, sep, k) by {
        assert(s[k] == a[k]);
        if occurs_at(s, sep, k) {
            assert(s.subrange(k, k + 2)[0] == s[k]);
        }
    }
    lemma_find_from_first(s, sep, 0, i);
    assert(s.subrange(j, j + 2) =~= sep);
    assert forall|k: int| i + 2 <= k < j implies !occurs_at(s, sep, k) by {
        assert(s[k] == host[k - i - 2]);
        if occurs_at(s, sep, k) {
            assert(s.subrange(k, k + 2)[0] == s[k]);
        }
    }
    lemma_find_from_first(s, sep, i + 2, j);
    assert(s.subrange(i + 2, j) =~= host);
}

/// Splits a resource string into host address and port: the address is its
/// second `::` field, the port is always 5025.
pub fn parse_resource(resource: &str) -> (r: (String, u16))
    ensures
        r.0@ == resource_host(resource@),
        r.1 == DEFAULT_SCPI_PORT,
{
    let v = chars_of(resource);
    let vl = v.len();
    let sep = vec![':', ':'];
    assert(sep@ =~= field_separator());
    match find_chars(&v, &sep, 0) {
        None => {
            let mut a = String::new();
            crate::text::push_str(&mut a, "127.0.0.1");
            proof {
                reveal_strlit("127.0.0.1");
                assert(a@ =~= fallback_address());
            }
            (a, DEFAULT_SCPI_PORT)
        },
        Some(i) => {
            proof {
                crate::text::lemma_find_from_bounds(v@, sep@, 0);
            }
            let start = i + 2;
            match find_chars(&v, &sep, start) {
                Some(j) => {
                    proof {
                        crate::text::lemma_find_from_bounds(v@, sep@, start as int);
                    }
                    (string_of(&v, start, j), DEFAULT_SCPI_PORT)
                },
                None => (string_of(&v, start, vl), DEFAULT_SCPI_PORT),
            }
        },
    }
}

/// Operations every SCPI instrument offers besides its I/O.
pub trait SCPIInstrument {
    /// The resource string the instrument was created from.
    fn resource(&self) -> &str;

    /// The instrument kind (such as `keysight_34460a`).
    fn kind(&self) -> &str;
}

/// An SCPI instrument reached over a raw TCP socket.
pub struct TcpInstrument {
    resource: String,
    kind: String,
    addr: String,
    port: u16,
    timeout_ms: u64,
    connected: bool,
}

impl TcpInstrument {
    pub closed spec fn spec_resource(&self) -> Seq<char> {
        self.resource@
    }

    pub closed spec fn spec_kind(&self) -> Seq<char> {
        self.kind@
    }

    pub closed spec fn spec_addr(&self) -> Seq<char> {
        self.addr@
    }

    pub closed spec fn spec_port(&self) -> u16 {
        self.port
    }

    pub closed spec fn spec_timeout_ms(&self) -> u64 {
        self.timeout_ms
    }

    pub closed spec fn spec_connected(&self) -> bool {
        self.connected
    }

    /// A disconnected instrument for `resource`, its address and port taken
    /// from the resource string.
    pub fn new(resource: &str, kind: &str, timeout_ms: u64) -> (t: Self)
        ensures
            t.spec_resource() == resource@,
            t.spec_kind() == kind@,
            t.spec_addr() == resource_host(resource@),
            t.spec_port() == DEFAULT_SCPI_PORT,
            t.spec_timeout_ms() == timeout_ms,
            !t.spec_connected(),
    {
        let (addr, port) = parse_resource(resource);
        TcpInstrument {
            resource: resource.to_owned(),
            kind: kind.to_owned(),
            addr,
            port,
            timeout_ms,
            connected: false,
        }
    }

    /// The host address to connect to.
    pub fn addr(&self) -> (r: &str)
        ensures
            r@ == self.spec_addr(),
    {
        self.addr.as_str()
    }

    /// The TCP port to connect to.
    pub fn port(&self) -> (r: u16)
        ensures
            r == self.spec_port(),
    {
        self.port
    }

    /// The I/O timeout in milliseconds.
    pub fn timeout_ms(&self) -> (r: u64)
        ensures
            r == self.spec_timeout_ms(),
    {
        self.timeout_ms
    }

    /// Whether a connection is open.
    pub fn is_connected(&self) -> (r: bool)
        ensures
            r == self.spec_connected(),
    {
        self.connected
    }

    /// Records that a connection was opened or closed; nothing else changes.
    pub fn set_connected(&mut self, connected: bool)
        ensures
            final(self).spec_connected() == connected,
            final(self).spec_resource() == old(self).spec_resource(),
            final(self).spec_kind() == old(self).spec_kind(),
            final(self).spec_addr() == old(self).spec_addr(),
            final(self).spec_port() == old(self).spec_port(),
            final(self).spec_timeout_ms() == old(self).spec_timeout_ms(),
    {
        self.connected = connected;
    }
}

impl SCPIInstrument for TcpInstrument {
    fn resource(&self) -> (r: &str)
        ensures
            r@ == self.spec_resource(),
    {
        self.resource.as_str()
    }

    fn kind(&self) -> (r: &str)
        ensures
            r@ == self.spec_kind(),
    {
        self.kind.as_str()
    }
}

/// Creates the instrument for a resource string; every kind is reached over
/// TCP.
pub fn create_instrument(kind: &str, resource: &str, timeout_ms: u64) -> (t: TcpInstrument)
    ensures
        t.spec_resource() == resource@,
        t.spec_kind() == kind@,
        t.spec_addr() == resource_host(resource@),
        t.spec_port() == DEFAULT_SCPI_PORT,
        t.spec_timeout_ms() == timeout_ms,
        !t.spec_connected(),
{
    TcpInstrument::new(resource, kind, timeout_ms)
}

/// What a campaign says of one instrument.
pub struct InstrumentConfig {
    pub kind: String,
    pub resource: String,
    /// The I/O timeout in milliseconds, when the campaign gives one.
    pub timeout_ms: Option<u64>,
}

/// The I/O timeout of an instrument whose configuration gives none.
pub const DEFAULT_TIMEOUT_MS: u64 = 5000;

/// Instrument configurations by name.
pub open spec fn config_entries(v: Seq<(String, InstrumentConfig)>) -> Seq<(Seq<char>, InstrumentConfig)> {
    v.map_values(|p: (String, InstrumentConfig)| (p.0@, p.1))
}

/// The message of a step naming an instrument the campaign does not define.
pub open spec fn undefined_instrument_message(name: Seq<char>) -> Seq<char> {
    "instrument '"@ + name + "' not defined in campaign"@
}

/// The instrument a step names, created disconnected from the campaign's
/// configuration of it (the first one under that name), with a timeout of
/// 5000 ms when the configuration gives none.
pub fn instrument_for_step(instruments: &Vec<(String, InstrumentConfig)>, name: &str) -> (r: Result<
    TcpInstrument,
    String,
>)
    ensures
        match lookup(config_entries(instruments@), name@) {
            Some(c) => r matches Ok(t) && {
                &&& t.spec_resource() == c.resource@
                &&& t.spec_kind() == c.kind@
                &&& t.spec_addr() == resource_host(c.resource@)
                &&& t.spec_port() == DEFAULT_SCPI_PORT
                &&& t.spec_timeout_ms() == match c.timeout_ms {
                    Some(ms) => ms,
                    None => DEFAULT_TIMEOUT_MS,
                }
                &&& !t.spec_connected()
            },
            None => r matches Err(m) && m@ == undefined_instrument_message(name@),
        },
{
    let ghost entries = config_entries(instruments@);
    assert(entries.subrange(0, entries.len() as int) =~= entries);
    let mut i: usize = 0;
    while i < instruments.len()
        invariant
            i <= instruments@.len(),
            entries == config_entries(instruments@),
            lookup(entries, name@) == lookup(entries.subrange(i as int, entries.len() as int), name@),
        decreases instruments@.len() - i,
    {
        if str_eq(instruments[i].0.as_str(), name) {
            let c = &instruments[i].1;
            let timeout_ms = match c.timeout_ms {
                Some(ms) => ms,
                None => DEFAULT_TIMEOUT_MS,
            };
            return Ok(create_instrument(c.kind.as_str(), c.resource.as_str(), timeout_ms));
        }
        proof {
            lemma_lookup_skip(entries, name@, i as int);
        }
        i = i + 1;
    }
    let mut m = String::new();
    push_str(&mut m, "instrument '");
    push_str(&mut m, name);
    push_str(&mut m, "' not defined in campaign");
    Err(m)
}

} // verus!
