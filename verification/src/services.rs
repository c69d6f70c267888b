//! A small built-in table of well-known service-name → port mappings.
//!
//! Covers the protocols a network scanner would routinely run against —
//! `ssh`, `http`, `https`, and the like — without the weight of the full
//! IANA registry. Names are matched case-insensitively.
use vstd::prelude::*;
use vstd::string::StrSliceExecFns;

use crate::text::chars_of;

verus! {

/// One row of the embedded service table.
#[derive(Debug, Clone, Copy, PartialEq, Eq)]
pub struct Service {
    /// The canonical lower-case service name.
    pub name: &'static str,
    /// The TCP/UDP port the service is assigned to.
    pub port: u16,
}

/// The number of services in the embedded table.
pub const SERVICES_COUNT: usize = 50;

/// Row `i` of the embedded service table, which is sorted by name.
pub open spec fn table_row(i: int) -> (Seq<char>, u16) {
    if i == 0 {
        ("amqp"@, 5672u16)
    } else if i == 1 {
        ("bgp"@, 179u16)
    } else if i == 2 {
        ("cassandra"@, 9042u16)
    } else if i == 3 {
        ("couchdb"@, 5984u16)
    } else if i == 4 {
        ("dhcp-client"@, 68u16)
    } else if i == 5 {
        ("dhcp-server"@, 67u16)
    } else if i == 6 {
        ("dns"@, 53u16)
    } else if i == 7 {
        ("elasticsearch"@, 9200u16)
    } else if i == 8 {
        ("etcd"@, 2379u16)
    } else if i == 9 {
        ("ftp"@, 21u16)
    } else if i == 10 {
        ("ftp-data"@, 20u16)
    } else if i == 11 {
        ("git"@, 9418u16)
    } else if i == 12 {
        ("grpc"@, 50051u16)
    } else if i == 13 {
        ("http"@, 80u16)
    } else if i == 14 {
        ("https"@, 443u16)
    } else if i == 15 {
        ("imap"@, 143u16)
    } else if i == 16 {
        ("imaps"@, 993u16)
    } else if i == 17 {
        ("ipp"@, 631u16)
    } else if i == 18 {
        ("irc"@, 6667u16)
    } else if i == 19 {
        ("kafka"@, 9092u16)
    } else if i == 20 {
        ("ldap"@, 389u16)
    } else if i == 21 {
        ("ldaps"@, 636u16)
    } else if i == 22 {
        ("memcached"@, 11211u16)
    } else if i == 23 {
        ("mongodb"@, 27017u16)
    } else if i == 24 {
        ("mqtt"@, 1883u16)
    } else if i == 25 {
        ("mssql"@, 1433u16)
    } else if i == 26 {
        ("mysql"@, 3306u16)
    } else if i == 27 {
        ("nats"@, 4222u16)
    } else if i == 28 {
        ("netbios-ns"@, 137u16)
    } else if i == 29 {
        ("netbios-ssn"@, 139u16)
    } else if i == 30 {
        ("ntp"@, 123u16)
    } else if i == 31 {
        ("pop3"@, 110u16)
    } else if i == 32 {
        ("pop3s"@, 995u16)
    } else if i == 33 {
        ("postgres"@, 5432u16)
    } else if i == 34 {
        ("prometheus"@, 9090u16)
    } else if i == 35 {
        ("rdp"@, 3389u16)
    } else if i == 36 {
        ("redis"@, 6379u16)
    } else if i == 37 {
        ("smb"@, 445u16)
    } else if i == 38 {
        ("smtp"@, 25u16)
    } else if i == 39 {
        ("smtps"@, 465u16)
    } else if i == 40 {
        ("snmp"@, 161u16)
    } else if i == 41 {
        ("ssh"@, 22u16)
    } else if i == 42 {
        ("submission"@, 587u16)
    } else if i == 43 {
        ("syslog"@, 514u16)
    } else if i == 44 {
        ("telnet"@, 23u16)
    } else if i == 45 {
        ("tftp"@, 69u16)
    } else if i == 46 {
        ("vnc"@, 5900u16)
    } else if i == 47 {
        ("winrm"@, 5985u16)
    } else if i == 48 {
        ("winrm-https"@, 5986u16)
    } else if i == 49 {
        ("zookeeper"@, 2181u16)
    } else {
        (Seq::empty(), 0u16)
    }
}

/// Row `i` of the embedded service table.
pub fn service_at(i: usize) -> (r: Service)
    requires
        i < SERVICES_COUNT,
    ensures
        r.name@ == table_row(i as int).0,
        r.port == table_row(i as int).1,
{
    match i {
        0 => Service { name: "amqp", port: 5672 },
        1 => Service { name: "bgp", port: 179 },
        2 => Service { name: "cassandra", port: 9042 },
        3 => Service { name: "couchdb", port: 5984 },
        4 => Service { name: "dhcp-client", port: 68 },
        5 => Service { name: "dhcp-server", port: 67 },
        6 => Service { name: "dns", port: 53 },
        7 => Service { name: "elasticsearch", port: 9200 },
        8 => Service { name: "etcd", port: 2379 },
        9 => Service { name: "ftp", port: 21 },
        10 => Service { name: "ftp-data", port: 20 },
        11 => Service { name: "git", port: 9418 },
        12 => Service { name: "grpc", port: 50051 },
        13 => Service { name: "http", port: 80 },
        14 => Service { name: "https", port: 443 },
        15 => Service { name: "imap", port: 143 },
        16 => Service { name: "imaps", port: 993 },
        17 => Service { name: "ipp", port: 631 },
        18 => Service { name: "irc", port: 6667 },
        19 => Service { name: "kafka", port: 9092 },
        20 => Service { name: "ldap", port: 389 },
        21 => Service { name: "ldaps", port: 636 },
        22 => Service { name: "memcached", port: 11211 },
        23 => Service { name: "mongodb", port: 27017 },
        24 => Service { name: "mqtt", port: 1883 },
        25 => Service { name: "mssql", port: 1433 },
        26 => Service { name: "mysql", port: 3306 },
        27 => Service { name: "nats", port: 4222 },
        28 => Service { name: "netbios-ns", port: 137 },
        29 => Service { name: "netbios-ssn", port: 139 },
        30 => Service { name: "ntp", port: 123 },
        31 => Service { name: "pop3", port: 110 },
        32 => Service { name: "pop3s", port: 995 },
        33 => Service { name: "postgres", port: 5432 },
        34 => Service { name: "prometheus", port: 9090 },
        35 => Service { name: "rdp", port: 3389 },
        36 => Service { name: "redis", port: 6379 },
        37 => Service { name: "smb", port: 445 },
        38 => Service { name: "smtp", port: 25 },
        39 => Service { name: "smtps", port: 465 },
        40 => Service { name: "snmp", port: 161 },
        41 => Service { name: "ssh", port: 22 },
        42 => Service { name: "submission", port: 587 },
        43 => Service { name: "syslog", port: 514 },
        44 => Service { name: "telnet", port: 23 },
        45 => Service { name: "tftp", port: 69 },
        46 => Service { name: "vnc", port: 5900 },
        47 => Service { name: "winrm", port: 5985 },
        48 => Service { name: "winrm-https", port: 5986 },
        49 => Service { name: "zookeeper", port: 2181 },
        _ => Service { name: "zookeeper", port: 2181 },
    }
}

/// The embedded service table, sorted by `name`.
pub fn services() -> (v: Vec<Service>)
    ensures
        v@.len() == SERVICES_COUNT,
        forall|i: int|
            0 <= i < SERVICES_COUNT ==> (#[trigger] v@[i]).name@ == table_row(i).0 && v@[i].port
                == table_row(i).1,
{
    let mut v: Vec<Service> = Vec::new();
    let mut i: usize = 0;
    while i < SERVICES_COUNT
        invariant
            i <= SERVICES_COUNT,
            v@.len() == i,
            forall|j: int|
                0 <= j < i ==> (#[trigger] v@[j]).name@ == table_row(j).0 && v@[j].port
                    == table_row(j).1,
        decreases SERVICES_COUNT - i,
    {
        v.push(service_at(i));
        i = i + 1;
    }
    v
}

/// The code point of `c` with ASCII upper-case letters taken to lower case.
pub open spec fn ascii_lower(c: char) -> int {
    if 65 <= (c as u32) <= 90 {
        (c as u32) + 32
    } else {
        c as u32 as int
    }
}

/// `a` equals `b` when ASCII letters are compared without regard to case.
pub open spec fn eq_ignore_case(a: Seq<char>, b: Seq<char>) -> bool {
    &&& a.len() == b.len()
    &&& forall|i: int| 0 <= i < a.len() ==> ascii_lower(#[trigger] a[i]) == ascii_lower(b[i])
}

/// The port of the first row from `i` on whose name matches `name`.
pub open spec fn port_from(name: Seq<char>, i: int) -> Option<u16>
    decreases SERVICES_COUNT - i,
{
    if i < 0 || i >= SERVICES_COUNT {
        None
    } else if eq_ignore_case(name, table_row(i).0) {
        Some(table_row(i).1)
    } else {
        port_from(name, i + 1)
    }
}

/// The name of the first row from `i` on with port `port`.
pub open spec fn name_from(port: u16, i: int) -> Option<Seq<char>>
    decreases SERVICES_COUNT - i,
{
    if i < 0 || i >= SERVICES_COUNT {
        None
    } else if table_row(i).1 == port {
        Some(table_row(i).0)
    } else {
        name_from(port, i + 1)
    }
}

/// The names of every row from `i` on with port `port`, in table order.
pub open spec fn names_from(port: u16, i: int) -> Seq<Seq<char>>
    decreases SERVICES_COUNT - i,
{
    if i < 0 || i >= SERVICES_COUNT {
        Seq::empty()
    } else if table_row(i).1 == port {
        seq![table_row(i).0] + names_from(port, i + 1)
    } else {
        names_from(port, i + 1)
    }
}

fn lower(c: char) -> (r: u32)
    ensures
        r == ascii_lower(c),
{
    let u = c as u32;
    if 65 <= u && u <= 90 {
        u + 32
    } else {
        u
    }
}

/// Whether `a` and `b` are equal ignoring ASCII case.
fn eq_ignore_case_exec(a: &[char], b: &str) -> (r: bool)
    ensures
        r == eq_ignore_case(a@, b@),
{
    let n = b.unicode_len();
    if a.len() != n {
        return false;
    }
    let mut i: usize = 0;
    while i < n
        invariant
            i <= n,
            n == a@.len(),
            n == b@.len(),
            forall|j: int| 0 <= j < i ==> ascii_lower(#[trigger] a@[j]) == ascii_lower(b@[j]),
        decreases n - i,
    {
        if lower(a[i]) != lower(b.get_char(i)) {
            return false;
        }
        i = i + 1;
    }
    true
}

/// Look up the port for a service by name. Match is case-insensitive.
pub fn port_for(name: &str) -> (r: Option<u16>)
    ensures
        r == port_from(name@, 0),
{
    let cs = chars_of(name);
    port_for_chars(cs.as_slice())
}

/// Looks up the port for a service name given as characters.
pub fn port_for_chars(cs: &[char]) -> (r: Option<u16>)
    ensures
        r == port_from(cs@, 0),
{
    let mut i: usize = 0;
    while i < SERVICES_COUNT
        invariant
            i <= SERVICES_COUNT,
            port_from(cs@, 0) == port_from(cs@, i as int),
        decreases SERVICES_COUNT - i,
    {
        let s = service_at(i);
        if eq_ignore_case_exec(cs, s.name) {
            return Some(s.port);
        }
        i = i + 1;
    }
    None
}

/// Look up the service name for a port, or `None` if the port isn't in the
/// built-in table.
///
/// When several services share a port, returns the first match in
/// alphabetical order (the table's sort order).
pub fn service_for(port: u16) -> (r: Option<&'static str>)
    ensures
        r is Some <==> name_from(port, 0) is Some,
        r matches Some(n) ==> n@ == name_from(port, 0)->Some_0,
{
    let mut i: usize = 0;
    while i < SERVICES_COUNT
        invariant
            i <= SERVICES_COUNT,
            name_from(port, 0) == name_from(port, i as int),
        decreases SERVICES_COUNT - i,
    {
        let s = service_at(i);
        if s.port == port {
            return Some(s.name);
        }
        i = i + 1;
    }
    None
}

/// Every name registered to `port` in the built-in table, in table order.
/// Yields nothing when the port has no matching service.
pub fn services_for(port: u16) -> (r: Vec<&'static str>)
    ensures
        r@.len() == names_from(port, 0).len(),
        forall|i: int| 0 <= i < r@.len() ==> (#[trigger] r@[i])@ == names_from(port, 0)[i],
{
    let mut out: Vec<&'static str> = Vec::new();
    let mut i: usize = SERVICES_COUNT;
    let ghost mut acc: Seq<Seq<char>> = Seq::empty();
    while i > 0
        invariant
            i <= SERVICES_COUNT,
            acc == names_from(port, i as int),
            out@.len() == acc.len(),
            forall|j: int| 0 <= j < out@.len() ==> (#[trigger] out@[j])@ == acc[j],
        decreases i,
    {
        let s = service_at(i - 1);
        if s.port == port {
            out.insert(0, s.name);
            proof {
                acc = seq![s.name@] + acc;
            }
        }
        i = i - 1;
    }
    out
}

} // verus!
