//! Well-known service names for common ports.

use vstd::prelude::*;

verus! {

/// Ports and the services that usually listen on them, in increasing port order.
pub const SERVICES: [(u16, &'static str); 43] = [
    (22, "ssh"),
    (25, "smtp"),
    (53, "dns"),
    (80, "http"),
    (110, "pop3"),
    (123, "ntp"),
    (143, "imap"),
    (389, "ldap"),
    (443, "https"),
    (465, "smtps"),
    (587, "submission"),
    (636, "ldaps"),
    (993, "imaps"),
    (995, "pop3s"),
    (1025, "dev-smtp"),
    (1433, "mssql"),
    (1521, "oracle"),
    (1883, "mqtt"),
    (2375, "docker-reg"),
    (2376, "docker-regs"),
    (3000, "node-dev"),
    (3001, "node-dev-alt"),
    (3306, "mysql"),
    (4317, "otlp-grpc"),
    (4318, "otlp-http"),
    (5000, "flask"),
    (5432, "postgres"),
    (5555, "dev-alt"),
    (5601, "kibana"),
    (5672, "amqp"),
    (6379, "redis"),
    (6443, "k8s-api"),
    (8080, "http-alt"),
    (8081, "http-alt2"),
    (8123, "clickhouse"),
    (8443, "https-alt"),
    (8888, "jupyter"),
    (9090, "prometheus"),
    (9092, "kafka"),
    (9200, "elasticsearch"),
    (11211, "memcached"),
    (15672, "rabbit-mgmt"),
    (27017, "mongodb"),
];

/// The table is strictly increasing by port, so each port appears at most once.
pub proof fn lemma_table_sorted_unique()
    ensures
        forall|i: int, j: int| 0 <= i < j < SERVICES@.len() ==> SERVICES@[i].0 < SERVICES@[j].0,
{
    assert(SERVICES@[0].0 == 22);
    assert(SERVICES@[42].0 == 27017);
}

/// The service usually found on `port`, or `-` for a port not in the table.
pub open spec fn service_name(port: u16) -> Seq<char> {
    if exists|i: int| 0 <= i < SERVICES@.len() && SERVICES@[i].0 == port {
        let i = choose|i: int| 0 <= i < SERVICES@.len() && SERVICES@[i].0 == port;
        SERVICES@[i].1@
    } else {
        "-"@
    }
}

/// The name of the service usually found on `port`, or `-`. Looked up by binary search.
pub fn name(port: u16) -> (r: &'static str)
    ensures
        r@ == service_name(port),
{
    proof {
        lemma_table_sorted_unique();
    }
    let table = SERVICES;
    let mut lo: usize = 0;
    let mut hi: usize = table.len();
    while lo < hi
        invariant
            table@ == SERVICES@,
            lo <= hi <= SERVICES@.len(),
            forall|i: int| 0 <= i < lo ==> SERVICES@[i].0 < port,
            forall|i: int| hi <= i < SERVICES@.len() ==> SERVICES@[i].0 > port,
            forall|i: int, j: int| 0 <= i < j < SERVICES@.len() ==> SERVICES@[i].0 < SERVICES@[j].0,
        decreases hi - lo,
    {
        let mid = lo + (hi - lo) / 2;
        let (p, n) = table[mid];
        if p == port {
            let ghost k = choose|i: int| 0 <= i < SERVICES@.len() && SERVICES@[i].0 == port;
            assert(k == mid as int);
            return n;
        } else if p < port {
            lo = mid + 1;
        } else {
            hi = mid;
        }
    }
    "-"
}

/// No service name holds an escape character, so names never colour the output.
pub proof fn lemma_names_plain(port: u16)
    ensures
        forall|i: int| 0 <= i < service_name(port).len() ==> service_name(port)[i] != '\x1b',
{
    reveal_strlit("-");
    reveal_strlit("ssh");
    reveal_strlit("smtp");
    reveal_strlit("dns");
    reveal_strlit("http");
    reveal_strlit("pop3");
    reveal_strlit("ntp");
    reveal_strlit("imap");
    reveal_strlit("ldap");
    reveal_strlit("https");
    reveal_strlit("smtps");
    reveal_strlit("submission");
    reveal_strlit("ldaps");
    reveal_strlit("imaps");
    reveal_strlit("pop3s");
    reveal_strlit("dev-smtp");
    reveal_strlit("mssql");
    reveal_strlit("oracle");
    reveal_strlit("mqtt");
    reveal_strlit("docker-reg");
    reveal_strlit("docker-regs");
    reveal_strlit("node-dev");
    reveal_strlit("node-dev-alt");
    reveal_strlit("mysql");
    reveal_strlit("otlp-grpc");
    reveal_strlit("otlp-http");
    reveal_strlit("flask");
    reveal_strlit("postgres");
    reveal_strlit("dev-alt");
    reveal_strlit("kibana");
    reveal_strlit("amqp");
    reveal_strlit("redis");
    reveal_strlit("k8s-api");
    reveal_strlit("http-alt");
    reveal_strlit("http-alt2");
    reveal_strlit("clickhouse");
    reveal_strlit("https-alt");
    reveal_strlit("jupyter");
    reveal_strlit("prometheus");
    reveal_strlit("kafka");
    reveal_strlit("elasticsearch");
    reveal_strlit("memcached");
    reveal_strlit("rabbit-mgmt");
    reveal_strlit("mongodb");
}

/// The ports of the table, in its order.
pub open spec fn table_ports() -> Seq<u16> {
    SERVICES@.map_values(|e: (u16, &'static str)| e.0)
}

/// The ports that have a name.
pub open spec fn named_ports() -> Set<u16> {
    Set::new(|p: u16| service_name(p) != "-"@)
}

/// A port has a name exactly when it is in the table, so the named ports are
/// the table's ports, as many as the table has entries.
pub proof fn lemma_named_ports_are_the_table()
    ensures
        forall|p: u16|
            service_name(p) != "-"@ <==> exists|i: int|
                0 <= i < SERVICES@.len() && SERVICES@[i].0 == p,
        named_ports() == table_ports().to_set(),
        named_ports().len() == SERVICES@.len(),
{
    reveal_strlit("-");
    reveal_strlit("ssh");
    reveal_strlit("smtp");
    reveal_strlit("dns");
    reveal_strlit("http");
    reveal_strlit("pop3");
    reveal_strlit("ntp");
    reveal_strlit("imap");
    reveal_strlit("ldap");
    reveal_strlit("https");
    reveal_strlit("smtps");
    reveal_strlit("submission");
    reveal_strlit("ldaps");
    reveal_strlit("imaps");
    reveal_strlit("pop3s");
    reveal_strlit("dev-smtp");
    reveal_strlit("mssql");
    reveal_strlit("oracle");
    reveal_strlit("mqtt");
    reveal_strlit("docker-reg");
    reveal_strlit("docker-regs");
    reveal_strlit("node-dev");
    reveal_strlit("node-dev-alt");
    reveal_strlit("mysql");
    reveal_strlit("otlp-grpc");
    reveal_strlit("otlp-http");
    reveal_strlit("flask");
    reveal_strlit("postgres");
    reveal_strlit("dev-alt");
    reveal_strlit("kibana");
    reveal_strlit("amqp");
    reveal_strlit("redis");
    reveal_strlit("k8s-api");
    reveal_strlit("http-alt");
    reveal_strlit("http-alt2");
    reveal_strlit("clickhouse");
    reveal_strlit("https-alt");
    reveal_strlit("jupyter");
    reveal_strlit("prometheus");
    reveal_strlit("kafka");
    reveal_strlit("elasticsearch");
    reveal_strlit("memcached");
    reveal_strlit("rabbit-mgmt");
    reveal_strlit("mongodb");
    lemma_table_sorted_unique();
    assert forall|i: int| 0 <= i < SERVICES@.len() implies SERVICES@[i].1@ != "-"@ by {
        assert(SERVICES@[i].1@.len() != 1 || SERVICES@[i].1@[0] != '-');
    }
    assert forall|p: u16|
        service_name(p) != "-"@ <==> exists|i: int|
            0 <= i < SERVICES@.len() && SERVICES@[i].0 == p by {
        if exists|i: int| 0 <= i < SERVICES@.len() && SERVICES@[i].0 == p {
            let i = choose|i: int| 0 <= i < SERVICES@.len() && SERVICES@[i].0 == p;
            assert(service_name(p) == SERVICES@[i].1@);
        }
    }
    let ks = table_ports();
    assert forall|p: u16| named_ports().contains(p) <==> ks.to_set().contains(p) by {
        if named_ports().contains(p) {
            let i = choose|i: int| 0 <= i < SERVICES@.len() && SERVICES@[i].0 == p;
            assert(ks[i] == p);
        }
        if ks.to_set().contains(p) {
            let i = choose|i: int| 0 <= i < ks.len() && ks[i] == p;
            assert(SERVICES@[i].0 == p);
        }
    }
    assert(named_ports() =~= ks.to_set());
    assert(ks.no_duplicates()) by {
        assert forall|i: int, j: int| 0 <= i < ks.len() && 0 <= j < ks.len() && i != j implies ks[i]
            != ks[j] by {
            if i < j {
                assert(SERVICES@[i].0 < SERVICES@[j].0);
            } else {
                assert(SERVICES@[j].0 < SERVICES@[i].0);
            }
        }
    }
    ks.unique_seq_to_set();
}

} // verus!
