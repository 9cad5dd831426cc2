//! Capability-based primal discovery: the registry of live primals by
//! domain, and the rules by which transport hints from the environment,
//! `metadata.toml` files and socket files merge into it. Reading the
//! environment and the filesystem is the caller's part; what was read
//! comes in as plain values.

use vstd::prelude::*;
use vstd::string::*;

use crate::collections::StrMap;
use crate::ipc::primal_names::{domain_table, socket_identity, socket_identity_of};
pub use crate::ipc::transport::TransportEndpoint;
use crate::ipc::transport::{is_tcp, tcp_addr_parts};
use crate::text::{int_decimal, parse_unsigned};

verus! {

/// A discovered primal endpoint (UDS and/or TCP).
#[derive(Debug, Clone)]
pub struct PrimalEndpoint {
    /// The domain this primal serves (e.g. "game", "ai", "dag").
    pub domain: String,
    /// Primal name (e.g. "rhizocrypt", "squirrel").
    pub name: String,
    /// Filesystem path to the Unix socket (if found).
    pub socket_path: Option<String>,
    /// TCP address (host:port) if known.
    pub tcp_addr: Option<String>,
    /// Capabilities advertised by this primal.
    pub capabilities: Vec<String>,
    /// Whether the primal responded to a health check.
    pub healthy: bool,
}

/// The mathematical content of an endpoint.
pub struct EndpointModel {
    pub domain: Seq<char>,
    pub name: Seq<char>,
    pub socket_path: Option<Seq<char>>,
    pub tcp_addr: Option<Seq<char>>,
    pub capabilities: Seq<Seq<char>>,
    pub healthy: bool,
}

/// The view of an optional string.
pub open spec fn opt_view(o: Option<String>) -> Option<Seq<char>> {
    match o {
        Some(s) => Some(s@),
        None => None,
    }
}

impl PrimalEndpoint {
    /// The mathematical content of this endpoint.
    pub open spec fn model(self) -> EndpointModel {
        EndpointModel {
            domain: self.domain@,
            name: self.name@,
            socket_path: opt_view(self.socket_path),
            tcp_addr: opt_view(self.tcp_addr),
            capabilities: self.capabilities@.map_values(|c: String| c@),
            healthy: self.healthy,
        }
    }

    /// The best transport for this primal: its Unix socket if it has one,
    /// else its TCP address where that reads as `host:port`, else none.
    pub fn resolve_transport(&self) -> (r: Option<TransportEndpoint>)
        ensures
            match self.socket_path {
                Some(p) => r matches Some(TransportEndpoint::Uds { path }) && path@ == p@,
                None => match self.tcp_addr {
                    Some(a) => match tcp_addr_parts(a@) {
                        Some((h, port)) => r is Some && is_tcp(r->0, h, port),
                        None => r is None,
                    },
                    None => r is None,
                },
            },
    {
        if let Some(path) = &self.socket_path {
            return Some(TransportEndpoint::uds(path.as_str()));
        }
        if let Some(addr) = &self.tcp_addr {
            return TransportEndpoint::from_tcp_addr(addr.as_str());
        }
        None
    }

    /// Every transport this primal offers: its Unix socket, then its TCP
    /// address where that reads as `host:port`.
    pub fn available_transports(&self) -> (r: Vec<TransportEndpoint>)
        ensures
            ({
                let uds: Seq<TransportEndpoint> = match self.socket_path {
                    Some(p) => seq![TransportEndpoint::Uds { path: p }],
                    None => Seq::empty(),
                };
                let tcp_len: int = match self.tcp_addr {
                    Some(a) => if tcp_addr_parts(a@) is Some { 1 } else { 0 },
                    None => 0,
                };
                &&& r@.len() == uds.len() + tcp_len
                &&& match self.socket_path {
                    Some(p) => r@[0] matches TransportEndpoint::Uds { path } && path@ == p@,
                    None => true,
                }
                &&& match self.tcp_addr {
                    Some(a) => match tcp_addr_parts(a@) {
                        Some((h, port)) => is_tcp(r@[r@.len() - 1], h, port),
                        None => true,
                    },
                    None => true,
                }
            }),
    {
        let mut transports: Vec<TransportEndpoint> = Vec::new();
        if let Some(path) = &self.socket_path {
            transports.push(TransportEndpoint::uds(path.as_str()));
        }
        if let Some(addr) = &self.tcp_addr {
            if let Some(ep) = TransportEndpoint::from_tcp_addr(addr.as_str()) {
                transports.push(ep);
            }
        }
        transports
    }
}

/// A copy of an endpoint.
fn copy_endpoint(e: &PrimalEndpoint) -> (r: PrimalEndpoint)
    ensures
        r.model() == e.model(),
{
    let mut caps: Vec<String> = Vec::new();
    let mut i: usize = 0;
    while i < e.capabilities.len()
        invariant
            i <= e.capabilities@.len(),
            caps@.map_values(|c: String| c@) == e.capabilities@.subrange(0, i as int).map_values(|c: String| c@),
        decreases e.capabilities@.len() - i,
    {
        let ghost before = caps@;
        let c = e.capabilities[i].clone();
        caps.push(c);
        proof {
            assert(caps@ == before.push(c));
            assert(c@ == e.capabilities@[i as int]@);
            assert(before.map_values(|c: String| c@) == e.capabilities@.subrange(0, i as int).map_values(|c: String| c@));
            assert(caps@.map_values(|c: String| c@) =~= before.map_values(|c: String| c@).push(c@));
            assert(e.capabilities@.subrange(0, i + 1) == e.capabilities@.subrange(0, i as int).push(e.capabilities@[i as int]));
            assert(caps@.map_values(|c: String| c@) =~= e.capabilities@.subrange(0, i + 1).map_values(|c: String| c@));
        }
        i = i + 1;
    }
    proof {
        assert(e.capabilities@.subrange(0, e.capabilities@.len() as int) =~= e.capabilities@);
    }
    PrimalEndpoint {
        domain: e.domain.clone(),
        name: e.name.clone(),
        socket_path: match &e.socket_path {
            Some(p) => Some(p.clone()),
            None => None,
        },
        tcp_addr: match &e.tcp_addr {
            Some(a) => Some(a.clone()),
            None => None,
        },
        capabilities: caps,
        healthy: e.healthy,
    }
}

/// A newly found endpoint: no transport, no capabilities, not yet healthy.
pub open spec fn fresh_endpoint(domain: Seq<char>, name: Seq<char>) -> EndpointModel {
    EndpointModel { domain, name, socket_path: None, tcp_addr: None, capabilities: Seq::empty(), healthy: false }
}

/// The endpoint recorded for `domain`, or a new one for `name` there.
pub open spec fn endpoint_or_new(m: Map<Seq<char>, EndpointModel>, domain: Seq<char>, name: Seq<char>) -> EndpointModel {
    if m.contains_key(domain) {
        m[domain]
    } else {
        fresh_endpoint(domain, name)
    }
}

/// A registry is consistent when every endpoint is filed under its own
/// domain and every capability names a domain that has an endpoint.
pub open spec fn registry_consistent(eps: Map<Seq<char>, EndpointModel>, idx: Map<Seq<char>, Seq<char>>) -> bool {
    &&& forall|k: Seq<char>| #[trigger] eps.contains_key(k) ==> eps[k].domain == k
    &&& forall|c: Seq<char>| #[trigger] idx.contains_key(c) ==> eps.contains_key(idx[c])
}

/// In a consistent registry the endpoint taken or made for a domain is an
/// endpoint of that domain.
proof fn lemma_endpoint_or_new_domain(eps: Map<Seq<char>, EndpointModel>, idx: Map<Seq<char>, Seq<char>>, d: Seq<char>, n: Seq<char>)
    requires
        registry_consistent(eps, idx),
    ensures
        endpoint_or_new(eps, d, n).domain == d,
{
}

/// Filing under `d` an endpoint of domain `d` keeps a registry consistent.
proof fn lemma_insert_own_domain(eps: Map<Seq<char>, EndpointModel>, idx: Map<Seq<char>, Seq<char>>, d: Seq<char>, e: EndpointModel)
    requires
        registry_consistent(eps, idx),
        e.domain == d,
    ensures
        registry_consistent(eps.insert(d, e), idx),
{
    let m = eps.insert(d, e);
    assert forall|c: Seq<char>| #[trigger] idx.contains_key(c) implies m.contains_key(idx[c]) by {
        assert(eps.contains_key(idx[c]));
    }
}

/// Recording addresses from the environment keeps a registry consistent.
proof fn lemma_env_merged_consistent(
    m: Map<Seq<char>, EndpointModel>,
    idx: Map<Seq<char>, Seq<char>>,
    rows: Seq<(Seq<char>, Seq<char>)>,
    addrs: Seq<Option<Seq<char>>>,
)
    requires
        registry_consistent(m, idx),
    ensures
        registry_consistent(env_merged(m, rows, addrs), idx),
    decreases addrs.len(),
{
    if addrs.len() > 0 {
        lemma_env_merged_consistent(m, idx, rows, addrs.drop_last());
        let m0 = env_merged(m, rows, addrs.drop_last());
        let k = addrs.len() - 1;
        match addrs.last() {
            Some(a) => {
                lemma_endpoint_or_new_domain(m0, idx, rows[k].0, rows[k].1);
                lemma_insert_own_domain(
                    m0,
                    idx,
                    rows[k].0,
                    EndpointModel { tcp_addr: Some(a), ..endpoint_or_new(m0, rows[k].0, rows[k].1) },
                );
            },
            None => {},
        }
    }
}

/// Indexing methods to a domain that has an endpoint keeps a registry
/// consistent.
proof fn lemma_index_with_consistent(eps: Map<Seq<char>, EndpointModel>, idx: Map<Seq<char>, Seq<char>>, ms: Seq<Seq<char>>, d: Seq<char>)
    requires
        registry_consistent(eps, idx),
        eps.contains_key(d),
    ensures
        registry_consistent(eps, index_with(idx, ms, d)),
{
    let i2 = index_with(idx, ms, d);
    assert forall|c: Seq<char>| #[trigger] i2.contains_key(c) implies eps.contains_key(i2[c]) by {
        if idx.contains_key(c) {
            assert(eps.contains_key(idx[c]));
        }
    }
}

/// Registry of discovered primals, keyed by domain.
#[derive(Debug)]
pub struct PrimalRegistry {
    /// Endpoints indexed by domain.
    pub by_domain: StrMap<PrimalEndpoint>,
    /// Capability to domain mapping.
    pub capability_index: StrMap<String>,
}

/// What a sequence with one more entry contains: what it held, and the
/// new entry.
proof fn lemma_push_contains(pre: Seq<Seq<char>>, x: Seq<char>)
    ensures
        forall|k: Seq<char>| #[trigger] pre.push(x).contains(k) <==> pre.contains(k) || k == x,
{
    assert forall|k: Seq<char>| #[trigger] pre.push(x).contains(k) implies pre.contains(k) || k == x by {
        let w = choose|w: int| 0 <= w < pre.push(x).len() && pre.push(x)[w] == k;
        if w < pre.len() {
            assert(pre[w] == k);
        }
    }
    assert forall|k: Seq<char>| pre.contains(k) implies #[trigger] pre.push(x).contains(k) by {
        let w = choose|w: int| 0 <= w < pre.len() && pre[w] == k;
        assert(pre.push(x)[w] == k);
    }
    assert(pre.push(x)[pre.len() as int] == x);
}

impl PrimalRegistry {
    /// The endpoints by domain.
    pub open spec fn endpoints(self) -> Map<Seq<char>, EndpointModel> {
        self.by_domain.as_map().map_values(|e: PrimalEndpoint| e.model())
    }

    /// The domain serving each capability.
    pub open spec fn index(self) -> Map<Seq<char>, Seq<char>> {
        self.capability_index.as_map().map_values(|d: String| d@)
    }

    /// Every endpoint is filed under its own domain, and every capability
    /// names a domain that has an endpoint.
    pub open spec fn consistent(self) -> bool {
        registry_consistent(self.endpoints(), self.index())
    }

    /// An empty registry.
    pub fn new() -> (r: PrimalRegistry)
        ensures
            r.endpoints() == Map::<Seq<char>, EndpointModel>::empty(),
            r.index() == Map::<Seq<char>, Seq<char>>::empty(),
            r.consistent(),
    {
        let r = PrimalRegistry { by_domain: StrMap::new(), capability_index: StrMap::new() };
        proof {
            assert(r.endpoints() =~= Map::<Seq<char>, EndpointModel>::empty());
            assert(r.index() =~= Map::<Seq<char>, Seq<char>>::empty());
        }
        r
    }

    /// The endpoint that provides `capability`: the endpoint of the domain
    /// the capability index names for it. In a consistent registry there is
    /// one exactly when the capability is indexed.
    pub fn find_by_capability(&self, capability: &str) -> (r: Option<&PrimalEndpoint>)
        ensures
            match self.index().get(capability@) {
                Some(d) => match self.endpoints().get(d) {
                    Some(e) => r is Some && r->0.model() == e,
                    None => r is None,
                },
                None => r is None,
            },
            self.consistent() ==> (r is Some <==> self.index().contains_key(capability@)),
    {
        match self.capability_index.get(capability) {
            Some(d) => self.by_domain.get(d.as_str()),
            None => None,
        }
    }

    /// The endpoint recorded for `domain`, or a new one for `name`.
    fn endpoint_for(&self, domain: &str, name: &str) -> (r: PrimalEndpoint)
        ensures
            r.model() == endpoint_or_new(self.endpoints(), domain@, name@),
    {
        match self.by_domain.get(domain) {
            Some(e) => copy_endpoint(e),
            None => {
                let r = PrimalEndpoint {
                    domain: String::from_str(domain),
                    name: String::from_str(name),
                    socket_path: None,
                    tcp_addr: None,
                    capabilities: Vec::new(),
                    healthy: false,
                };
                proof {
                    assert(r.model().capabilities =~= Seq::<Seq<char>>::empty());
                }
                r
            },
        }
    }

    /// Stores `e` under `domain`.
    fn store(&mut self, domain: &str, e: PrimalEndpoint)
        ensures
            final(self).endpoints() == old(self).endpoints().insert(domain@, e.model()),
            final(self).index() == old(self).index(),
    {
        let ghost m = e.model();
        self.by_domain.insert(String::from_str(domain), e);
        proof {
            assert(self.endpoints() =~= old(self).endpoints().insert(domain@, m));
        }
    }

    /// Records a TCP address for the primal `name` of `domain`, creating
    /// its endpoint if the domain has none.
    pub fn set_tcp_addr(&mut self, domain: &str, name: &str, addr: String)
        ensures
            final(self).endpoints() == old(self).endpoints().insert(
                domain@,
                EndpointModel { tcp_addr: Some(addr@), ..endpoint_or_new(old(self).endpoints(), domain@, name@) },
            ),
            final(self).index() == old(self).index(),
            old(self).consistent() ==> final(self).consistent(),
    {
        let ghost a = addr@;
        let mut e = self.endpoint_for(domain, name);
        e.tcp_addr = Some(addr);
        self.store(domain, e);
        proof {
            if old(self).consistent() {
                let (eps, idx) = (old(self).endpoints(), old(self).index());
                lemma_endpoint_or_new_domain(eps, idx, domain@, name@);
                lemma_insert_own_domain(eps, idx, domain@, EndpointModel { tcp_addr: Some(a), ..endpoint_or_new(eps, domain@, name@) });
            }
        }
    }

    /// Records the Unix socket at `path` whose file stem is `stem`: the stem
    /// names a domain, or a primal mapped back to its domain, or else
    /// stands for both.
    pub fn probe_socket(&mut self, stem: &str, path: String)
        ensures
            ({
                let (d, n) = socket_identity_of(stem@);
                final(self).endpoints() == old(self).endpoints().insert(
                    d,
                    EndpointModel { socket_path: Some(path@), ..endpoint_or_new(old(self).endpoints(), d, n) },
                )
            }),
            final(self).index() == old(self).index(),
            old(self).consistent() ==> final(self).consistent(),
    {
        let ghost p = path@;
        let (d, n) = socket_identity(stem);
        let mut e = self.endpoint_for(d.as_str(), n.as_str());
        e.socket_path = Some(path);
        self.store(d.as_str(), e);
        proof {
            if old(self).consistent() {
                let (eps, idx) = (old(self).endpoints(), old(self).index());
                lemma_endpoint_or_new_domain(eps, idx, d@, n@);
                lemma_insert_own_domain(eps, idx, d@, EndpointModel { socket_path: Some(p), ..endpoint_or_new(eps, d@, n@) });
            }
        }
    }

    /// Records the TCP addresses read for the known primals, one per row
    /// of the domain table (`None` where nothing was set), in table order.
    pub fn merge_env_addresses(&mut self, addrs: &Vec<Option<String>>)
        requires
            addrs@.len() == domain_table().len(),
        ensures
            final(self).endpoints() == env_merged(old(self).endpoints(), domain_table(), addrs@.map_values(|a: Option<String>| opt_view(a))),
            final(self).index() == old(self).index(),
            old(self).consistent() ==> final(self).consistent(),
    {
        let t = crate::ipc::primal_names::domain_table_exec();
        let ghost views = addrs@.map_values(|a: Option<String>| opt_view(a));
        let ghost start = self.endpoints();
        let mut i: usize = 0;
        while i < addrs.len()
            invariant
                i <= addrs@.len(),
                addrs@.len() == domain_table().len(),
                t@.len() == domain_table().len(),
                forall|k: int| 0 <= k < t@.len() ==> (#[trigger] t@[k]).0@ == domain_table()[k].0 && t@[k].1@ == domain_table()[k].1,
                views == addrs@.map_values(|a: Option<String>| opt_view(a)),
                self.endpoints() == env_merged(start, domain_table(), views.subrange(0, i as int)),
                self.index() == old(self).index(),
            decreases addrs@.len() - i,
        {
            proof {
                assert(views.subrange(0, i + 1).drop_last() =~= views.subrange(0, i as int));
                assert(t@[i as int].0@ == domain_table()[i as int].0);
            }
            match &addrs[i] {
                Some(a) => {
                    self.set_tcp_addr(t[i].0, t[i].1, a.clone());
                },
                None => {},
            }
            i = i + 1;
        }
        proof {
            assert(views.subrange(0, views.len() as int) =~= views);
            if old(self).consistent() {
                lemma_env_merged_consistent(start, old(self).index(), domain_table(), views);
            }
        }
    }

    /// Merges what a primal's `metadata.toml` says: its name, its domain,
    /// its methods (the entries that are strings), and a TCP address or a
    /// port on `host`. Nothing changes unless both the name and the domain
    /// are given and non-empty. An address or capability list already
    /// recorded is kept; each method not yet indexed is indexed to the
    /// domain.
    pub fn ingest_fields(
        &mut self,
        name: Option<&str>,
        domain: Option<&str>,
        methods: Option<Vec<Option<String>>>,
        tcp_address: Option<&str>,
        port: Option<i64>,
        host: &str,
    )
        ensures
            ({
                let n = str_or_empty(name);
                let d = str_or_empty(domain);
                let ms = match methods {
                    Some(v) => present(v@.map_values(|a: Option<String>| opt_view(a))),
                    None => Seq::empty(),
                };
                if n.len() == 0 || d.len() == 0 {
                    final(self).endpoints() == old(self).endpoints() && final(self).index() == old(self).index()
                } else {
                    &&& final(self).endpoints() == old(self).endpoints().insert(
                        d,
                        ingested_endpoint(endpoint_or_new(old(self).endpoints(), d, n), ms, metadata_tcp(tcp_address, port, host@)),
                    )
                    &&& final(self).index() == index_with(old(self).index(), ms, d)
                }
            }),
            old(self).consistent() ==> final(self).consistent(),
    {
        let n = match name {
            Some(x) => x,
            None => "",
        };
        let d = match domain {
            Some(x) => x,
            None => "",
        };
        proof {
            reveal_strlit("");
        }
        if n.unicode_len() == 0 || d.unicode_len() == 0 {
            return;
        }
        let ms = present_strings(methods);
        let tcp: Option<String> = match tcp_address {
            Some(a) => Some(String::from_str(a)),
            None => match port {
                Some(p) => {
                    let digits = crate::text::i64_to_string(p);
                    Some(crate::text::concat3(host, ":", digits.as_str()))
                },
                None => None,
            },
        };
        proof {
            reveal_strlit(":");
        }
        let mut e = self.endpoint_for(d, n);
        if e.tcp_addr.is_none() {
            e.tcp_addr = tcp;
        }
        if e.capabilities.len() == 0 {
            let copied = copy_strings(&ms);
            e.capabilities = copied;
        }
        self.store(d, e);
        let ghost idx0 = self.index();
        let mut j: usize = 0;
        while j < ms.len()
            invariant
                j <= ms@.len(),
                self.index() == index_with(idx0, ms@.subrange(0, j as int).map_values(|m: String| m@), d@),
                self.endpoints() == old(self).endpoints().insert(
                    d@,
                    ingested_endpoint(
                        endpoint_or_new(old(self).endpoints(), d@, n@),
                        ms@.map_values(|m: String| m@),
                        metadata_tcp(tcp_address, port, host@),
                    ),
                ),
            decreases ms@.len() - j,
        {
            let ghost pre = ms@.subrange(0, j as int).map_values(|m: String| m@);
            let ghost post = ms@.subrange(0, j + 1).map_values(|m: String| m@);
            proof {
                assert(post =~= pre.push(ms@[j as int]@));
                lemma_push_contains(pre, ms@[j as int]@);
            }
            if !self.capability_index.contains_key(ms[j].as_str()) {
                let ghost idx_pre = self.index();
                let key = ms[j].clone();
                let val = String::from_str(d);
                self.capability_index.insert(key, val);
                proof {
                    assert(self.index() =~= idx_pre.insert(ms@[j as int]@, d@));
                    assert(!idx_pre.contains_key(ms@[j as int]@));
                    assert(self.index() =~= index_with(idx0, post, d@)) by {
                        assert(post[j as int] == ms@[j as int]@);
                    }
                }
            } else {
                proof {
                    assert(self.index() =~= index_with(idx0, post, d@));
                }
            }
            j = j + 1;
        }
        proof {
            assert(ms@.subrange(0, ms@.len() as int) =~= ms@);
            assert(idx0 == old(self).index());
            if old(self).consistent() {
                let (eps, idx) = (old(self).endpoints(), old(self).index());
                let e0 = endpoint_or_new(eps, d@, n@);
                let ems = ms@.map_values(|m: String| m@);
                lemma_endpoint_or_new_domain(eps, idx, d@, n@);
                lemma_insert_own_domain(eps, idx, d@, ingested_endpoint(e0, ems, metadata_tcp(tcp_address, port, host@)));
                lemma_index_with_consistent(self.endpoints(), idx, ems, d@);
            }
        }
    }

    /// Merges a primal's `metadata.toml` text: the `[primal]` name, the
    /// `[capabilities]` domain and methods, and the `[transport]`
    /// `tcp_address` or `port` (on `host`), as read by the TOML parser.
    pub fn ingest_metadata(&mut self, contents: &str, host: &str)
        ensures
            ({
                let n = opt_or_empty(toml_string_at(contents@, "primal"@, "name"@));
                let d = opt_or_empty(toml_string_at(contents@, "capabilities"@, "domain"@));
                let ms = match toml_string_list_at(contents@, "capabilities"@, "methods"@) {
                    Some(v) => present(v),
                    None => Seq::empty(),
                };
                let tcp = match toml_string_at(contents@, "transport"@, "tcp_address"@) {
                    Some(a) => Some(a),
                    None => match toml_integer_at(contents@, "transport"@, "port"@) {
                        Some(p) => Some(host@ + ":"@ + int_decimal(p as int)),
                        None => None,
                    },
                };
                if n.len() == 0 || d.len() == 0 {
                    final(self).endpoints() == old(self).endpoints() && final(self).index() == old(self).index()
                } else {
                    &&& final(self).endpoints() == old(self).endpoints().insert(
                        d,
                        ingested_endpoint(endpoint_or_new(old(self).endpoints(), d, n), ms, tcp),
                    )
                    &&& final(self).index() == index_with(old(self).index(), ms, d)
                }
            }),
            old(self).consistent() ==> final(self).consistent(),
    {
        let name = toml_string(contents, "primal", "name");
        let domain = toml_string(contents, "capabilities", "domain");
        let methods = toml_string_list(contents, "capabilities", "methods");
        let tcp = toml_string(contents, "transport", "tcp_address");
        let port = toml_integer(contents, "transport", "port");
        let name_ref: Option<&str> = match &name {
            Some(x) => Some(x.as_str()),
            None => None,
        };
        let domain_ref: Option<&str> = match &domain {
            Some(x) => Some(x.as_str()),
            None => None,
        };
        let tcp_ref: Option<&str> = match &tcp {
            Some(x) => Some(x.as_str()),
            None => None,
        };
        self.ingest_fields(name_ref, domain_ref, methods, tcp_ref, port, host);
    }
}

impl Default for PrimalRegistry {
    fn default() -> (r: PrimalRegistry)
        ensures
            r.endpoints() == Map::<Seq<char>, EndpointModel>::empty(),
            r.index() == Map::<Seq<char>, Seq<char>>::empty(),
            r.consistent(),
    {
        PrimalRegistry::new()
    }
}

/// The text of an optional string slice, or the empty text.
pub open spec fn str_or_empty(s: Option<&str>) -> Seq<char> {
    match s {
        Some(x) => x@,
        None => Seq::empty(),
    }
}

/// An optional text, or the empty text.
pub open spec fn opt_or_empty(s: Option<Seq<char>>) -> Seq<char> {
    match s {
        Some(x) => x,
        None => Seq::empty(),
    }
}

/// The entries that are present, in order.
pub open spec fn present(s: Seq<Option<Seq<char>>>) -> Seq<Seq<char>>
    decreases s.len(),
{
    if s.len() == 0 {
        Seq::empty()
    } else {
        match s.last() {
            Some(x) => present(s.drop_last()).push(x),
            None => present(s.drop_last()),
        }
    }
}

/// The capability index after indexing `methods` to `domain`, keeping
/// every capability already indexed.
pub open spec fn index_with(idx: Map<Seq<char>, Seq<char>>, methods: Seq<Seq<char>>, domain: Seq<char>) -> Map<Seq<char>, Seq<char>> {
    Map::new(
        |k: Seq<char>| idx.contains_key(k) || methods.contains(k),
        |k: Seq<char>| if idx.contains_key(k) { idx[k] } else { domain },
    )
}

/// The TCP address a metadata file gives: its address, else its port on
/// `host`.
pub open spec fn metadata_tcp(tcp_address: Option<&str>, port: Option<i64>, host: Seq<char>) -> Option<Seq<char>> {
    match tcp_address {
        Some(a) => Some(a@),
        None => match port {
            Some(p) => Some(host + ":"@ + int_decimal(p as int)),
            None => None,
        },
    }
}

/// An endpoint after merging metadata: an address or a capability list it
/// already has is kept.
pub open spec fn ingested_endpoint(e: EndpointModel, methods: Seq<Seq<char>>, tcp: Option<Seq<char>>) -> EndpointModel {
    EndpointModel {
        tcp_addr: if e.tcp_addr is None { tcp } else { e.tcp_addr },
        capabilities: if e.capabilities.len() == 0 { methods } else { e.capabilities },
        ..e
    }
}

/// The endpoints after recording the addresses `addrs`, one per row of
/// `rows` (domain, primal), in order.
pub open spec fn env_merged(
    m: Map<Seq<char>, EndpointModel>,
    rows: Seq<(Seq<char>, Seq<char>)>,
    addrs: Seq<Option<Seq<char>>>,
) -> Map<Seq<char>, EndpointModel>
    decreases addrs.len(),
{
    if addrs.len() == 0 {
        m
    } else {
        let m0 = env_merged(m, rows, addrs.drop_last());
        let k = addrs.len() - 1;
        match addrs.last() {
            Some(a) => m0.insert(rows[k].0, EndpointModel { tcp_addr: Some(a), ..endpoint_or_new(m0, rows[k].0, rows[k].1) }),
            None => m0,
        }
    }
}

/// The present strings, as owned strings, in order.
fn present_strings(methods: Option<Vec<Option<String>>>) -> (r: Vec<String>)
    ensures
        r@.map_values(|m: String| m@) == match methods {
            Some(v) => present(v@.map_values(|a: Option<String>| opt_view(a))),
            None => Seq::empty(),
        },
{
    let mut out: Vec<String> = Vec::new();
    match methods {
        Some(v) => {
            let ghost vs = v@.map_values(|a: Option<String>| opt_view(a));
            let mut i: usize = 0;
            while i < v.len()
                invariant
                    i <= v@.len(),
                    vs == v@.map_values(|a: Option<String>| opt_view(a)),
                    out@.map_values(|m: String| m@) == present(vs.subrange(0, i as int)),
                decreases v@.len() - i,
            {
                proof {
                    assert(vs.subrange(0, i + 1).drop_last() =~= vs.subrange(0, i as int));
                }
                match &v[i] {
                    Some(m) => {
                        let ghost before = out@;
                        let c = m.clone();
                        out.push(c);
                        proof {
                            assert(out@ == before.push(c));
                            assert(out@.map_values(|m: String| m@) =~= before.map_values(|m: String| m@).push(c@));
                        }
                    },
                    None => {},
                }
                i = i + 1;
            }
            proof {
                assert(vs.subrange(0, vs.len() as int) =~= vs);
            }
        },
        None => {
            proof {
                assert(out@.map_values(|m: String| m@) =~= Seq::<Seq<char>>::empty());
            }
        },
    }
    out
}

/// A copy of a list of strings.
fn copy_strings(v: &Vec<String>) -> (r: Vec<String>)
    ensures
        r@.map_values(|m: String| m@) == v@.map_values(|m: String| m@),
{
    let mut out: Vec<String> = Vec::new();
    let mut i: usize = 0;
    while i < v.len()
        invariant
            i <= v@.len(),
            out@.map_values(|m: String| m@) == v@.subrange(0, i as int).map_values(|m: String| m@),
        decreases v@.len() - i,
    {
        let ghost before = out@;
        let c = v[i].clone();
        out.push(c);
        proof {
            assert(out@ == before.push(c));
            assert(v@.subrange(0, i + 1) == v@.subrange(0, i as int).push(v@[i as int]));
            assert(out@.map_values(|m: String| m@) =~= before.map_values(|m: String| m@).push(c@));
            assert(v@.subrange(0, i + 1).map_values(|m: String| m@) =~= v@.subrange(0, i as int).map_values(|m: String| m@).push(c@));
        }
        i = i + 1;
    }
    proof {
        assert(v@.subrange(0, v@.len() as int) =~= v@);
    }
    out
}

/// The string that the TOML text `contents` holds under `key` in the table
/// `section`, as the TOML parser reads it: none where the text does not
/// parse, the section is not a table, or the value is not a string.
pub uninterp spec fn toml_string_at(contents: Seq<char>, section: Seq<char>, key: Seq<char>) -> Option<Seq<char>>;

/// The array under `key` in the table `section` of the TOML text
/// `contents`, each entry the string it holds or none where it is not a
/// string, as the TOML parser reads it.
pub uninterp spec fn toml_string_list_at(contents: Seq<char>, section: Seq<char>, key: Seq<char>) -> Option<Seq<Option<Seq<char>>>>;

/// The integer under `key` in the table `section` of the TOML text
/// `contents`, as the TOML parser reads it.
pub uninterp spec fn toml_integer_at(contents: Seq<char>, section: Seq<char>, key: Seq<char>) -> Option<i64>;

/// Parses `contents` with `toml`'s `Table` parser (`str::parse`), then
/// reads `table[section][key]` with `Table::get`, `Value::as_table` and
/// `Value::as_str`. The contract names the result and claims only that it
/// is a function of the three texts.
#[verifier::external_body]
fn toml_string(contents: &str, section: &str, key: &str) -> (r: Option<String>)
    ensures
        opt_view(r) == toml_string_at(contents@, section@, key@),
{
    contents.parse::<toml::Table>().ok()?.get(section)?.as_table()?.get(key)?.as_str().map(str::to_owned)
}

/// Parses `contents` with `toml`'s `Table` parser, then reads the array
/// `table[section][key]` with `Value::as_array`, each entry by
/// `Value::as_str`. The contract names the result and claims only that it
/// is a function of the three texts.
#[verifier::external_body]
fn toml_string_list(contents: &str, section: &str, key: &str) -> (r: Option<Vec<Option<String>>>)
    ensures
        match r {
            Some(v) => toml_string_list_at(contents@, section@, key@) == Some(v@.map_values(|a: Option<String>| opt_view(a))),
            None => toml_string_list_at(contents@, section@, key@) is None,
        },
{
    let table = contents.parse::<toml::Table>().ok()?;
    let items = table.get(section)?.as_table()?.get(key)?.as_array()?;
    Some(items.iter().map(|v| v.as_str().map(str::to_owned)).collect())
}

/// Parses `contents` with `toml`'s `Table` parser, then reads
/// `table[section][key]` with `Value::as_integer`. The contract names the
/// result and claims only that it is a function of the three texts.
#[verifier::external_body]
fn toml_integer(contents: &str, section: &str, key: &str) -> (r: Option<i64>)
    ensures
        r == toml_integer_at(contents@, section@, key@),
{
    contents.parse::<toml::Table>().ok()?.get(section)?.as_table()?.get(key)?.as_integer()
}

/// The TCP address a primal's settings give: its address setting, else
/// its port setting on `host`, else its HTTP address setting.
pub open spec fn env_address_of(address: Option<&str>, port: Option<&str>, http_address: Option<&str>, host: Seq<char>) -> Option<Seq<char>> {
    match address {
        Some(a) => Some(a@),
        None => match port {
            Some(p) => Some(host + ":"@ + p@),
            None => match http_address {
                Some(h) => Some(h@),
                None => None,
            },
        },
    }
}

/// The TCP address a primal's settings give: its address setting, else
/// its port setting on `host`, else its HTTP address setting.
pub fn env_address(address: Option<&str>, port: Option<&str>, http_address: Option<&str>, host: &str) -> (r: Option<String>)
    ensures
        opt_view(r) == env_address_of(address, port, http_address, host@),
{
    match address {
        Some(a) => Some(String::from_str(a)),
        None => match port {
            Some(p) => {
                proof {
                    reveal_strlit(":");
                }
                Some(crate::text::concat3(host, ":", p))
            },
            None => match http_address {
                Some(h) => Some(String::from_str(h)),
                None => None,
            },
        },
    }
}

/// `c` in upper case where it is an ASCII lowercase letter.
pub open spec fn ascii_upper_char(c: char) -> char {
    if 'a' <= c && c <= 'z' {
        ((c as u32) - 32) as char
    } else {
        c
    }
}

/// `s` with its ASCII lowercase letters in upper case.
pub open spec fn ascii_upper(s: Seq<char>) -> Seq<char> {
    s.map_values(|c: char| ascii_upper_char(c))
}

/// The upper-case letter of an ASCII lowercase letter `c`, as text.
fn upper_letter(c: char) -> (r: &'static str)
    requires
        'a' <= c <= 'z',
    ensures
        r@ == seq![ascii_upper_char(c)],
{
    if c == 'a' {
        proof {
            reveal_strlit("A");
        }
        "A"
    } else if c == 'b' {
        proof {
            reveal_strlit("B");
        }
        "B"
    } else if c == 'c' {
        proof {
            reveal_strlit("C");
        }
        "C"
    } else if c == 'd' {
        proof {
            reveal_strlit("D");
        }
        "D"
    } else if c == 'e' {
        proof {
            reveal_strlit("E");
        }
        "E"
    } else if c == 'f' {
        proof {
            reveal_strlit("F");
        }
        "F"
    } else if c == 'g' {
        proof {
            reveal_strlit("G");
        }
        "G"
    } else if c == 'h' {
        proof {
            reveal_strlit("H");
        }
        "H"
    } else if c == 'i' {
        proof {
            reveal_strlit("I");
        }
        "I"
    } else if c == 'j' {
        proof {
            reveal_strlit("J");
        }
        "J"
    } else if c == 'k' {
        proof {
            reveal_strlit("K");
        }
        "K"
    } else if c == 'l' {
        proof {
            reveal_strlit("L");
        }
        "L"
    } else if c == 'm' {
        proof {
            reveal_strlit("M");
        }
        "M"
    } else if c == 'n' {
        proof {
            reveal_strlit("N");
        }
        "N"
    } else if c == 'o' {
        proof {
            reveal_strlit("O");
        }
        "O"
    } else if c == 'p' {
        proof {
            reveal_strlit("P");
        }
        "P"
    } else if c == 'q' {
        proof {
            reveal_strlit("Q");
        }
        "Q"
    } else if c == 'r' {
        proof {
            reveal_strlit("R");
        }
        "R"
    } else if c == 's' {
        proof {
            reveal_strlit("S");
        }
        "S"
    } else if c == 't' {
        proof {
            reveal_strlit("T");
        }
        "T"
    } else if c == 'u' {
        proof {
            reveal_strlit("U");
        }
        "U"
    } else if c == 'v' {
        proof {
            reveal_strlit("V");
        }
        "V"
    } else if c == 'w' {
        proof {
            reveal_strlit("W");
        }
        "W"
    } else if c == 'x' {
        proof {
            reveal_strlit("X");
        }
        "X"
    } else if c == 'y' {
        proof {
            reveal_strlit("Y");
        }
        "Y"
    } else if c == 'z' {
        proof {
            reveal_strlit("Z");
        }
        "Z"
    } else {
        proof {
            reveal_strlit("Z");
        }
        "Z"
    }
}

/// `s` with its ASCII lowercase letters in upper case (what
/// `str::to_ascii_uppercase` gives).
fn to_ascii_upper(s: &str) -> (r: String)
    ensures
        r@ == ascii_upper(s@),
{
    let n = s.unicode_len();
    let mut out = String::from_str("");
    proof {
        reveal_strlit("");
    }
    let mut i: usize = 0;
    while i < n
        invariant
            n == s@.len(),
            i <= n,
            out@ == ascii_upper(s@.subrange(0, i as int)),
        decreases n - i,
    {
        let c = s.get_char(i);
        if 'a' <= c && c <= 'z' {
            out.append(upper_letter(c));
        } else {
            out.append(s.substring_char(i, i + 1));
        }
        proof {
            assert(s@.subrange(0, i + 1) =~= s@.subrange(0, i as int).push(c));
            assert(ascii_upper(s@.subrange(0, i + 1)) =~= ascii_upper(s@.subrange(0, i as int)).push(ascii_upper_char(c)));
        }
        i = i + 1;
    }
    proof {
        assert(s@.subrange(0, n as int) =~= s@);
    }
    out
}

/// The name of a primal's setting: the primal's slug in upper case, then
/// the suffix (e.g. `RHIZOCRYPT` and `_ADDRESS`). Slugs are ASCII, so
/// the ASCII upper case is their upper case.
pub fn env_key(name: &str, suffix: &str) -> (r: String)
    ensures
        r@ == ascii_upper(name@) + suffix@,
{
    let mut out = to_ascii_upper(name);
    out.append(suffix);
    out
}

/// The length of the first line of `s`: the characters before the first
/// newline.
pub open spec fn line_len(s: Seq<char>) -> nat
    decreases s.len(),
{
    if s.len() == 0 || s[0] == '\n' {
        0
    } else {
        1 + line_len(s.drop_first())
    }
}

/// The rest of the first line of `s` that begins with `Uid:`, after it.
pub open spec fn uid_field(s: Seq<char>) -> Option<Seq<char>>
    decreases s.len(),
{
    let l = line_len(s);
    if l >= 4 && s.subrange(0, 4) == "Uid:"@ {
        Some(s.subrange(4, l as int))
    } else if l < s.len() {
        uid_field(s.subrange(l + 1int, s.len() as int))
    } else {
        None
    }
}

/// Whether `c` is white space in Unicode's sense (`char::is_whitespace`).
pub open spec fn is_white(c: char) -> bool {
    ||| c == ' '
    ||| ('\t' <= c && c <= '\r')
    ||| c == '\u{85}'
    ||| c == '\u{a0}'
    ||| c == '\u{1680}'
    ||| ('\u{2000}' <= c && c <= '\u{200a}')
    ||| c == '\u{2028}'
    ||| c == '\u{2029}'
    ||| c == '\u{202f}'
    ||| c == '\u{205f}'
    ||| c == '\u{3000}'
}

/// `s` without its leading white space.
pub open spec fn skip_white(s: Seq<char>) -> Seq<char>
    decreases s.len(),
{
    if s.len() > 0 && is_white(s[0]) {
        skip_white(s.drop_first())
    } else {
        s
    }
}

/// The length of the run of non-white characters that begins `s`.
pub open spec fn word_len(s: Seq<char>) -> nat
    decreases s.len(),
{
    if s.len() == 0 || is_white(s[0]) {
        0
    } else {
        1 + word_len(s.drop_first())
    }
}

/// The first white-space-separated word of `s`.
pub open spec fn first_word(s: Seq<char>) -> Option<Seq<char>> {
    let t = skip_white(s);
    if t.len() == 0 {
        None
    } else {
        Some(t.subrange(0, word_len(t) as int))
    }
}

/// The real user ID a process status text gives: the first word after
/// `Uid:` on the first line that begins with it, read as a `u32`.
pub open spec fn uid_of_status(status: Seq<char>) -> Option<nat> {
    match uid_field(status) {
        Some(f) => match first_word(f) {
            Some(w) => parse_unsigned(w, u32::MAX as nat),
            None => None,
        },
        None => None,
    }
}

/// `line_len` where the first newline is known.
proof fn lemma_line_len(t: Seq<char>, k: int)
    requires
        0 <= k <= t.len(),
        forall|j: int| 0 <= j < k ==> t[j] != '\n',
        k == t.len() || t[k] == '\n',
    ensures
        line_len(t) == k,
    decreases k,
{
    if k > 0 {
        lemma_line_len(t.drop_first(), k - 1);
    }
}

/// `skip_white` where the first non-white character is known.
proof fn lemma_skip_white(t: Seq<char>, k: int)
    requires
        0 <= k <= t.len(),
        forall|j: int| 0 <= j < k ==> is_white(t[j]),
        k == t.len() || !is_white(t[k]),
    ensures
        skip_white(t) == t.subrange(k, t.len() as int),
    decreases k,
{
    if k > 0 {
        lemma_skip_white(t.drop_first(), k - 1);
        assert(t.drop_first().subrange(k - 1, t.len() - 1) =~= t.subrange(k, t.len() as int));
    } else {
        assert(t.subrange(0, t.len() as int) =~= t);
    }
}

/// `word_len` where the first white character is known.
proof fn lemma_word_len(t: Seq<char>, k: int)
    requires
        0 <= k <= t.len(),
        forall|j: int| 0 <= j < k ==> !is_white(t[j]),
        k == t.len() || is_white(t[k]),
    ensures
        word_len(t) == k,
    decreases k,
{
    if k > 0 {
        lemma_word_len(t.drop_first(), k - 1);
    }
}

/// Whether `c` is white space (`char::is_whitespace`).
pub fn white_char(c: char) -> (r: bool)
    ensures
        r == is_white(c),
{
    c == ' ' || ('\t' <= c && c <= '\r') || c == '\u{85}' || c == '\u{a0}' || c == '\u{1680}' || ('\u{2000}' <= c && c
        <= '\u{200a}') || c == '\u{2028}' || c == '\u{2029}' || c == '\u{202f}' || c == '\u{205f}' || c == '\u{3000}'
}

/// The first white-space-separated word of `s`.
fn first_word_of(s: &str) -> (r: Option<&str>)
    ensures
        match r {
            Some(w) => first_word(s@) == Some(w@),
            None => first_word(s@) is None,
        },
{
    let n = s.unicode_len();
    let mut a: usize = 0;
    while a < n && white_char(s.get_char(a))
        invariant
            n == s@.len(),
            a <= n,
            forall|j: int| 0 <= j < a ==> is_white(s@[j]),
        decreases n - a,
    {
        a = a + 1;
    }
    proof {
        lemma_skip_white(s@, a as int);
    }
    if a == n {
        return None;
    }
    let mut b: usize = a;
    while b < n && !white_char(s.get_char(b))
        invariant
            n == s@.len(),
            a <= b <= n,
            forall|j: int| a <= j < b ==> !is_white(s@[j]),
        decreases n - b,
    {
        b = b + 1;
    }
    proof {
        let t = s@.subrange(a as int, n as int);
        assert forall|j: int| 0 <= j < b - a implies !is_white(t[j]) by {
            assert(t[j] == s@[a + j]);
        }
        if b < n {
            assert(t[b - a] == s@[b as int]);
        }
        lemma_word_len(t, b - a);
        assert(t.subrange(0, b - a) =~= s@.subrange(a as int, b as int));
    }
    Some(s.substring_char(a, b))
}

/// The real user ID a process status text (`/proc/self/status`) gives:
/// the first word after `Uid:` on the first line that begins with it,
/// read as a `u32`.
pub fn uid_from_status(status: &str) -> (r: Option<u32>)
    ensures
        match r {
            Some(u) => uid_of_status(status@) == Some(u as nat),
            None => uid_of_status(status@) is None,
        },
{
    let n = status.unicode_len();
    let ghost s = status@;
    let mut p: usize = 0;
    proof {
        assert(s.subrange(0, n as int) =~= s);
    }
    loop
        invariant
            n == s.len(),
            s == status@,
            p <= n,
            uid_field(s) == uid_field(s.subrange(p as int, n as int)),
        decreases n - p,
    {
        let ghost t = s.subrange(p as int, n as int);
        let mut q: usize = p;
        while q < n && status.get_char(q) != '\n'
            invariant
                n == s.len(),
                s == status@,
                p <= q <= n,
                forall|j: int| p <= j < q ==> s[j] != '\n',
            decreases n - q,
        {
            q = q + 1;
        }
        proof {
            assert forall|j: int| 0 <= j < q - p implies t[j] != '\n' by {
                assert(t[j] == s[p + j]);
            }
            if q < n {
                assert(t[q - p] == s[q as int]);
            }
            lemma_line_len(t, q - p);
        }
        let is_uid = q - p >= 4 && status.get_char(p) == 'U' && status.get_char(p + 1) == 'i' && status.get_char(p + 2) == 'd'
            && status.get_char(p + 3) == ':';
        proof {
            reveal_strlit("Uid:");
            if q - p >= 4 {
                assert(t.subrange(0, 4)[0] == s[p as int]);
                assert(t.subrange(0, 4)[1] == s[p + 1]);
                assert(t.subrange(0, 4)[2] == s[p + 2]);
                assert(t.subrange(0, 4)[3] == s[p + 3]);
                if is_uid {
                    assert(t.subrange(0, 4) =~= "Uid:"@);
                } else {
                    assert(t.subrange(0, 4) != "Uid:"@) by {
                        assert("Uid:"@[0] == 'U');
                        assert("Uid:"@[1] == 'i');
                        assert("Uid:"@[2] == 'd');
                        assert("Uid:"@[3] == ':');
                    }
                }
            }
        }
        if is_uid {
            let field = status.substring_char(p + 4, q);
            proof {
                assert(field@ =~= t.subrange(4, (q - p) as int));
            }
            return match first_word_of(field) {
                Some(w) => match crate::text::parse_unsigned_max(w, u32::MAX as u64) {
                    Some(v) => Some(v as u32),
                    None => None,
                },
                None => None,
            };
        }
        if q >= n {
            return None;
        }
        proof {
            assert(t.subrange((q - p) + 1, t.len() as int) =~= s.subrange(q + 1, n as int));
        }
        p = q + 1;
    }
}

/// The user ID for socket paths: from the process status text, else from
/// the `UID` setting (a `u32`), else 0.
pub fn process_uid(status: Option<&str>, uid_setting: Option<&str>) -> (r: u32)
    ensures
        r == match status {
            Some(t) => match uid_of_status(t@) {
                Some(u) => u,
                None => crate::ipc::resilience::setting_or(uid_setting, u32::MAX as nat, 0),
            },
            None => crate::ipc::resilience::setting_or(uid_setting, u32::MAX as nat, 0),
        },
{
    if let Some(t) = status {
        if let Some(u) = uid_from_status(t) {
            return u;
        }
    }
    crate::ipc::resilience::read_setting(uid_setting, u32::MAX as u64, 0) as u32
}

/// Where primal sockets are looked for, in order: the socket-directory
/// setting, the `biomeos` directory of the runtime directory, then
/// `/run/user/<uid>/biomeos` and `/tmp/biomeos-<uid>`.
pub open spec fn socket_directories_of(socket_dir: Option<&str>, runtime_dir: Option<&str>, uid: u32) -> Seq<Seq<char>> {
    let a: Seq<Seq<char>> = match socket_dir {
        Some(d) => seq![d@],
        None => Seq::empty(),
    };
    let b: Seq<Seq<char>> = match runtime_dir {
        Some(x) => seq![crate::niche::path_join(x@, "biomeos"@)],
        None => Seq::empty(),
    };
    a + b + seq![
        "/run/user/"@ + crate::text::nat_decimal(uid as nat) + "/biomeos"@,
        "/tmp/biomeos-"@ + crate::text::nat_decimal(uid as nat),
    ]
}

/// Where primal sockets are looked for, in order: the socket-directory
/// setting, the `biomeos` directory of the runtime directory, then
/// `/run/user/<uid>/biomeos` and `/tmp/biomeos-<uid>`.
pub fn socket_directories(socket_dir: Option<&str>, runtime_dir: Option<&str>, uid: u32) -> (r: Vec<String>)
    ensures
        r@.map_values(|d: String| d@) == socket_directories_of(socket_dir, runtime_dir, uid),
{
    let mut dirs: Vec<String> = Vec::new();
    if let Some(d) = socket_dir {
        dirs.push(String::from_str(d));
    }
    if let Some(x) = runtime_dir {
        dirs.push(crate::niche::join_path(x, "biomeos"));
    }
    let digits = crate::text::u64_to_string(uid as u64);
    dirs.push(crate::text::concat3("/run/user/", digits.as_str(), "/biomeos"));
    dirs.push(crate::text::concat2("/tmp/biomeos-", digits.as_str()));
    proof {
        assert(dirs@.map_values(|d: String| d@) =~= socket_directories_of(socket_dir, runtime_dir, uid));
    }
    dirs
}

/// Where `plasmidBin/` directories are looked for, in order: the setting,
/// then `plasmidBin` in the working directory and up to three levels up.
pub open spec fn plasmid_bin_directories_of(setting: Option<&str>) -> Seq<Seq<char>> {
    let a: Seq<Seq<char>> = match setting {
        Some(d) => seq![d@],
        None => Seq::empty(),
    };
    a + seq!["./plasmidBin"@, "../plasmidBin"@, "../../plasmidBin"@, "../../../plasmidBin"@]
}

/// Where `plasmidBin/` directories are looked for, in order: the setting,
/// then `plasmidBin` in the working directory and up to three levels up.
pub fn plasmid_bin_directories(setting: Option<&str>) -> (r: Vec<String>)
    ensures
        r@.map_values(|d: String| d@) == plasmid_bin_directories_of(setting),
{
    let mut dirs: Vec<String> = Vec::new();
    if let Some(d) = setting {
        dirs.push(String::from_str(d));
    }
    dirs.push(String::from_str("./plasmidBin"));
    dirs.push(String::from_str("../plasmidBin"));
    dirs.push(String::from_str("../../plasmidBin"));
    dirs.push(String::from_str("../../../plasmidBin"));
    proof {
        assert(dirs@.map_values(|d: String| d@) =~= plasmid_bin_directories_of(setting));
    }
    dirs
}

} // verus!
