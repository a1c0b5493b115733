//! The per-connection state and the listener records the server binds.

use vstd::prelude::*;

use crate::config::{Config, ServerConfig, ServerConfigV};
use crate::models::ResponseProducer;
use crate::request::HttpRequestBuilder;

verus! {

/// The phase a connection is in.
#[derive(Debug, Clone, Copy, PartialEq, Eq, Structural)]
pub enum Status {
    Read,
    Write,
    Finish,
}

/// One bound listener: its address and the servers sharing it.
#[derive(Debug)]
pub struct ListenerInfo {
    pub host: String,
    pub port: u16,
    pub servers: Vec<ServerConfig>,
    pub default_server_index: usize,
}

/// The mathematical image of a listener.
pub struct ListenerInfoV {
    pub host: Seq<char>,
    pub port: u16,
    pub servers: Seq<ServerConfigV>,
    pub default_server_index: int,
}

impl View for ListenerInfo {
    type V = ListenerInfoV;

    open spec fn view(&self) -> ListenerInfoV {
        ListenerInfoV {
            host: self.host@,
            port: self.port,
            servers: Seq::new(self.servers@.len(), |i: int| self.servers@[i]@),
            default_server_index: self.default_server_index as int,
        }
    }
}

impl ListenerInfo {
    /// The listener names at least one server and a valid default.
    pub open spec fn wf(self) -> bool {
        self@.servers.len() > 0 && 0 <= self@.default_server_index < self@.servers.len()
    }
}

/// The per-connection state: the phase, the request being accumulated,
/// the response being sent, and the admission bookkeeping.
pub struct SocketStatus {
    pub ttl: u64,
    pub status: Status,
    pub request: HttpRequestBuilder,
    pub response: Option<ResponseProducer>,
    pub server_selected: bool,
    pub body_too_large: bool,
    pub max_body_size: Option<usize>,
}

impl SocketStatus {
    /// The connection invariants: in the write phase a response exists,
    /// a selected server fixes the body bound, and both the accumulator
    /// and the producer are internally consistent.
    pub open spec fn wf(self) -> bool {
        &&& self.request.wf()
        &&& (self.status is Read ==> !self.request.spec_failed())
        &&& (self.status is Write ==> self.response is Some)
        &&& (self.server_selected ==> self.max_body_size is Some)
        &&& (match self.response {
            Some(p) => p.inv(),
            None => true,
        })
    }

    /// A fresh connection, ready to read its first request.
    pub fn new(now: u64) -> (r: SocketStatus)
        ensures
            r.wf(),
            r.status is Read,
            r.response is None,
            !r.server_selected,
            !r.body_too_large,
            r.max_body_size is None,
            r.ttl == now,
            r.request.bytes() == Seq::<u8>::empty(),
            !r.request.spec_failed(),
            r.request.spec_state() is Headline,
    {
        SocketStatus {
            ttl: now,
            status: Status::Read,
            request: HttpRequestBuilder::new(),
            response: None,
            server_selected: false,
            body_too_large: false,
            max_body_size: None,
        }
    }

    /// The connection has been idle past the timeout and is to be dropped.
    pub fn is_expired(&self, now: u64, timeout_ms: u64) -> (r: bool)
        ensures
            r == (now >= self.ttl && now - self.ttl > timeout_ms),
    {
        now >= self.ttl && now - self.ttl > timeout_ms
    }
}

/// Some configured server names this `(host, port)` pair.
pub open spec fn spec_pair_covered(cfg: Seq<ServerConfigV>, host: Seq<char>, port: u16) -> bool {
    exists|s2: int|
        0 <= s2 < cfg.len() && (#[trigger] cfg[s2]).host == host && cfg[s2].ports.contains(port)
}

/// The index of a listener's default server, as its record stores it.
pub open spec fn listener_default(l: ListenerInfoV) -> int {
    l.default_server_index
}

/// Some server in the list is flagged as the default.
pub open spec fn spec_any_default(servers: Seq<ServerConfigV>) -> bool {
    exists|k: int| 0 <= k < servers.len() && (#[trigger] servers[k]).default_server
}

/// The target server stands among the listener's servers.
pub open spec fn spec_has_server(servers: Seq<ServerConfigV>, target: ServerConfigV) -> bool {
    exists|k: int| 0 <= k < servers.len() && (#[trigger] servers[k]) == target
}

/// Some listener is bound to this `(host, port)` pair.
pub open spec fn spec_listener_for(ls: Seq<ListenerInfo>, host: Seq<char>, port: u16) -> bool {
    exists|li: int| 0 <= li < ls.len() && (#[trigger] ls[li]).host@ == host && ls[li].port == port
}

/// The pair stands among the collected `(host, port)` pairs.
spec fn spec_pair_listed(ps: Seq<(String, u16)>, host: Seq<char>, port: u16) -> bool {
    exists|p: int| 0 <= p < ps.len() && (#[trigger] ps[p]).0@ == host && ps[p].1 == port
}

/// The target server stands among the cloned server records.
spec fn spec_vec_has_server(servers: Seq<ServerConfig>, target: ServerConfigV) -> bool {
    exists|k: int| 0 <= k < servers.len() && (#[trigger] servers[k])@ == target
}

proof fn lemma_listed_push(ps: Seq<(String, u16)>, e: (String, u16), host: Seq<char>, port: u16)
    requires
        spec_pair_listed(ps, host, port),
    ensures
        spec_pair_listed(ps.push(e), host, port),
{
    let p = choose|p: int| 0 <= p < ps.len() && (#[trigger] ps[p]).0@ == host && ps[p].1 == port;
    assert((#[trigger] ps.push(e)[p]).0@ == host && ps.push(e)[p].1 == port);
}

proof fn lemma_has_push(servers: Seq<ServerConfig>, e: ServerConfig, target: ServerConfigV)
    requires
        spec_vec_has_server(servers, target),
    ensures
        spec_vec_has_server(servers.push(e), target),
{
    let k = choose|k: int| 0 <= k < servers.len() && (#[trigger] servers[k])@ == target;
    assert((#[trigger] servers.push(e)[k])@ == target);
}

/// Binds the configuration to listeners: one per distinct `(host, port)`
/// pair, each carrying every server that names that pair; the default
/// server is the first flagged one, else the first. Every `(host, port)`
/// pair some server names gets exactly one listener.
pub fn build_listeners(config: &Config) -> (r: Vec<ListenerInfo>)
    ensures
        forall|li: int| 0 <= li < r@.len() ==> (#[trigger] r@[li]).wf(),
        forall|li: int, lj: int|
            0 <= li < lj < r@.len() ==> !((#[trigger] r@[li]).host@ == (#[trigger] r@[lj]).host@
                && r@[li].port == r@[lj].port),
        forall|li: int, k: int|
            0 <= li < r@.len() && 0 <= k < (#[trigger] r@[li])@.servers.len()
                ==> (#[trigger] r@[li]@.servers[k]).host == r@[li].host@
                && r@[li]@.servers[k].ports.contains(r@[li].port),
        forall|li: int|
            0 <= li < r@.len() ==> ((#[trigger] r@[li])@.servers[
                listener_default(r@[li]@)
            ].default_server || listener_default(r@[li]@) == 0),
        forall|li: int, k: int|
            0 <= li < r@.len() && 0 <= k < listener_default(r@[li]@) ==> !(#[trigger] r@[
                li
            ]@.servers[k]).default_server,
        forall|li: int|
            0 <= li < r@.len() && spec_any_default((#[trigger] r@[li])@.servers) ==> r@[
                li
            ]@.servers[listener_default(r@[li]@)].default_server,
        forall|si: int, pi: int|
            #![trigger config@[si].ports[pi]]
            0 <= si < config@.len() && 0 <= pi < config@[si].ports.len() ==> spec_listener_for(
                r@,
                config@[si].host,
                config@[si].ports[pi],
            ),
        forall|li: int, si: int|
            (0 <= li < r@.len() && 0 <= si < config@.len() && (#[trigger] config@[si]).host == (
            #[trigger] r@[li]).host@ && config@[si].ports.contains(r@[li].port))
                ==> spec_has_server(r@[li]@.servers, config@[si]),
{
    let ns = config.servers.len();
    let mut pairs: Vec<(String, u16)> = Vec::new();
    let mut si: usize = 0;
    while si < ns
        invariant
            0 <= si <= ns,
            ns == config.servers@.len(),
            config@.len() == ns,
            forall|k: int| 0 <= k < ns ==> config@[k] == (#[trigger] config.servers@[k])@,
            forall|p: int, q: int|
                0 <= p < q < pairs@.len() ==> !((#[trigger] pairs@[p]).0@ == (
                #[trigger] pairs@[q]).0@ && pairs@[p].1 == pairs@[q].1),
            forall|p: int|
                0 <= p < pairs@.len() ==> spec_pair_covered(
                    config@,
                    (#[trigger] pairs@[p]).0@,
                    pairs@[p].1,
                ),
            forall|s2: int, p2: int|
                #![trigger config@[s2].ports[p2]]
                0 <= s2 < si && 0 <= p2 < config@[s2].ports.len() ==> spec_pair_listed(
                    pairs@,
                    config@[s2].host,
                    config@[s2].ports[p2],
                ),
        decreases ns - si,
    {
        let server = &config.servers[si];
        let np = server.ports.len();
        let mut pi: usize = 0;
        while pi < np
            invariant
                0 <= pi <= np,
                0 <= si < ns,
                np == server.ports@.len(),
                ns == config.servers@.len(),
                config@.len() == ns,
                server == &config.servers[si as int],
                forall|k: int| 0 <= k < ns ==> config@[k] == (#[trigger] config.servers@[k])@,
                server@.ports.len() == np,
                forall|k: int| 0 <= k < np ==> server@.ports[k] == (#[trigger] server.ports@[k]),
                forall|p: int, q: int|
                    0 <= p < q < pairs@.len() ==> !((#[trigger] pairs@[p]).0@ == (
                    #[trigger] pairs@[q]).0@ && pairs@[p].1 == pairs@[q].1),
                forall|p: int|
                    0 <= p < pairs@.len() ==> spec_pair_covered(
                        config@,
                        (#[trigger] pairs@[p]).0@,
                        pairs@[p].1,
                    ),
                forall|s2: int, p2: int|
                    #![trigger config@[s2].ports[p2]]
                    0 <= s2 < si && 0 <= p2 < config@[s2].ports.len() ==> spec_pair_listed(
                        pairs@,
                        config@[s2].host,
                        config@[s2].ports[p2],
                    ),
                forall|p2: int|
                    0 <= p2 < pi ==> spec_pair_listed(
                        pairs@,
                        server.host@,
                        (#[trigger] server@.ports[p2]),
                    ),
            decreases np - pi,
        {
            let port = server.ports[pi];
            let m = pairs.len();
            let mut seen = false;
            let mut k: usize = 0;
            while k < m
                invariant
                    0 <= k <= m,
                    m == pairs@.len(),
                    seen == exists|k2: int|
                        0 <= k2 < k && (#[trigger] pairs@[k2]).0@ == server.host@ && pairs@[k2].1 == port,
                decreases m - k,
            {
                if crate::strutil::eq_str(pairs[k].0.as_str(), server.host.as_str())
                    && pairs[k].1 == port {
                    seen = true;
                    proof {
                        assert((#[trigger] pairs@[k as int]).0@ == server.host@ && pairs@[k as int].1 == port);
                    }
                }
                k = k + 1;
            }
            if !seen {
                let ghost pre = pairs@;
                pairs.push((server.host.clone(), port));
                proof {
                    assert(pairs@.last().0@ == config@[si as int].host);
                    assert(config@[si as int].ports.contains(port)) by {
                        assert(config@[si as int].ports[pi as int] == port);
                    }
                    assert(spec_pair_covered(config@, pairs@.last().0@, pairs@.last().1)) by {
                        assert((#[trigger] config@[si as int]).host == pairs@.last().0@
                            && config@[si as int].ports.contains(pairs@.last().1));
                    }
                    assert forall|p: int, q: int|
                        0 <= p < q < pairs@.len() implies !((#[trigger] pairs@[p]).0@ == (
                        #[trigger] pairs@[q]).0@ && pairs@[p].1 == pairs@[q].1) by {
                        if q == pairs@.len() - 1 {
                            assert(!(pairs@[p].0@ == server.host@ && pairs@[p].1 == port));
                        }
                    }
                    assert forall|s2: int, p2: int|
                        #![trigger config@[s2].ports[p2]]
                        0 <= s2 < si && 0 <= p2 < config@[s2].ports.len() implies
                        spec_pair_listed(pairs@, config@[s2].host, config@[s2].ports[p2]) by {
                        lemma_listed_push(
                            pre,
                            (pairs@.last().0, port),
                            config@[s2].host,
                            config@[s2].ports[p2],
                        );
                        assert(pairs@ =~= pre.push((pairs@.last().0, port)));
                    }
                    assert forall|p2: int| 0 <= p2 < pi implies spec_pair_listed(
                        pairs@,
                        server.host@,
                        (#[trigger] server@.ports[p2]),
                    ) by {
                        lemma_listed_push(
                            pre,
                            (pairs@.last().0, port),
                            server.host@,
                            server@.ports[p2],
                        );
                        assert(pairs@ =~= pre.push((pairs@.last().0, port)));
                    }
                    assert(spec_pair_listed(pairs@, server.host@, port)) by {
                        let p = pairs@.len() - 1;
                        assert((#[trigger] pairs@[p]).0@ == server.host@ && pairs@[p].1 == port);
                    }
                }
            } else {
                proof {
                    assert(spec_pair_listed(pairs@, server.host@, port)) by {
                        let k2 = choose|k2: int|
                            0 <= k2 < pairs@.len() && (#[trigger] pairs@[k2]).0@ == server.host@
                                && pairs@[k2].1 == port;
                        assert((#[trigger] pairs@[k2]).0@ == server.host@ && pairs@[k2].1
                            == port);
                    }
                }
            }
            proof {
                assert(server@.ports[pi as int] == port);
            }
            pi = pi + 1;
        }
        si = si + 1;
    }
    let npair = pairs.len();
    let mut listeners: Vec<ListenerInfo> = Vec::new();
    let mut qi: usize = 0;
    while qi < npair
        invariant
            0 <= qi <= npair,
            npair == pairs@.len(),
            ns == config.servers@.len(),
            config@.len() == ns,
            forall|k: int| 0 <= k < ns ==> config@[k] == (#[trigger] config.servers@[k])@,
            forall|p: int, q: int|
                0 <= p < q < npair ==> !((#[trigger] pairs@[p]).0@ == (#[trigger] pairs@[q]).0@
                    && pairs@[p].1 == pairs@[q].1),
            forall|p: int|
                0 <= p < npair ==> spec_pair_covered(
                    config@,
                    (#[trigger] pairs@[p]).0@,
                    pairs@[p].1,
                ),
            listeners@.len() == qi,
            forall|li: int|
                0 <= li < qi ==> (#[trigger] listeners@[li]).host@ == pairs@[li].0@
                    && listeners@[li].port == pairs@[li].1,
            forall|li: int| 0 <= li < qi ==> (#[trigger] listeners@[li]).wf(),
            forall|li: int, k: int|
                0 <= li < qi && 0 <= k < (#[trigger] listeners@[li])@.servers.len()
                    ==> (#[trigger] listeners@[li]@.servers[k]).host == listeners@[li].host@
                    && listeners@[li]@.servers[k].ports.contains(listeners@[li].port),
            forall|li: int|
                0 <= li < qi ==> ((#[trigger] listeners@[li])@.servers[
                    listener_default(listeners@[li]@)
                ].default_server || listener_default(listeners@[li]@) == 0),
            forall|li: int, k: int|
                0 <= li < qi && 0 <= k < listener_default(listeners@[li]@) ==> !(
                #[trigger] listeners@[li]@.servers[k]).default_server,
            forall|li: int|
                0 <= li < qi && spec_any_default((#[trigger] listeners@[li])@.servers)
                    ==> listeners@[li]@.servers[listener_default(listeners@[li]@)].default_server,
            forall|li: int, s3: int|
                (0 <= li < qi && 0 <= s3 < ns && (#[trigger] config@[s3]).host == (
                #[trigger] listeners@[li]).host@ && config@[s3].ports.contains(
                    listeners@[li].port,
                )) ==> spec_has_server(listeners@[li]@.servers, config@[s3]),
        decreases npair - qi,
    {
        let host = pairs[qi].0.clone();
        let port = pairs[qi].1;
        let mut servers: Vec<ServerConfig> = Vec::new();
        let mut default_index: usize = 0;
        let mut found_default = false;
        let mut si2: usize = 0;
        while si2 < ns
            invariant
                0 <= si2 <= ns,
                0 <= qi < npair,
                npair == pairs@.len(),
                ns == config.servers@.len(),
                config@.len() == ns,
                forall|k: int| 0 <= k < ns ==> config@[k] == (#[trigger] config.servers@[k])@,
                host@ == pairs@[qi as int].0@,
                port == pairs@[qi as int].1,
                forall|k: int|
                    0 <= k < servers@.len() ==> (#[trigger] servers@[k])@.host == host@
                        && servers@[k]@.ports.contains(port),
                found_default ==> default_index < servers@.len() && servers@[
                    default_index as int
                ]@.default_server,
                !found_default ==> default_index == 0,
                !found_default ==> forall|k: int|
                    0 <= k < servers@.len() ==> !(#[trigger] servers@[k])@.default_server,
                forall|k: int|
                    0 <= k < default_index ==> !(#[trigger] servers@[k])@.default_server,
                forall|s3: int|
                    (0 <= s3 < si2 && (#[trigger] config@[s3]).host == host@ && config@[s3].ports.contains(port)) ==> servers@.len() > 0,
                forall|s3: int|
                    (0 <= s3 < si2 && (#[trigger] config@[s3]).host == host@ && config@[s3].ports.contains(port)) ==> spec_vec_has_server(servers@, config@[s3]),
            decreases ns - si2,
        {
            let server = &config.servers[si2];
            let np2 = server.ports.len();
            let mut has_port = false;
            let mut pj: usize = 0;
            while pj < np2
                invariant
                    0 <= pj <= np2,
                    np2 == server.ports@.len(),
                    server@.ports.len() == np2,
                    forall|k: int|
                        0 <= k < np2 ==> server@.ports[k] == (#[trigger] server.ports@[k]),
                    has_port == exists|k2: int|
                        0 <= k2 < pj && (#[trigger] server@.ports[k2]) == port,
                decreases np2 - pj,
            {
                if server.ports[pj] == port {
                    has_port = true;
                    proof {
                        assert((#[trigger] server@.ports[pj as int]) == port);
                    }
                }
                pj = pj + 1;
            }
            proof {
                if has_port {
                    assert(server@.ports.contains(port));
                }
                if server@.ports.contains(port) {
                    let w = choose|k2: int|
                        0 <= k2 < server@.ports.len() && server@.ports[k2] == port;
                    assert(0 <= w < np2 && (#[trigger] server@.ports[w]) == port);
                }
            }
            if crate::strutil::eq_str(server.host.as_str(), host.as_str()) && has_port {
                let cloned = crate::config::clone_server(server);
                if cloned.default_server && !found_default {
                    default_index = servers.len();
                    found_default = true;
                }
                let ghost pre = servers@;
                servers.push(cloned);
                proof {
                    assert((#[trigger] servers@[servers@.len() - 1])@ == config@[si2 as int]);
                    assert forall|s3: int|
                        (0 <= s3 < si2 + 1 && (#[trigger] config@[s3]).host == host@
                            && config@[s3].ports.contains(port)) implies spec_vec_has_server(
                        servers@,
                        config@[s3],
                    ) by {
                        if s3 < si2 {
                            lemma_has_push(pre, servers@.last(), config@[s3]);
                            assert(servers@ =~= pre.push(servers@.last()));
                        }
                    }
                }
            }
            si2 = si2 + 1;
        }
        proof {
            assert(spec_pair_covered(config@, pairs@[qi as int].0@, pairs@[qi as int].1));
            let w = choose|s2: int|
                0 <= s2 < config@.len() && (#[trigger] config@[s2]).host == pairs@[qi as int].0@
                    && config@[s2].ports.contains(pairs@[qi as int].1);
            assert(servers@.len() > 0);
        }
        let li = ListenerInfo { host, port, servers, default_server_index: default_index };
        proof {
            assert(li@.servers.len() == li.servers@.len());
            assert(forall|k: int|
                0 <= k < li@.servers.len() ==> li@.servers[k] == (#[trigger] li.servers@[k])@);
            assert(li.wf());
            assert forall|k: int| 0 <= k < li.default_server_index implies !(#[trigger] li@.servers[
                k
            ]).default_server by {
                assert(li@.servers[k] == li.servers@[k]@);
            }
            assert(spec_any_default(li@.servers)
                ==> li@.servers[li@.default_server_index].default_server) by {
                if spec_any_default(li@.servers) {
                    let k = choose|k: int|
                        0 <= k < li@.servers.len() && (#[trigger] li@.servers[k]).default_server;
                    assert(li.servers@[k]@.default_server);
                    assert(found_default);
                }
            }
            assert forall|s3: int|
                (0 <= s3 < ns && (#[trigger] config@[s3]).host == li.host@ && config@[s3].ports.contains(li.port)) implies spec_has_server(li@.servers, config@[s3]) by {
                let k = choose|k: int|
                    0 <= k < li.servers@.len() && (#[trigger] li.servers@[k])@ == config@[s3];
                assert((#[trigger] li@.servers[k]) == config@[s3]);
            }
        }
        listeners.push(li);
        qi = qi + 1;
    }
    proof {
        assert forall|si3: int, pi3: int|
            #![trigger config@[si3].ports[pi3]]
            0 <= si3 < config@.len() && 0 <= pi3 < config@[si3].ports.len() implies
            spec_listener_for(listeners@, config@[si3].host, config@[si3].ports[pi3]) by {
            assert(spec_pair_listed(pairs@, config@[si3].host, config@[si3].ports[pi3]));
            let p = choose|p: int|
                0 <= p < pairs@.len() && (#[trigger] pairs@[p]).0@ == config@[si3].host && pairs@[p].1 == config@[si3].ports[pi3];
            assert(0 <= p < listeners@.len() && (#[trigger] listeners@[p]).host@ == config@[
                si3
            ].host && listeners@[p].port == config@[si3].ports[pi3]);
        }
    }
    listeners
}

} // verus!