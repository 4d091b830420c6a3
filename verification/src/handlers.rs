//! The node's API surface, modeled at its boundary: the route table of
//! the deprecated v1 REST surface and the v2 JSON-RPC handlers. The HTTP
//! transport itself lives outside; handlers hold opaque registry handles
//! in place of the shared node state, and a handler whose handle has
//! been dropped from the registry answers with an unavailable status.

use vstd::prelude::*;

verus! {

/// An opaque handle into the registry of shared node state (chain,
/// peers, pools); the registry hands out values only while the node
/// runs.
#[derive(Clone, Copy, PartialEq, Eq, Structural, Debug)]
pub struct Handle {
    pub id: u64,
}

/// Which handler serves a route.
#[derive(Clone, Copy, PartialEq, Eq, Structural, Debug)]
pub enum HandlerKind {
    Index,
    Blocks,
    Headers,
    Chain,
    Outputs,
    Kernels,
    ChainCompact,
    ChainValidation,
    TxHashset,
    Status,
    Pool,
    PoolPush,
    PeersAll,
    PeersConnected,
    Peer,
    Version,
}

/// One registered route: its path pattern, the handler serving it, and
/// the registry handle of the state that handler reads.
pub struct Route {
    pub path: String,
    pub handler: HandlerKind,
    pub state: Handle,
}

/// Why a route registration is refused.
#[derive(Clone, Copy, PartialEq, Eq, Structural, Debug)]
pub enum RouterError {
    RouteAlreadyExists,
}

/// Whether `routes` holds a route whose path reads `path`.
pub open spec fn has_route(routes: Seq<Route>, path: Seq<char>) -> bool {
    exists|i: int| 0 <= i < routes.len() && routes[i].path@ == path
}

/// The route table: path patterns in registration order, each with its
/// handler.
pub struct Router {
    routes: Vec<Route>,
}

impl Router {
    /// The registered routes in order.
    pub closed spec fn routes(&self) -> Seq<Route> {
        self.routes@
    }

    /// An empty router.
    pub fn new() -> (r: Router)
        ensures
            r.routes().len() == 0,
    {
        Router { routes: Vec::new() }
    }

    /// Registers `path` under `handler`; a path registered twice is
    /// refused and the table left unchanged.
    pub fn add_route(&mut self, path: String, handler: HandlerKind, state: Handle) -> (r:
        Result<(), RouterError>)
        ensures
            has_route(old(self).routes(), path@) ==> r == Result::<(), RouterError>::Err(
                RouterError::RouteAlreadyExists,
            ) && final(self).routes() == old(self).routes(),
            !has_route(old(self).routes(), path@) ==> r == Result::<(), RouterError>::Ok(())
                && final(self).routes().len() == old(self).routes().len() + 1
                && final(self).routes().take(old(self).routes().len() as int)
                    == old(self).routes()
                && final(self).routes().last().path@ == path@
                && final(self).routes().last().handler == handler
                && final(self).routes().last().state == state,
    {
        let n = self.routes.len();
        let mut i: usize = 0;
        while i < n
            invariant
                n == self.routes().len(),
                0 <= i <= n,
                forall|j: int| 0 <= j < i ==> (#[trigger] self.routes()[j]).path@ != path@,
            decreases n - i,
        {
            if self.routes[i].path == path {
                proof {
                    assert(self.routes()[i as int].path@ == path@);
                }
                return Err(RouterError::RouteAlreadyExists);
            }
            i += 1;
        }
        proof {
            if has_route(self.routes(), path@) {
                let j = choose|j: int|
                    0 <= j < self.routes().len() && (#[trigger] self.routes()[j]).path@ == path@;
                assert(false);
            }
        }
        let ghost prev = self.routes();
        self.routes.push(Route { path, handler, state });
        proof {
            assert(self.routes().take(prev.len() as int) =~= prev);
        }
        Ok(())
    }

    /// How many routes are registered.
    pub fn len(&self) -> (r: usize)
        ensures
            r == self.routes().len(),
    {
        self.routes.len()
    }

    /// The handler registered under the exact path `path`, if any.
    pub fn handler_for(&self, path: &str) -> (r: Option<HandlerKind>)
        ensures
            r is Some ==> exists|i: int|
                0 <= i < self.routes().len() && (#[trigger] self.routes()[i]).path@ == path@
                    && self.routes()[i].handler == r->Some_0,
            r is None ==> !has_route(self.routes(), path@),
    {
        let wanted = path.to_owned();
        let n = self.routes.len();
        let mut i: usize = 0;
        while i < n
            invariant
                n == self.routes().len(),
                0 <= i <= n,
                wanted@ == path@,
                forall|j: int| 0 <= j < i ==> (#[trigger] self.routes()[j]).path@ != path@,
            decreases n - i,
        {
            if self.routes[i].path == wanted {
                proof {
                    assert(self.routes()[i as int].path@ == path@);
                }
                return Some(self.routes[i].handler);
            }
            i += 1;
        }
        proof {
            if has_route(self.routes(), path@) {
                let j = choose|j: int|
                    0 <= j < self.routes().len() && (#[trigger] self.routes()[j]).path@ == path@;
                assert(false);
            }
        }
        None
    }
}

/// The v2 owner API handler: holds handles to the chain, the peers and
/// the shared sync state.
pub struct OwnerAPIHandlerV2 {
    pub chain: Handle,
    pub peers: Handle,
    pub sync_state: Handle,
}

impl OwnerAPIHandlerV2 {
    /// An owner handler over the given registry handles.
    pub fn new(chain: Handle, peers: Handle, sync_state: Handle) -> (r: OwnerAPIHandlerV2)
        ensures
            r.chain == chain,
            r.peers == peers,
            r.sync_state == sync_state,
    {
        OwnerAPIHandlerV2 { chain, peers, sync_state }
    }
}

/// The v2 stratum API handler: holds the handle of the stratum
/// connection pool.
pub struct StratumAPIHandlerV2 {
    pub stratum_ip_pool: Handle,
}

impl StratumAPIHandlerV2 {
    /// A stratum handler over the given pool handle.
    pub fn new(stratum_ip_pool: Handle) -> (r: StratumAPIHandlerV2)
        ensures
            r.stratum_ip_pool == stratum_ip_pool,
    {
        StratumAPIHandlerV2 { stratum_ip_pool }
    }
}

/// Builds the route table of the legacy v1 surface: sixteen routes, in
/// this order, for blocks, headers, chain state, the txhashset, the
/// status, the pools, the peers and the version. The paths are fixed
/// and pairwise distinct, so building the table always succeeds.
pub fn build_router(
    chain: Handle,
    tx_pool: Handle,
    peers: Handle,
    sync_state: Handle,
) -> (r: Result<Router, RouterError>)
    ensures
        r is Ok,
        ({
            let routes = r->Ok_0.routes();
            &&& routes.len() == 16
            &&& routes[0].path@ == "/v1/"@ && routes[0].handler == HandlerKind::Index
                && routes[1].state == chain && routes[10].state == tx_pool
                && routes[12].state == peers
            &&& routes[1].path@ == "/v1/blocks/*"@ && routes[1].handler == HandlerKind::Blocks
            &&& routes[2].path@ == "/v1/headers/*"@ && routes[2].handler == HandlerKind::Headers
            &&& routes[3].path@ == "/v1/chain"@ && routes[3].handler == HandlerKind::Chain
            &&& routes[4].path@ == "/v1/chain/outputs/*"@ && routes[4].handler
                == HandlerKind::Outputs
            &&& routes[5].path@ == "/v1/chain/kernels/*"@ && routes[5].handler
                == HandlerKind::Kernels
            &&& routes[6].path@ == "/v1/chain/compact"@ && routes[6].handler
                == HandlerKind::ChainCompact
            &&& routes[7].path@ == "/v1/chain/validate"@ && routes[7].handler
                == HandlerKind::ChainValidation
            &&& routes[8].path@ == "/v1/txhashset/*"@ && routes[8].handler
                == HandlerKind::TxHashset
            &&& routes[9].path@ == "/v1/status"@ && routes[9].handler == HandlerKind::Status
                && routes[9].state == sync_state
            &&& routes[10].path@ == "/v1/pool"@ && routes[10].handler == HandlerKind::Pool
            &&& routes[11].path@ == "/v1/pool/push_tx"@ && routes[11].handler
                == HandlerKind::PoolPush
            &&& routes[12].path@ == "/v1/peers/all"@ && routes[12].handler
                == HandlerKind::PeersAll
            &&& routes[13].path@ == "/v1/peers/connected"@ && routes[13].handler
                == HandlerKind::PeersConnected
            &&& routes[14].path@ == "/v1/peers/**"@ && routes[14].handler == HandlerKind::Peer
            &&& routes[15].path@ == "/v1/version"@ && routes[15].handler == HandlerKind::Version
        }),
{
    let mut routes: Vec<Route> = Vec::new();
    routes.push(Route { path: String::from_str("/v1/"), handler: HandlerKind::Index, state: chain });
    routes.push(
        Route { path: String::from_str("/v1/blocks/*"), handler: HandlerKind::Blocks, state: chain },
    );
    routes.push(
        Route {
            path: String::from_str("/v1/headers/*"),
            handler: HandlerKind::Headers,
            state: chain,
        },
    );
    routes.push(
        Route { path: String::from_str("/v1/chain"), handler: HandlerKind::Chain, state: chain },
    );
    routes.push(
        Route {
            path: String::from_str("/v1/chain/outputs/*"),
            handler: HandlerKind::Outputs,
            state: chain,
        },
    );
    routes.push(
        Route {
            path: String::from_str("/v1/chain/kernels/*"),
            handler: HandlerKind::Kernels,
            state: chain,
        },
    );
    routes.push(
        Route {
            path: String::from_str("/v1/chain/compact"),
            handler: HandlerKind::ChainCompact,
            state: chain,
        },
    );
    routes.push(
        Route {
            path: String::from_str("/v1/chain/validate"),
            handler: HandlerKind::ChainValidation,
            state: chain,
        },
    );
    routes.push(
        Route {
            path: String::from_str("/v1/txhashset/*"),
            handler: HandlerKind::TxHashset,
            state: chain,
        },
    );
    routes.push(
        Route {
            path: String::from_str("/v1/status"),
            handler: HandlerKind::Status,
            state: sync_state,
        },
    );
    routes.push(
        Route { path: String::from_str("/v1/pool"), handler: HandlerKind::Pool, state: tx_pool },
    );
    routes.push(
        Route {
            path: String::from_str("/v1/pool/push_tx"),
            handler: HandlerKind::PoolPush,
            state: tx_pool,
        },
    );
    routes.push(
        Route {
            path: String::from_str("/v1/peers/all"),
            handler: HandlerKind::PeersAll,
            state: peers,
        },
    );
    routes.push(
        Route {
            path: String::from_str("/v1/peers/connected"),
            handler: HandlerKind::PeersConnected,
            state: peers,
        },
    );
    routes.push(
        Route { path: String::from_str("/v1/peers/**"), handler: HandlerKind::Peer, state: peers },
    );
    routes.push(
        Route {
            path: String::from_str("/v1/version"),
            handler: HandlerKind::Version,
            state: chain,
        },
    );
    Ok(Router { routes })
}

} // verus!
