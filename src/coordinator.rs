//! The sync coordinator: the decisions of the state synchronizer, one event at
//! a time.
//!
//! Every handler takes the event and what the surrounding loop learned from
//! storage (latest version), the clock (milliseconds) and a random source (a
//! draw for the weighted peer choice), updates the coordinator's state, and
//! returns what the loop has to do next: a chunk request to send, chunks to
//! deliver, a callback to fire.
use vstd::prelude::*;

use crate::peer_manager::{
    adjust_records, adjusted, connect_records, lemma_penalty_lowers, pick_among, PeerManager,
    RequestInfo, ScoreUpdate, MIN_SCORE,
};
use crate::table::{keys_above, keys_unique, table_map, table_put, table_upsert};

verus! {

/// The role of this node.
#[derive(Clone, Copy, Debug, PartialEq, Eq, Structural)]
pub enum RoleType {
    Validator,
    FullNode,
}

/// Settings of the synchronizer (times in milliseconds).
#[derive(Clone, Copy, Debug, PartialEq, Eq, Structural)]
pub struct StateSyncConfig {
    /// Period of the progress watchdog.
    pub tick_interval_ms: u64,
    /// How long a full node's request may wait upstream for new data.
    pub long_poll_timeout_ms: u64,
    /// The `limit` of the chunk requests this node sends.
    pub chunk_limit: u64,
    /// Largest `limit` this node serves.
    pub max_chunk_limit: u64,
    /// Largest `timeout` this node serves.
    pub max_timeout_ms: u64,
}

/// A request for the transactions after `known_version`, at most `limit` of them;
/// with `timeout > 0` the server may hold it that long until it has new data.
#[derive(Clone, Copy, Debug, PartialEq, Eq, Structural)]
pub struct ChunkRequest {
    pub known_version: u64,
    pub limit: u64,
    pub timeout: u64,
}

/// A chunk request to send to `peer_id`; `with_target` asks the sender to attach
/// the ledger info of the pending sync request.
#[derive(Clone, Copy, Debug, PartialEq, Eq, Structural)]
pub struct OutboundRequest {
    pub peer_id: u64,
    pub request: ChunkRequest,
    pub with_target: bool,
}

/// A chunk to fetch from storage and send to `peer_id`.
#[derive(Clone, Copy, Debug, PartialEq, Eq, Structural)]
pub struct Delivery {
    pub peer_id: u64,
    pub known_version: u64,
    pub limit: u64,
}

/// A long poll held for a peer until `expires_at`.
#[derive(Clone, Copy, Debug, PartialEq, Eq, Structural)]
pub struct Subscription {
    pub expires_at: u64,
    pub known_version: u64,
    pub limit: u64,
}

/// What became of a sync request.
#[derive(Clone, Copy, Debug, PartialEq, Eq, Structural)]
pub enum SyncStart {
    /// The target is already reached: install its ledger info with an empty chunk
    /// and report success.
    AlreadySynced,
    /// The request is now pending; the first chunk request, if a peer was available.
    Started(Option<OutboundRequest>),
}

/// What to do with an inbound chunk request that was accepted.
#[derive(Clone, Copy, Debug, PartialEq, Eq, Structural)]
pub enum ServeAction {
    /// Held as a long poll (when its expiry time is representable).
    Subscribed,
    /// Answer now.
    Deliver(Delivery),
}

/// Why an inbound chunk request was not served.
#[derive(Clone, Copy, Debug, PartialEq, Eq, Structural)]
pub enum ServeError {
    /// Its `timeout` or `limit` is above this node's maximum.
    LimitExceeded,
    /// The requester is not connected.
    PeerNotConnected,
}

/// Why a chunk response was refused.
#[derive(Clone, Copy, Debug, PartialEq, Eq, Structural)]
pub enum ChunkError {
    /// Its first version is not the one after the known version.
    NonSequential { known: u64, received: u64 },
    /// It carries no ledger info to check it against.
    MissingLedgerInfo,
}

/// What follows a commit: chunks owed to long polls, and whether the pending
/// sync request reached its target (its callback is then due).
pub struct CommitOutcome {
    pub deliveries: Vec<Delivery>,
    pub sync_completed: bool,
}

pub open spec fn is_expired(s: Subscription, now: u64) -> bool {
    now >= s.expires_at
}

/// A subscription that stays after a sweep at `now` with `known` committed.
pub open spec fn still_waiting(e: (u64, Subscription), now: u64, known: u64) -> bool {
    !is_expired(e.1, now) && e.1.known_version >= known
}

/// The delivery that a sweep owes to a subscription: live, behind `known`, and
/// its peer connected.
pub open spec fn delivery_for(
    pm: PeerManager,
    e: (u64, Subscription),
    now: u64,
    known: u64,
) -> Option<Delivery> {
    if !is_expired(e.1, now) && e.1.known_version < known && pm.connected(e.0) {
        Some(Delivery { peer_id: e.0, known_version: e.1.known_version, limit: e.1.limit })
    } else {
        None
    }
}

/// The chunk request sent with `pick` as the chosen peer, by a node in `role`
/// that asks for chunks (`requesting`) and knows of `known`; none where no peer
/// was chosen or the version after `known + offset` does not fit in a `u64`.
pub open spec fn outbound(
    role: RoleType,
    cfg: StateSyncConfig,
    requesting: bool,
    known: u64,
    offset: u64,
    pick: Option<u64>,
) -> Option<OutboundRequest> {
    if requesting && known + offset + 1 <= u64::MAX {
        match pick {
            Some(p) => Some(
                OutboundRequest {
                    peer_id: p,
                    request: ChunkRequest {
                        known_version: (known + offset) as u64,
                        limit: cfg.chunk_limit,
                        timeout: if role == RoleType::FullNode {
                            cfg.long_poll_timeout_ms
                        } else {
                            0
                        },
                    },
                    with_target: role == RoleType::Validator,
                },
            ),
            None => None,
        }
    } else {
        None
    }
}

/// The outstanding requests after sending `r`, for the chunk that starts at `version`.
pub open spec fn recorded(
    base: Map<u64, RequestInfo>,
    r: Option<OutboundRequest>,
    version: int,
    now: u64,
) -> Map<u64, RequestInfo> {
    match r {
        Some(o) => base.insert(version as u64, RequestInfo { peer_id: o.peer_id, sent_at: now }),
        None => base,
    }
}

/// Drives this node's ledger toward a target by requesting chunks from peers,
/// and serves chunks to peers.
pub struct SyncCoordinator {
    known_version: u64,
    config: StateSyncConfig,
    role: RoleType,
    peer_manager: PeerManager,
    sync_target: Option<u64>,
    subscriptions: Vec<(u64, Subscription)>,
}

impl SyncCoordinator {
    pub closed spec fn wf(self) -> bool {
        &&& self.peer_manager.wf()
        &&& self.peer_manager.is_validator() == (self.role == RoleType::Validator)
        &&& keys_unique(self.subscriptions@)
    }

    /// The latest committed version this node knows of.
    pub closed spec fn known(self) -> u64 {
        self.known_version
    }

    pub closed spec fn node_role(self) -> RoleType {
        self.role
    }

    pub closed spec fn cfg(self) -> StateSyncConfig {
        self.config
    }

    pub closed spec fn manager(self) -> PeerManager {
        self.peer_manager
    }

    /// The target version of the pending sync request.
    pub closed spec fn target(self) -> Option<u64> {
        self.sync_target
    }

    /// The long polls, by peer, in the order they were first made.
    pub closed spec fn sub_entries(self) -> Seq<(u64, Subscription)> {
        self.subscriptions@
    }

    pub open spec fn sub_map(self) -> Map<u64, Subscription> {
        table_map(self.sub_entries())
    }

    /// Whether this node asks peers for chunks now: always on a full node, and
    /// on a validator while a sync request is pending.
    pub open spec fn is_requesting(self) -> bool {
        self.node_role() == RoleType::FullNode || self.target().is_some()
    }

    /// The chunk request that `request_next_chunk(offset, _, draw)` sends.
    pub open spec fn next_request(self, offset: u64, draw: u64) -> Option<OutboundRequest> {
        outbound(
            self.node_role(),
            self.cfg(),
            self.is_requesting(),
            self.known(),
            offset,
            self.manager().picked(draw),
        )
    }

    /// Whether the watchdog acts at `now`: some peer is eligible, the node asks
    /// for chunks, and the request for the next version (sent at time zero if
    /// there is none) has waited the whole timeout: the tick plus the long poll
    /// on a full node, two ticks on a validator.
    pub open spec fn watchdog_due(self, now: u64) -> bool {
        let v = self.known() + 1;
        let rm = self.manager().request_map();
        let last: int = if rm.contains_key(v as u64) {
            rm[v as u64].sent_at as int
        } else {
            0
        };
        let timeout: int = if self.node_role() == RoleType::FullNode {
            self.cfg().tick_interval_ms + self.cfg().long_poll_timeout_ms
        } else {
            2 * self.cfg().tick_interval_ms
        };
        &&& self.manager().has_eligible()
        &&& self.is_requesting()
        &&& v <= u64::MAX
        &&& last + timeout <= now
    }

    /// The state after a commit of `version` at `now`, as `new` relates to `old`.
    pub open spec fn committed(old: Self, new: Self, version: u64, now: u64) -> bool {
        let known = if version > old.known() {
            version
        } else {
            old.known()
        };
        &&& new.wf()
        &&& new.known() == known
        &&& new.node_role() == old.node_role()
        &&& new.cfg() == old.cfg()
        &&& new.target() == (if old.target() == Some(known) {
            None
        } else {
            old.target()
        })
        &&& new.sub_entries() == (if version > old.known() {
            old.sub_entries().filter(|e: (u64, Subscription)| still_waiting(e, now, known))
        } else {
            old.sub_entries()
        })
        &&& new.manager().is_validator() == old.manager().is_validator()
        &&& new.manager().allowed() == old.manager().allowed()
        &&& new.manager().peer_map() == old.manager().peer_map()
        &&& new.manager().records() == old.manager().records()
        &&& new.manager().request_map() == old.manager().request_map().restrict(
            keys_above(version),
        )
    }

    /// The deliveries that a commit of `version` at `now` owes.
    pub open spec fn owed(old: Self, version: u64, now: u64) -> Seq<Delivery> {
        if version > old.known() {
            old.sub_entries().filter_map(
                |e: (u64, Subscription)| delivery_for(old.manager(), e, now, version),
            )
        } else {
            Seq::empty()
        }
    }

    /// A coordinator for `role` that knows of no version yet.
    pub fn new(role: RoleType, config: StateSyncConfig, upstream_peers: Vec<u64>) -> (r: Self)
        ensures
            r.wf(),
            r.known() == 0,
            r.node_role() == role,
            r.cfg() == config,
            r.target().is_none(),
            r.sub_entries().len() == 0,
            r.manager().peer_map() == Map::<u64, crate::peer_manager::PeerInfo>::empty(),
            r.manager().request_map() == Map::<u64, RequestInfo>::empty(),
            r.manager().allowed() == (if role == RoleType::Validator {
                Seq::<u64>::empty()
            } else {
                upstream_peers@
            }),
    {
        SyncCoordinator {
            known_version: 0,
            config,
            role,
            peer_manager: PeerManager::new(role == RoleType::Validator, upstream_peers),
            sync_target: None,
            subscriptions: Vec::new(),
        }
    }

    /// The known version; this never reports a sync target in its place.
    pub fn get_state(&self) -> (r: u64)
        ensures
            r == self.known(),
    {
        self.known_version
    }

    /// The target version of the pending sync request, if any.
    pub fn sync_target(&self) -> (r: Option<u64>)
        ensures
            r == self.target(),
    {
        self.sync_target
    }

    pub fn peer_manager(&self) -> (r: &PeerManager)
        ensures
            *r == self.manager(),
    {
        &self.peer_manager
    }

    /// The long poll held for `peer_id`, if any.
    pub fn subscription(&self, peer_id: u64) -> (r: Option<Subscription>)
        requires
            self.wf(),
        ensures
            r == (if self.sub_map().contains_key(peer_id) {
                Some(self.sub_map()[peer_id])
            } else {
                None::<Subscription>
            }),
    {
        match crate::table::table_position(&self.subscriptions, peer_id) {
            Some(i) => Some(self.subscriptions[i].1),
            None => None,
        }
    }

    /// Asks a peer for the chunk after `known_version + offset`, and records the
    /// request for the version it starts at.
    fn request_next_chunk(&mut self, offset: u64, now: u64, draw: u64) -> (r: Option<
        OutboundRequest,
    >)
        requires
            old(self).wf(),
        ensures
            final(self).wf(),
            r == old(self).next_request(offset, draw),
            final(self).manager().wf(),
            final(self).manager().is_validator() == old(self).manager().is_validator(),
            final(self).manager().allowed() == old(self).manager().allowed(),
            final(self).manager().records() == old(self).manager().records(),
            final(self).manager().peer_map() == old(self).manager().peer_map(),
            final(self).manager().request_map() == recorded(
                old(self).manager().request_map(),
                r,
                old(self).known() + offset + 1,
                now,
            ),
            final(self).known() == old(self).known(),
            final(self).node_role() == old(self).node_role(),
            final(self).cfg() == old(self).cfg(),
            final(self).target() == old(self).target(),
            final(self).sub_entries() == old(self).sub_entries(),
    {
        if !(self.role == RoleType::FullNode || self.sync_target.is_some()) {
            return None;
        }
        if self.known_version as u128 + offset as u128 + 1 > u64::MAX as u128 {
            return None;
        }
        match self.peer_manager.pick_peer(draw) {
            Some(peer_id) => {
                let known_version = self.known_version + offset;
                self.peer_manager.process_request(known_version + 1, peer_id, now);
                let timeout = match self.role {
                    RoleType::Validator => 0,
                    RoleType::FullNode => self.config.long_poll_timeout_ms,
                };
                Some(
                    OutboundRequest {
                        peer_id,
                        request: ChunkRequest {
                            known_version,
                            limit: self.config.chunk_limit,
                            timeout,
                        },
                        with_target: self.role == RoleType::Validator,
                    },
                )
            },
            None => None,
        }
    }

    /// Drops the expired long polls and those behind `known`, and returns the
    /// deliveries owed to the latter whose peer is connected.
    fn sweep_subscriptions(&mut self, now: u64, known: u64) -> (r: Vec<Delivery>)
        requires
            old(self).wf(),
        ensures
            final(self).wf(),
            final(self).sub_entries() == old(self).sub_entries().filter(
                |e: (u64, Subscription)| still_waiting(e, now, known),
            ),
            r@ == old(self).sub_entries().filter_map(
                |e: (u64, Subscription)| delivery_for(old(self).manager(), e, now, known),
            ),
            final(self).known() == old(self).known(),
            final(self).node_role() == old(self).node_role(),
            final(self).cfg() == old(self).cfg(),
            final(self).target() == old(self).target(),
            final(self).manager() == old(self).manager(),
    {
        let ghost s = self.subscriptions@;
        let ghost keep = |e: (u64, Subscription)| still_waiting(e, now, known);
        let ghost owe = |e: (u64, Subscription)| delivery_for(self.peer_manager, e, now, known);
        let mut kept: Vec<(u64, Subscription)> = Vec::new();
        let mut out: Vec<Delivery> = Vec::new();
        let mut i: usize = 0;
        assert(s.take(0) =~= Seq::<(u64, Subscription)>::empty());
        while i < self.subscriptions.len()
            invariant
                self.wf(),
                self.subscriptions@ == s,
                i <= s.len(),
                kept@ == s.take(i as int).filter(keep),
                out@ == s.take(i as int).filter_map(owe),
                owe == (|e: (u64, Subscription)| delivery_for(self.peer_manager, e, now, known)),
                keep == (|e: (u64, Subscription)| still_waiting(e, now, known)),
                keys_unique(kept@),
                forall|j: int|
                    0 <= j < kept@.len() ==> exists|m: int|
                        0 <= m < i && s[m].0 == #[trigger] kept@[j].0,
            decreases s.len() - i,
        {
            let e = self.subscriptions[i];
            let ghost t = s.take(i as int + 1);
            assert(t.drop_last() =~= s.take(i as int));
            assert(t.last() == e);
            proof {
                assert(t =~= s.take(i as int).push(e));
                s.take(i as int).lemma_filter_push(e, keep);
            }
            let expired = now >= e.1.expires_at;
            if !expired && e.1.known_version < known {
                if self.peer_manager.is_connected(e.0) {
                    let d = Delivery { peer_id: e.0, known_version: e.1.known_version, limit: e.1.limit };
                    assert(out@.push(d) =~= out@ + seq![d]);
                    out.push(d);
                }
            } else if !expired {
                proof {
                    assert forall|j: int| 0 <= j < kept@.len() implies kept@[j].0 != e.0 by {
                        let m = choose|m: int| 0 <= m < i && s[m].0 == kept@[j].0;
                        assert(s[m].0 != s[i as int].0);
                    }
                }
                kept.push(e);
            }
            i = i + 1;
            assert forall|j: int| 0 <= j < kept@.len() implies exists|m: int|
                0 <= m < i && s[m].0 == #[trigger] kept@[j].0 by {
                if j == kept@.len() - 1 && still_waiting(e, now, known) {
                    assert(s[i - 1].0 == kept@[j].0);
                } else {
                    let m = choose|m: int| 0 <= m < i - 1 && s[m].0 == kept@[j].0;
                    assert(s[m].0 == kept@[j].0);
                }
            }
        }
        assert(s.take(s.len() as int) =~= s);
        self.subscriptions = kept;
        out
    }

    /// Notes that the ledger has reached `version` (a commit made elsewhere, or
    /// a chunk applied here). Raises the known version, sweeps the long polls
    /// when it rose, completes a sync request whose target is now the known
    /// version, and drops the outstanding requests up to `version`.
    pub fn commit(&mut self, version: u64, now: u64) -> (r: CommitOutcome)
        requires
            old(self).wf(),
        ensures
            Self::committed(*old(self), *final(self), version, now),
            r.deliveries@ == Self::owed(*old(self), version, now),
            r.sync_completed == (old(self).target() == Some(final(self).known())),
            old(self).known() <= final(self).known(),
            forall|w: u64| #[trigger]
                final(self).manager().request_map().contains_key(w) ==> w > version,
    {
        let is_update = version > self.known_version;
        if is_update {
            self.known_version = version;
        }
        let deliveries = if is_update {
            self.sweep_subscriptions(now, version)
        } else {
            Vec::new()
        };
        let sync_completed = match self.sync_target {
            Some(t) => t == self.known_version,
            None => false,
        };
        if sync_completed {
            self.sync_target = None;
        }
        self.peer_manager.remove_requests(version);
        CommitOutcome { deliveries, sync_completed }
    }

    /// Starts a sync toward `target_version`, signed by `signers`, after
    /// refreshing the known version from storage (`latest_version`). A target
    /// already reached needs no chunk; otherwise the request becomes the pending
    /// one (replacing any earlier one), the signers become the validator's
    /// eligible peers, and the first chunk is requested.
    pub fn request_sync(
        &mut self,
        target_version: u64,
        signers: Vec<u64>,
        latest_version: u64,
        now: u64,
        draw: u64,
    ) -> (r: SyncStart)
        requires
            old(self).wf(),
        ensures
            final(self).wf(),
            final(self).known() == (if latest_version > old(self).known() {
                latest_version
            } else {
                old(self).known()
            }),
            old(self).known() <= final(self).known(),
            final(self).node_role() == old(self).node_role(),
            final(self).cfg() == old(self).cfg(),
            final(self).sub_entries() == old(self).sub_entries(),
            (r == SyncStart::AlreadySynced) == (target_version <= final(self).known()),
            r == SyncStart::AlreadySynced ==> final(self).target() == old(self).target()
                && final(self).manager() == old(self).manager(),
            target_version > final(self).known() ==> {
                let allowed = if old(self).manager().is_validator() {
                    signers@
                } else {
                    old(self).manager().allowed()
                };
                let o = outbound(
                    old(self).node_role(),
                    old(self).cfg(),
                    true,
                    final(self).known(),
                    0,
                    pick_among(old(self).manager().records(), allowed, draw),
                );
                &&& r == SyncStart::Started(o)
                &&& final(self).target() == Some(target_version)
                &&& final(self).manager().is_validator() == old(self).manager().is_validator()
                &&& final(self).manager().allowed() == allowed
                &&& final(self).manager().records() == old(self).manager().records()
                &&& final(self).manager().peer_map() == old(self).manager().peer_map()
                &&& final(self).manager().request_map() == recorded(
                    old(self).manager().request_map(),
                    o,
                    final(self).known() + 1,
                    now,
                )
            },
    {
        if latest_version > self.known_version {
            self.known_version = latest_version;
        }
        if target_version <= self.known_version {
            return SyncStart::AlreadySynced;
        }
        self.peer_manager.set_peers(signers);
        self.sync_target = Some(target_version);
        SyncStart::Started(self.request_next_chunk(0, now, draw))
    }

    /// A peer connected.
    pub fn new_peer(&mut self, peer_id: u64)
        requires
            old(self).wf(),
        ensures
            final(self).wf(),
            final(self).known() == old(self).known(),
            final(self).node_role() == old(self).node_role(),
            final(self).cfg() == old(self).cfg(),
            final(self).target() == old(self).target(),
            final(self).sub_entries() == old(self).sub_entries(),
            final(self).manager().is_validator() == old(self).manager().is_validator(),
            final(self).manager().allowed() == old(self).manager().allowed(),
            final(self).manager().records() == connect_records(
                old(self).manager().records(),
                peer_id,
                true,
            ),
            final(self).manager().request_map() == old(self).manager().request_map(),
            final(self).manager().connected(peer_id),
    {
        self.peer_manager.enable_peer(peer_id);
    }

    /// A peer disconnected.
    pub fn lost_peer(&mut self, peer_id: u64)
        requires
            old(self).wf(),
        ensures
            final(self).wf(),
            final(self).known() == old(self).known(),
            final(self).node_role() == old(self).node_role(),
            final(self).cfg() == old(self).cfg(),
            final(self).target() == old(self).target(),
            final(self).sub_entries() == old(self).sub_entries(),
            final(self).manager().is_validator() == old(self).manager().is_validator(),
            final(self).manager().allowed() == old(self).manager().allowed(),
            final(self).manager().records() == connect_records(
                old(self).manager().records(),
                peer_id,
                false,
            ),
            final(self).manager().request_map() == old(self).manager().request_map(),
            !final(self).manager().connected(peer_id),
    {
        self.peer_manager.disable_peer(peer_id);
    }

    /// Serves an inbound chunk request from `peer_id`. One over this node's
    /// limits is refused. One from a peer that is not behind this node, with a
    /// timeout, is held as a long poll until `now + timeout` (replacing the
    /// peer's earlier one; not held where that time does not fit in a `u64`).
    /// Any other is answered at once, if the peer is connected.
    pub fn process_chunk_request(&mut self, peer_id: u64, request: ChunkRequest, now: u64) -> (r:
        Result<ServeAction, ServeError>)
        requires
            old(self).wf(),
        ensures
            final(self).wf(),
            final(self).known() == old(self).known(),
            final(self).node_role() == old(self).node_role(),
            final(self).cfg() == old(self).cfg(),
            final(self).target() == old(self).target(),
            final(self).manager() == old(self).manager(),
            request.timeout > old(self).cfg().max_timeout_ms || request.limit > old(
                self,
            ).cfg().max_chunk_limit ==> r == Err::<ServeAction, ServeError>(
                ServeError::LimitExceeded,
            ) && final(self).sub_entries() == old(self).sub_entries(),
            request.timeout <= old(self).cfg().max_timeout_ms && request.limit <= old(
                self,
            ).cfg().max_chunk_limit ==> {
                if old(self).known() <= request.known_version && request.timeout > 0 {
                    let sub = Subscription {
                        expires_at: (now + request.timeout) as u64,
                        known_version: request.known_version,
                        limit: request.limit,
                    };
                    &&& r == Ok::<ServeAction, ServeError>(ServeAction::Subscribed)
                    &&& final(self).sub_map() == (if now + request.timeout <= u64::MAX {
                        old(self).sub_map().insert(peer_id, sub)
                    } else {
                        old(self).sub_map()
                    })
                    &&& final(self).sub_entries() == (if now + request.timeout <= u64::MAX {
                        table_upsert(old(self).sub_entries(), peer_id, sub)
                    } else {
                        old(self).sub_entries()
                    })
                } else {
                    &&& final(self).sub_entries() == old(self).sub_entries()
                    &&& r == (if old(self).manager().connected(peer_id) {
                        Ok::<ServeAction, ServeError>(
                            ServeAction::Deliver(
                                Delivery {
                                    peer_id,
                                    known_version: request.known_version,
                                    limit: request.limit,
                                },
                            ),
                        )
                    } else {
                        Err(ServeError::PeerNotConnected)
                    })
                }
            },
            request.timeout == 0 ==> final(self).sub_map() == old(self).sub_map(),
    {
        if request.timeout > self.config.max_timeout_ms || request.limit
            > self.config.max_chunk_limit {
            return Err(ServeError::LimitExceeded);
        }
        if self.known_version <= request.known_version && request.timeout > 0 {
            if now as u128 + request.timeout as u128 <= u64::MAX as u128 {
                let sub = Subscription {
                    expires_at: now + request.timeout,
                    known_version: request.known_version,
                    limit: request.limit,
                };
                table_put(&mut self.subscriptions, peer_id, sub);
            }
            Ok(ServeAction::Subscribed)
        } else if self.peer_manager.is_connected(peer_id) {
            Ok(
                ServeAction::Deliver(
                    Delivery { peer_id, known_version: request.known_version, limit: request.limit },
                ),
            )
        } else {
            Err(ServeError::PeerNotConnected)
        }
    }

    /// First half of handling a chunk response from `peer_id` whose first
    /// version is `first_version` (none for an empty chunk) and which holds
    /// `chunk_len` transactions. The outstanding request for that version is
    /// cleared whoever it went to. A chunk that does not start right after the
    /// known version is refused, and its sender penalized with `InvalidChunk`
    /// if the request had gone to it. A chunk without a ledger info
    /// (`has_ledger_info` false) is refused next. An accepted chunk has the next
    /// chunk requested at once, past this one; storage then checks and applies
    /// it, and `finish_chunk_response` takes the outcome.
    pub fn begin_chunk_response(
        &mut self,
        peer_id: u64,
        first_version: Option<u64>,
        chunk_len: u64,
        has_ledger_info: bool,
        now: u64,
        draw: u64,
    ) -> (r: Result<Option<OutboundRequest>, ChunkError>)
        requires
            old(self).wf(),
        ensures
            final(self).wf(),
            final(self).known() == old(self).known(),
            final(self).node_role() == old(self).node_role(),
            final(self).cfg() == old(self).cfg(),
            final(self).target() == old(self).target(),
            final(self).sub_entries() == old(self).sub_entries(),
            final(self).manager().is_validator() == old(self).manager().is_validator(),
            final(self).manager().allowed() == old(self).manager().allowed(),
            ({
                let rm = old(self).manager().request_map();
                let base = match first_version {
                    Some(v) => rm.remove(v),
                    None => rm,
                };
                match first_version {
                    Some(v) if v != old(self).known() + 1 => {
                        let requested = rm.contains_key(v) && rm[v].peer_id == peer_id;
                        &&& r == Err::<Option<OutboundRequest>, ChunkError>(
                            ChunkError::NonSequential { known: old(self).known(), received: v },
                        )
                        &&& final(self).manager().request_map() == base
                        &&& final(self).manager().peer_map() == (if requested {
                            adjusted(old(self).manager().peer_map(), peer_id, ScoreUpdate::InvalidChunk)
                        } else {
                            old(self).manager().peer_map()
                        })
                        &&& final(self).manager().records() == (if requested {
                            adjust_records(
                                old(self).manager().records(),
                                peer_id,
                                ScoreUpdate::InvalidChunk,
                            )
                        } else {
                            old(self).manager().records()
                        })
                    },
                    _ if !has_ledger_info => {
                        &&& r == Err::<Option<OutboundRequest>, ChunkError>(
                            ChunkError::MissingLedgerInfo,
                        )
                        &&& final(self).manager().request_map() == base
                        &&& final(self).manager().peer_map() == old(self).manager().peer_map()
                        &&& final(self).manager().records() == old(self).manager().records()
                    },
                    _ => {
                        let o = old(self).next_request(chunk_len, draw);
                        &&& r == Ok::<Option<OutboundRequest>, ChunkError>(o)
                        &&& final(self).manager().request_map() == recorded(
                            base,
                            o,
                            old(self).known() + chunk_len + 1,
                            now,
                        )
                        &&& final(self).manager().peer_map() == old(self).manager().peer_map()
                        &&& final(self).manager().records() == old(self).manager().records()
                    },
                }
            }),
            r is Ok ==> first_version is None || first_version == Some((old(self).known() + 1) as u64),
            ({
                let pm = old(self).manager().peer_map();
                first_version matches Some(v) && v != old(self).known() + 1
                    && old(self).manager().request_map().contains_key(v)
                    && old(self).manager().request_map()[v].peer_id == peer_id
                    && pm.contains_key(peer_id) && pm[peer_id].score > MIN_SCORE
                    ==> final(self).manager().peer_map()[peer_id].score < pm[peer_id].score
            }),
    {
        proof {
            self.peer_manager.lemma_scores_bounded();
        }
        if let Some(v) = first_version {
            let requested = self.peer_manager.has_requested(v, peer_id);
            self.peer_manager.process_response(v);
            if v as u128 != self.known_version as u128 + 1 {
                if requested {
                    proof {
                        let pm = self.peer_manager.peer_map();
                        if pm.contains_key(peer_id) && pm[peer_id].score > MIN_SCORE {
                            lemma_penalty_lowers(pm[peer_id].score, ScoreUpdate::InvalidChunk);
                        }
                    }
                    self.peer_manager.update_score(peer_id, ScoreUpdate::InvalidChunk);
                }
                return Err(ChunkError::NonSequential { known: self.known_version, received: v });
            }
        }
        if !has_ledger_info {
            return Err(ChunkError::MissingLedgerInfo);
        }
        Ok(self.request_next_chunk(chunk_len, now, draw))
    }

    /// Second half of handling a chunk response from `peer_id`: storage now
    /// holds `latest_version`, and `stored` tells whether it accepted the chunk.
    /// A chunk that did not advance the ledger penalizes its sender with
    /// `InvalidChunk`; one that did is committed. A stored chunk then rewards
    /// its sender with `Success`.
    pub fn finish_chunk_response(
        &mut self,
        peer_id: u64,
        latest_version: u64,
        stored: bool,
        now: u64,
    ) -> (r: CommitOutcome)
        requires
            old(self).wf(),
        ensures
            final(self).wf(),
            old(self).known() <= final(self).known(),
            final(self).node_role() == old(self).node_role(),
            final(self).cfg() == old(self).cfg(),
            final(self).manager().is_validator() == old(self).manager().is_validator(),
            final(self).manager().allowed() == old(self).manager().allowed(),
            ({
                let pm0 = old(self).manager().peer_map();
                let recs0 = old(self).manager().records();
                let pm1 = if latest_version <= old(self).known() {
                    adjusted(pm0, peer_id, ScoreUpdate::InvalidChunk)
                } else {
                    pm0
                };
                let recs1 = if latest_version <= old(self).known() {
                    adjust_records(recs0, peer_id, ScoreUpdate::InvalidChunk)
                } else {
                    recs0
                };
                &&& final(self).manager().peer_map() == (if stored {
                    adjusted(pm1, peer_id, ScoreUpdate::Success)
                } else {
                    pm1
                })
                &&& final(self).manager().records() == (if stored {
                    adjust_records(recs1, peer_id, ScoreUpdate::Success)
                } else {
                    recs1
                })
            }),
            latest_version <= old(self).known() ==> {
                &&& final(self).known() == old(self).known()
                &&& final(self).target() == old(self).target()
                &&& final(self).sub_entries() == old(self).sub_entries()
                &&& final(self).manager().request_map() == old(self).manager().request_map()
                &&& r.deliveries@.len() == 0
                &&& !r.sync_completed
            },
            latest_version > old(self).known() ==> {
                &&& final(self).known() == latest_version
                &&& final(self).target() == (if old(self).target() == Some(latest_version) {
                    None
                } else {
                    old(self).target()
                })
                &&& final(self).sub_entries() == old(self).sub_entries().filter(
                    |e: (u64, Subscription)| still_waiting(e, now, latest_version),
                )
                &&& final(self).manager().request_map() == old(
                    self,
                ).manager().request_map().restrict(keys_above(latest_version))
                &&& r.deliveries@ == Self::owed(*old(self), latest_version, now)
                &&& r.sync_completed == (old(self).target() == Some(latest_version))
            },
    {
        let outcome = if latest_version <= self.known_version {
            self.peer_manager.update_score(peer_id, ScoreUpdate::InvalidChunk);
            CommitOutcome { deliveries: Vec::new(), sync_completed: false }
        } else {
            self.commit(latest_version, now)
        };
        if stored {
            self.peer_manager.update_score(peer_id, ScoreUpdate::Success);
        }
        outcome
    }

    /// The progress watchdog, run on every tick: when the request for the next
    /// version has waited too long (`watchdog_due`), penalizes its peer with
    /// `Timeout` (clearing the request on a validator) and requests the chunk
    /// afresh.
    pub fn check_progress(&mut self, now: u64, draw: u64) -> (r: Option<OutboundRequest>)
        requires
            old(self).wf(),
        ensures
            final(self).wf(),
            !old(self).watchdog_due(now) ==> r is None && *final(self) == *old(self),
            old(self).watchdog_due(now) ==> {
                let v = (old(self).known() + 1) as u64;
                let rm = old(self).manager().request_map();
                let held = rm.contains_key(v);
                let recs = if held {
                    adjust_records(old(self).manager().records(), rm[v].peer_id, ScoreUpdate::Timeout)
                } else {
                    old(self).manager().records()
                };
                let base = if held && old(self).node_role() == RoleType::Validator {
                    rm.remove(v)
                } else {
                    rm
                };
                let o = outbound(
                    old(self).node_role(),
                    old(self).cfg(),
                    true,
                    old(self).known(),
                    0,
                    pick_among(recs, old(self).manager().allowed(), draw),
                );
                &&& r == o
                &&& final(self).known() == old(self).known()
                &&& final(self).node_role() == old(self).node_role()
                &&& final(self).cfg() == old(self).cfg()
                &&& final(self).target() == old(self).target()
                &&& final(self).sub_entries() == old(self).sub_entries()
                &&& final(self).manager().is_validator() == old(self).manager().is_validator()
                &&& final(self).manager().allowed() == old(self).manager().allowed()
                &&& final(self).manager().records() == recs
                &&& final(self).manager().peer_map() == (if held {
                    adjusted(old(self).manager().peer_map(), rm[v].peer_id, ScoreUpdate::Timeout)
                } else {
                    old(self).manager().peer_map()
                })
                &&& final(self).manager().request_map() == recorded(base, o, v as int, now)
            },
    {
        if self.peer_manager.is_empty() {
            return None;
        }
        if !(self.role == RoleType::FullNode || self.sync_target.is_some()) {
            return None;
        }
        if self.known_version == u64::MAX {
            return None;
        }
        let next = self.known_version + 1;
        let last = match self.peer_manager.get_request_time(next) {
            Some(t) => t,
            None => 0,
        };
        let timeout: u128 = match self.role {
            RoleType::FullNode => self.config.tick_interval_ms as u128
                + self.config.long_poll_timeout_ms as u128,
            RoleType::Validator => 2 * self.config.tick_interval_ms as u128,
        };
        if last as u128 + timeout > now as u128 {
            return None;
        }
        self.peer_manager.process_timeout(next, self.role == RoleType::Validator);
        self.request_next_chunk(0, now, draw)
    }

    /// Replaying a commit changes nothing: once a commit of `version` has
    /// taken `a` to `b`, a second commit of the same version, at any time,
    /// leaves the state as it is and owes no delivery.
    pub proof fn lemma_commit_idempotent(a: Self, b: Self, c: Self, version: u64, t1: u64, t2: u64)
        requires
            Self::committed(a, b, version, t1),
            Self::committed(b, c, version, t2),
        ensures
            c.known() == b.known(),
            c.node_role() == b.node_role(),
            c.cfg() == b.cfg(),
            c.target() == b.target(),
            c.sub_entries() == b.sub_entries(),
            c.manager().is_validator() == b.manager().is_validator(),
            c.manager().allowed() == b.manager().allowed(),
            c.manager().peer_map() == b.manager().peer_map(),
            c.manager().records() == b.manager().records(),
            c.manager().request_map() == b.manager().request_map(),
            Self::owed(b, version, t2).len() == 0,
    {
        assert(c.manager().request_map() =~= b.manager().request_map());
    }
}

} // verus!
