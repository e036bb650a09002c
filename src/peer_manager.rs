//! Peer bookkeeping: which peers are connected and eligible, their scores,
//! a weighted choice among them, and the chunk requests still outstanding.
use vstd::prelude::*;

use crate::table::{
    keys_above, keys_unique, lemma_table_map_index, table_keep_above, table_map, table_position,
    table_put, table_remove,
};

verus! {

/// Highest score a peer can have; also the score of a newly seen peer.
pub const MAX_SCORE: u64 = 10000;

/// Lowest score a peer can have, so that every eligible peer stays reachable.
pub const MIN_SCORE: u64 = 100;

/// What a `Success` adds to a score, up to `MAX_SCORE`.
pub const SUCCESS_BONUS: u64 = 100;

/// What is known of one peer.
#[derive(Clone, Copy, Debug, PartialEq, Eq, Structural)]
pub struct PeerInfo {
    pub connected: bool,
    pub score: u64,
}

/// An outstanding chunk request: to whom it went, and when (milliseconds).
#[derive(Clone, Copy, Debug, PartialEq, Eq, Structural)]
pub struct RequestInfo {
    pub peer_id: u64,
    pub sent_at: u64,
}

/// The kinds of score adjustment.
#[derive(Clone, Copy, Debug, PartialEq, Eq, Structural)]
pub enum ScoreUpdate {
    Success,
    Timeout,
    InvalidChunk,
    EmptyChunk,
}

pub open spec fn floored(x: int) -> u64 {
    if x < MIN_SCORE {
        MIN_SCORE
    } else {
        x as u64
    }
}

/// A score after one adjustment: `Success` adds `SUCCESS_BONUS` up to `MAX_SCORE`;
/// `Timeout` takes four fifths, `InvalidChunk` one half, `EmptyChunk` nineteen
/// twentieths, never below `MIN_SCORE`.
pub open spec fn updated_score(score: u64, kind: ScoreUpdate) -> u64 {
    match kind {
        ScoreUpdate::Success => if score + SUCCESS_BONUS > MAX_SCORE {
            MAX_SCORE
        } else {
            (score + SUCCESS_BONUS) as u64
        },
        ScoreUpdate::Timeout => floored(score as int * 4 / 5),
        ScoreUpdate::InvalidChunk => floored(score as int / 2),
        ScoreUpdate::EmptyChunk => floored(score as int * 19 / 20),
    }
}

/// The peer records after adjusting the score of `id`, if it is known.
pub open spec fn adjusted(m: Map<u64, PeerInfo>, id: u64, kind: ScoreUpdate) -> Map<u64, PeerInfo> {
    if m.contains_key(id) {
        m.insert(id, PeerInfo { connected: m[id].connected, score: updated_score(m[id].score, kind) })
    } else {
        m
    }
}

/// Computes `updated_score`.
pub fn adjust_score(score: u64, kind: ScoreUpdate) -> (r: u64)
    requires
        score <= MAX_SCORE,
    ensures
        r == updated_score(score, kind),
{
    let x: u64 = match kind {
        ScoreUpdate::Success => {
            if score + SUCCESS_BONUS > MAX_SCORE {
                MAX_SCORE
            } else {
                score + SUCCESS_BONUS
            }
        },
        ScoreUpdate::Timeout => score * 4 / 5,
        ScoreUpdate::InvalidChunk => score / 2,
        ScoreUpdate::EmptyChunk => score * 19 / 20,
    };
    if x < MIN_SCORE {
        MIN_SCORE
    } else {
        x
    }
}

/// A penalty lowers every score that is above the floor.
pub proof fn lemma_penalty_lowers(score: u64, kind: ScoreUpdate)
    requires
        MIN_SCORE < score <= MAX_SCORE,
        kind != ScoreUpdate::Success,
    ensures
        updated_score(score, kind) < score,
{
}

/// Whether `id` occurs in `ids`.
pub fn contains_id(ids: &Vec<u64>, id: u64) -> (r: bool)
    ensures
        r == ids@.contains(id),
{
    let mut i: usize = 0;
    while i < ids.len()
        invariant
            i <= ids@.len(),
            forall|j: int| 0 <= j < i ==> ids@[j] != id,
        decreases ids@.len() - i,
    {
        if ids[i] == id {
            assert(ids@[i as int] == id);
            return true;
        }
        i = i + 1;
    }
    false
}

/// The weight of one record in a weighted pick: its score if it is connected
/// and allowed, else nothing.
pub open spec fn weight_of(allowed: Seq<u64>, e: (u64, PeerInfo)) -> nat {
    if e.1.connected && allowed.contains(e.0) {
        e.1.score as nat
    } else {
        0
    }
}

/// The total weight of the first `n` records.
pub open spec fn weight_upto(records: Seq<(u64, PeerInfo)>, allowed: Seq<u64>, n: int) -> nat
    decreases n,
{
    if n <= 0 {
        0
    } else {
        weight_upto(records, allowed, n - 1) + weight_of(allowed, records[n - 1])
    }
}

/// The first of the first `n` records whose weight reaches past `point`.
pub open spec fn pick_within(
    records: Seq<(u64, PeerInfo)>,
    allowed: Seq<u64>,
    n: int,
    point: int,
) -> Option<u64>
    decreases n,
{
    if n <= 0 {
        None
    } else {
        match pick_within(records, allowed, n - 1, point) {
            Some(id) => Some(id),
            None => if weight_of(allowed, records[n - 1]) > 0 && point < weight_upto(
                records,
                allowed,
                n,
            ) {
                Some(records[n - 1].0)
            } else {
                None
            },
        }
    }
}

/// The peer that a draw selects: the records are laid end to end, each as wide
/// as its weight, and the draw, taken modulo the total, lands in one of them.
pub open spec fn pick_among(records: Seq<(u64, PeerInfo)>, allowed: Seq<u64>, draw: u64) -> Option<
    u64,
> {
    let total = weight_upto(records, allowed, records.len() as int);
    if total == 0 {
        None
    } else {
        pick_within(records, allowed, records.len() as int, draw as int % total as int)
    }
}

/// The records after adjusting the score of `id`.
pub open spec fn adjust_records(records: Seq<(u64, PeerInfo)>, id: u64, kind: ScoreUpdate) -> Seq<
    (u64, PeerInfo),
> {
    records.map_values(
        |e: (u64, PeerInfo)|
            if e.0 == id {
                (e.0, PeerInfo { connected: e.1.connected, score: updated_score(e.1.score, kind) })
            } else {
                e
            },
    )
}

/// The records after marking `id` connected or not; a new connected peer is
/// added at the end with `MAX_SCORE`.
pub open spec fn connect_records(records: Seq<(u64, PeerInfo)>, id: u64, connected: bool) -> Seq<
    (u64, PeerInfo),
> {
    if exists|i: int| 0 <= i < records.len() && records[i].0 == id {
        records.map_values(
            |e: (u64, PeerInfo)|
                if e.0 == id {
                    (e.0, PeerInfo { connected, score: e.1.score })
                } else {
                    e
                },
        )
    } else if connected {
        records.push((id, PeerInfo { connected: true, score: MAX_SCORE }))
    } else {
        records
    }
}

proof fn lemma_weight_positive(records: Seq<(u64, PeerInfo)>, allowed: Seq<u64>, n: int)
    requires
        0 <= n <= records.len(),
    ensures
        weight_upto(records, allowed, n) > 0 <==> exists|i: int|
            0 <= i < n && weight_of(allowed, #[trigger] records[i]) > 0,
    decreases n,
{
    if n > 0 {
        lemma_weight_positive(records, allowed, n - 1);
        if weight_upto(records, allowed, n) > 0 && weight_upto(records, allowed, n - 1) == 0 {
            assert(weight_of(allowed, records[n - 1]) > 0);
        }
    }
}

proof fn lemma_pick_within(records: Seq<(u64, PeerInfo)>, allowed: Seq<u64>, n: int, point: int)
    requires
        0 <= n <= records.len(),
        0 <= point,
    ensures
        point < weight_upto(records, allowed, n) ==> pick_within(records, allowed, n, point).is_some(),
        pick_within(records, allowed, n, point) matches Some(id) ==> exists|i: int|
            0 <= i < n && #[trigger] records[i].0 == id && weight_of(allowed, records[i]) > 0,
    decreases n,
{
    if n > 0 {
        lemma_pick_within(records, allowed, n - 1, point);
    }
}

proof fn lemma_pick_stable(
    records: Seq<(u64, PeerInfo)>,
    allowed: Seq<u64>,
    k: int,
    m: int,
    point: int,
)
    requires
        0 <= k <= m,
        pick_within(records, allowed, k, point).is_some(),
    ensures
        pick_within(records, allowed, m, point) == pick_within(records, allowed, k, point),
    decreases m - k,
{
    if m > k {
        lemma_pick_stable(records, allowed, k, m - 1, point);
    }
}

/// A draw picks some peer exactly when some record has weight, and what it
/// picks is a record with weight.
pub proof fn lemma_pick_among(records: Seq<(u64, PeerInfo)>, allowed: Seq<u64>, draw: u64)
    ensures
        pick_among(records, allowed, draw).is_some() <==> exists|i: int|
            0 <= i < records.len() && weight_of(allowed, #[trigger] records[i]) > 0,
        pick_among(records, allowed, draw) matches Some(id) ==> exists|i: int|
            0 <= i < records.len() && #[trigger] records[i].0 == id && weight_of(allowed, records[i])
                > 0,
{
    let n = records.len() as int;
    lemma_weight_positive(records, allowed, n);
    let total = weight_upto(records, allowed, n);
    if total > 0 {
        lemma_pick_within(records, allowed, n, draw as int % total as int);
    }
}

/// Tracks peers and the chunk requests sent to them.
///
/// A peer is eligible when it is connected and belongs to the role's set: the
/// configured upstream peers on a full node, the signers of the current sync
/// target on a validator.
pub struct PeerManager {
    validator: bool,
    upstream_peers: Vec<u64>,
    target_peers: Vec<u64>,
    peers: Vec<(u64, PeerInfo)>,
    requests: Vec<(u64, RequestInfo)>,
}

impl PeerManager {
    pub closed spec fn wf(self) -> bool {
        &&& keys_unique(self.peers@)
        &&& keys_unique(self.requests@)
        &&& forall|id: u64| #[trigger]
            table_map(self.peers@).contains_key(id) ==> MIN_SCORE <= table_map(self.peers@)[id].score
                <= MAX_SCORE
    }

    proof fn lemma_record_scores(self)
        requires
            self.wf(),
        ensures
            forall|i: int|
                0 <= i < self.peers@.len() ==> MIN_SCORE <= #[trigger] self.peers@[i].1.score
                    <= MAX_SCORE,
    {
        lemma_table_map_index(self.peers@);
        assert forall|i: int| 0 <= i < self.peers@.len() implies MIN_SCORE
            <= #[trigger] self.peers@[i].1.score <= MAX_SCORE by {
            assert(table_map(self.peers@).contains_key(self.peers@[i].0));
        }
    }

    /// Every known peer's score lies between `MIN_SCORE` and `MAX_SCORE`.
    pub proof fn lemma_scores_bounded(self)
        requires
            self.wf(),
        ensures
            forall|id: u64| #[trigger]
                self.peer_map().contains_key(id) ==> MIN_SCORE <= self.peer_map()[id].score
                    <= MAX_SCORE,
    {
    }

    /// Whether the manager serves a validator (else a full node).
    pub closed spec fn is_validator(self) -> bool {
        self.validator
    }

    /// The peers that the role allows: upstream peers, or the target's signers.
    pub closed spec fn allowed(self) -> Seq<u64> {
        if self.validator {
            self.target_peers@
        } else {
            self.upstream_peers@
        }
    }

    /// The peer records, in the order the peers were first seen.
    pub closed spec fn records(self) -> Seq<(u64, PeerInfo)> {
        self.peers@
    }

    /// Every peer seen so far, by id.
    pub closed spec fn peer_map(self) -> Map<u64, PeerInfo> {
        table_map(self.peers@)
    }

    /// Outstanding requests, by the version that the requested chunk starts at.
    pub closed spec fn request_map(self) -> Map<u64, RequestInfo> {
        table_map(self.requests@)
    }

    pub open spec fn eligible(self, id: u64) -> bool {
        &&& self.peer_map().contains_key(id)
        &&& self.peer_map()[id].connected
        &&& self.allowed().contains(id)
    }

    pub open spec fn connected(self, id: u64) -> bool {
        self.peer_map().contains_key(id) && self.peer_map()[id].connected
    }

    pub open spec fn has_eligible(self) -> bool {
        exists|id: u64| self.eligible(id)
    }

    /// The peer that `draw` selects among the records.
    pub open spec fn picked(self, draw: u64) -> Option<u64> {
        pick_among(self.records(), self.allowed(), draw)
    }

    proof fn lemma_weight_bounds(self, n: int)
        requires
            self.wf(),
            0 <= n <= self.peers@.len(),
        ensures
            weight_upto(self.peers@, self.allowed(), n) <= n * MAX_SCORE,
            forall|m: int|
                0 <= m <= n ==> weight_upto(self.peers@, self.allowed(), m) <= weight_upto(
                    self.peers@,
                    self.allowed(),
                    n,
                ),
        decreases n,
    {
        if n > 0 {
            self.lemma_weight_bounds(n - 1);
            self.lemma_record_scores();
            assert(self.peers@[n - 1].1.score <= MAX_SCORE);
        }
    }

    proof fn lemma_eligible_entry(self)
        requires
            self.wf(),
        ensures
            forall|i: int|
                0 <= i < self.peers@.len() && weight_of(self.allowed(), #[trigger] self.peers@[i]) > 0
                    ==> self.eligible(self.peers@[i].0),
            forall|id: u64|
                #[trigger] self.eligible(id) ==> exists|i: int|
                    0 <= i < self.peers@.len() && self.peers@[i].0 == id && weight_of(
                        self.allowed(),
                        self.peers@[i],
                    ) > 0,
    {
        lemma_table_map_index(self.peers@);
        self.lemma_record_scores();
        assert forall|id: u64| #[trigger] self.eligible(id) implies exists|i: int|
            0 <= i < self.peers@.len() && self.peers@[i].0 == id && weight_of(self.allowed(), self.peers@[i])
                > 0 by {
            let i = choose|i: int| 0 <= i < self.peers@.len() && self.peers@[i].0 == id;
            assert(self.peers@[i].1.score >= MIN_SCORE);
        }
    }

    /// A manager with no peers and no requests.
    pub fn new(validator: bool, upstream_peers: Vec<u64>) -> (r: Self)
        ensures
            r.wf(),
            r.is_validator() == validator,
            r.allowed() == (if validator {
                Seq::<u64>::empty()
            } else {
                upstream_peers@
            }),
            r.records() == Seq::<(u64, PeerInfo)>::empty(),
            r.peer_map() == Map::<u64, PeerInfo>::empty(),
            r.request_map() == Map::<u64, RequestInfo>::empty(),
    {
        PeerManager {
            validator,
            upstream_peers,
            target_peers: Vec::new(),
            peers: Vec::new(),
            requests: Vec::new(),
        }
    }

    /// Replaces the validator's eligible set (the signers of a new target).
    pub fn set_peers(&mut self, peers: Vec<u64>)
        requires
            old(self).wf(),
        ensures
            final(self).wf(),
            final(self).is_validator() == old(self).is_validator(),
            final(self).allowed() == (if old(self).is_validator() {
                peers@
            } else {
                old(self).allowed()
            }),
            final(self).records() == old(self).records(),
            final(self).peer_map() == old(self).peer_map(),
            final(self).request_map() == old(self).request_map(),
    {
        self.target_peers = peers;
    }

    /// Records that `id` is connected; a peer not seen before gets `MAX_SCORE`.
    pub fn enable_peer(&mut self, id: u64)
        requires
            old(self).wf(),
        ensures
            final(self).wf(),
            final(self).is_validator() == old(self).is_validator(),
            final(self).allowed() == old(self).allowed(),
            final(self).peer_map() == old(self).peer_map().insert(
                id,
                PeerInfo {
                    connected: true,
                    score: if old(self).peer_map().contains_key(id) {
                        old(self).peer_map()[id].score
                    } else {
                        MAX_SCORE
                    },
                },
            ),
            final(self).records() == connect_records(old(self).records(), id, true),
            final(self).request_map() == old(self).request_map(),
    {
        let ghost s = self.peers@;
        let score = match table_position(&self.peers, id) {
            Some(i) => self.peers[i].1.score,
            None => MAX_SCORE,
        };
        proof {
            lemma_table_map_index(self.peers@);
        }
        table_put(&mut self.peers, id, PeerInfo { connected: true, score });
        proof {
            lemma_table_map_index(self.peers@);
            lemma_table_map_index(s);
            if exists|i: int| 0 <= i < s.len() && s[i].0 == id {
                let i = choose|i: int| 0 <= i < s.len() && s[i].0 == id;
                assert(self.peers@ =~= connect_records(s, id, true)) by {
                    assert forall|j: int| 0 <= j < s.len() && j != i implies s[j].0 != id by {
                        assert(s[j].0 != s[i].0);
                    }
                }
            }
        }
    }

    /// Records that `id` is no longer connected; its score is kept.
    pub fn disable_peer(&mut self, id: u64)
        requires
            old(self).wf(),
        ensures
            final(self).wf(),
            final(self).is_validator() == old(self).is_validator(),
            final(self).allowed() == old(self).allowed(),
            final(self).peer_map() == (if old(self).peer_map().contains_key(id) {
                old(self).peer_map().insert(
                    id,
                    PeerInfo { connected: false, score: old(self).peer_map()[id].score },
                )
            } else {
                old(self).peer_map()
            }),
            final(self).records() == connect_records(old(self).records(), id, false),
            final(self).request_map() == old(self).request_map(),
    {
        let ghost s = self.peers@;
        if let Some(i) = table_position(&self.peers, id) {
            let score = self.peers[i].1.score;
            proof {
                lemma_table_map_index(self.peers@);
            }
            table_put(&mut self.peers, id, PeerInfo { connected: false, score });
            proof {
                lemma_table_map_index(self.peers@);
                assert(self.peers@ =~= connect_records(s, id, false)) by {
                    assert forall|j: int| 0 <= j < s.len() && j != i implies s[j].0 != id by {
                        assert(s[j].0 != s[i as int].0);
                    }
                }
            }
        } else {
            proof {
                lemma_table_map_index(s);
            }
        }
    }

    /// Adjusts the score of `id`, if it is known.
    pub fn update_score(&mut self, id: u64, kind: ScoreUpdate)
        requires
            old(self).wf(),
        ensures
            final(self).wf(),
            final(self).is_validator() == old(self).is_validator(),
            final(self).allowed() == old(self).allowed(),
            final(self).peer_map() == adjusted(old(self).peer_map(), id, kind),
            final(self).records() == adjust_records(old(self).records(), id, kind),
            final(self).request_map() == old(self).request_map(),
    {
        let ghost s = self.peers@;
        if let Some(i) = table_position(&self.peers, id) {
            let info = self.peers[i].1;
            let score = adjust_score(info.score, kind);
            proof {
                lemma_table_map_index(self.peers@);
            }
            table_put(&mut self.peers, id, PeerInfo { connected: info.connected, score });
            proof {
                lemma_table_map_index(self.peers@);
                assert(self.peers@ =~= adjust_records(s, id, kind)) by {
                    assert forall|j: int| 0 <= j < s.len() && j != i implies s[j].0 != id by {
                        assert(s[j].0 != s[i as int].0);
                    }
                }
            }
        } else {
            proof {
                lemma_table_map_index(s);
                assert(s =~= adjust_records(s, id, kind));
            }
        }
    }

    /// The score of `id`, if it is known.
    pub fn score(&self, id: u64) -> (r: Option<u64>)
        requires
            self.wf(),
        ensures
            r == (if self.peer_map().contains_key(id) {
                Some(self.peer_map()[id].score)
            } else {
                None::<u64>
            }),
    {
        match table_position(&self.peers, id) {
            Some(i) => Some(self.peers[i].1.score),
            None => None,
        }
    }

    /// Whether `id` is connected.
    pub fn is_connected(&self, id: u64) -> (r: bool)
        requires
            self.wf(),
        ensures
            r == self.connected(id),
    {
        match table_position(&self.peers, id) {
            Some(i) => self.peers[i].1.connected,
            None => false,
        }
    }

    fn record_weight(&self, i: usize) -> (r: u64)
        requires
            self.wf(),
            i < self.peers@.len(),
        ensures
            r == weight_of(self.allowed(), self.peers@[i as int]),
    {
        let e = self.peers[i];
        let allowed = if self.validator {
            &self.target_peers
        } else {
            &self.upstream_peers
        };
        if e.1.connected && contains_id(allowed, e.0) {
            e.1.score
        } else {
            0
        }
    }

    /// Whether no peer is eligible.
    pub fn is_empty(&self) -> (r: bool)
        requires
            self.wf(),
        ensures
            r == !self.has_eligible(),
    {
        proof {
            self.lemma_eligible_entry();
        }
        let mut i: usize = 0;
        while i < self.peers.len()
            invariant
                self.wf(),
                i <= self.peers@.len(),
                forall|j: int| 0 <= j < i ==> weight_of(self.allowed(), #[trigger] self.peers@[j]) == 0,
            decreases self.peers@.len() - i,
        {
            if self.record_weight(i) > 0 {
                proof {
                    self.lemma_eligible_entry();
                }
                return false;
            }
            i = i + 1;
        }
        proof {
            self.lemma_eligible_entry();
        }
        true
    }

    /// Picks an eligible peer, each with probability proportional to its score
    /// when `draw` is uniform.
    pub fn pick_peer(&self, draw: u64) -> (r: Option<u64>)
        requires
            self.wf(),
        ensures
            r == self.picked(draw),
            r.is_some() == self.has_eligible(),
            r matches Some(id) ==> self.eligible(id),
    {
        let n = self.peers.len();
        let mut total: u128 = 0;
        let mut i: usize = 0;
        while i < n
            invariant
                self.wf(),
                n == self.peers@.len(),
                i <= n,
                total == weight_upto(self.peers@, self.allowed(), i as int),
            decreases n - i,
        {
            proof {
                self.lemma_weight_bounds(i as int + 1);
                assert((i as int + 1) * MAX_SCORE <= 0x1_0000_0000_0000_0000 * MAX_SCORE)
                    by (nonlinear_arith)
                    requires
                        i < 0x1_0000_0000_0000_0000int,
                ;
            }
            total = total + self.record_weight(i) as u128;
            i = i + 1;
        }
        proof {
            lemma_weight_positive(self.peers@, self.allowed(), n as int);
            self.lemma_eligible_entry();
        }
        if total == 0 {
            return None;
        }
        let point: u128 = draw as u128 % total;
        let mut acc: u128 = 0;
        let mut i: usize = 0;
        while i < n
            invariant
                self.wf(),
                n == self.peers@.len(),
                i <= n,
                acc == weight_upto(self.peers@, self.allowed(), i as int),
                total == weight_upto(self.peers@, self.allowed(), n as int),
                point < total,
                point as int == draw as int % total as int,
                pick_within(self.peers@, self.allowed(), i as int, point as int).is_none(),
            decreases n - i,
        {
            proof {
                self.lemma_weight_bounds(n as int);
            }
            let w = self.record_weight(i);
            acc = acc + w as u128;
            if w > 0 && point < acc {
                proof {
                    assert(pick_within(self.peers@, self.allowed(), i as int + 1, point as int) == Some(
                        self.peers@[i as int].0,
                    ));
                    lemma_pick_stable(self.peers@, self.allowed(), i as int + 1, n as int, point as int);
                    self.lemma_eligible_entry();
                    assert(point as int == draw as int % total as int);
                    assert(self.picked(draw) == pick_within(self.peers@, self.allowed(), n as int, point as int));
                }
                return Some(self.peers[i].0);
            }
            i = i + 1;
        }
        proof {
            lemma_pick_within(self.peers@, self.allowed(), n as int, point as int);
        }
        None
    }

    /// Records that a chunk starting at `version` was requested from `id` at `now`.
    pub fn process_request(&mut self, version: u64, id: u64, now: u64)
        requires
            old(self).wf(),
        ensures
            final(self).wf(),
            final(self).is_validator() == old(self).is_validator(),
            final(self).allowed() == old(self).allowed(),
            final(self).records() == old(self).records(),
            final(self).peer_map() == old(self).peer_map(),
            final(self).request_map() == old(self).request_map().insert(
                version,
                RequestInfo { peer_id: id, sent_at: now },
            ),
    {
        table_put(&mut self.requests, version, RequestInfo { peer_id: id, sent_at: now });
    }

    /// Clears the outstanding request for `version`, whoever it went to.
    pub fn process_response(&mut self, version: u64)
        requires
            old(self).wf(),
        ensures
            final(self).wf(),
            final(self).is_validator() == old(self).is_validator(),
            final(self).allowed() == old(self).allowed(),
            final(self).records() == old(self).records(),
            final(self).peer_map() == old(self).peer_map(),
            final(self).request_map() == old(self).request_map().remove(version),
    {
        table_remove(&mut self.requests, version);
    }

    /// Whether the request for `version` is outstanding with `id`.
    pub fn has_requested(&self, version: u64, id: u64) -> (r: bool)
        requires
            self.wf(),
        ensures
            r == (self.request_map().contains_key(version) && self.request_map()[version].peer_id
                == id),
    {
        match table_position(&self.requests, version) {
            Some(i) => self.requests[i].1.peer_id == id,
            None => false,
        }
    }

    /// When the request for `version` was sent, if it is outstanding.
    pub fn get_request_time(&self, version: u64) -> (r: Option<u64>)
        requires
            self.wf(),
        ensures
            r == (if self.request_map().contains_key(version) {
                Some(self.request_map()[version].sent_at)
            } else {
                None::<u64>
            }),
    {
        match table_position(&self.requests, version) {
            Some(i) => Some(self.requests[i].1.sent_at),
            None => None,
        }
    }

    /// Drops every outstanding request for a version at or below `committed`.
    pub fn remove_requests(&mut self, committed: u64)
        requires
            old(self).wf(),
        ensures
            final(self).wf(),
            final(self).is_validator() == old(self).is_validator(),
            final(self).allowed() == old(self).allowed(),
            final(self).records() == old(self).records(),
            final(self).peer_map() == old(self).peer_map(),
            final(self).request_map() == old(self).request_map().restrict(keys_above(committed)),
    {
        table_keep_above(&mut self.requests, committed);
    }

    /// Penalizes with `Timeout` the peer that holds the request for `version`;
    /// with `drop_entry` the request is cleared as well.
    pub fn process_timeout(&mut self, version: u64, drop_entry: bool)
        requires
            old(self).wf(),
        ensures
            final(self).wf(),
            final(self).is_validator() == old(self).is_validator(),
            final(self).allowed() == old(self).allowed(),
            old(self).request_map().contains_key(version) ==> {
                let id = old(self).request_map()[version].peer_id;
                &&& final(self).peer_map() == adjusted(old(self).peer_map(), id, ScoreUpdate::Timeout)
                &&& final(self).records() == adjust_records(old(self).records(), id, ScoreUpdate::Timeout)
                &&& final(self).request_map() == (if drop_entry {
                    old(self).request_map().remove(version)
                } else {
                    old(self).request_map()
                })
            },
            !old(self).request_map().contains_key(version) ==> *final(self) == *old(self),
    {
        if let Some(i) = table_position(&self.requests, version) {
            let id = self.requests[i].1.peer_id;
            self.update_score(id, ScoreUpdate::Timeout);
            if drop_entry {
                table_remove(&mut self.requests, version);
            }
        }
    }
}

} // verus!
