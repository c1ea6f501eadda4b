use crate::address::{address_key, address_words, key_of, words_of, PeerAddress};
use crate::error::SPVError;
use rand::RngCore;
use vstd::prelude::*;

verus! {

/// How long a ban lasts, in seconds. The figure is 2 * 24 * 60 applied to a
/// clock in seconds: 48 minutes, although two days may have been meant. It is
/// kept as it stands.
pub const BAN_WINDOW: u32 = 2880;

/// How many random draws `get_a_peer` makes before it gives up.
pub const DRAW_ATTEMPTS: u32 = 100;

/// The stored fields of a peer record, apart from its key.
#[derive(Clone, Copy, Debug)]
pub struct PeerRow {
    pub port: u16,
    pub services: u64,
    pub last_seen: u32,
    pub banned_until: u32,
}

/// A statement on the peer table, keyed by the canonical address key.
#[derive(Debug)]
pub enum PeerWrite {
    /// update the last-seen time of the record under `key`, if there is one
    SetLastSeen { key: String, last_seen: u32 },
    /// insert a new record under `key`
    Insert { key: String, row: PeerRow },
    /// set the banned-until time of the record under `key`, if there is one
    SetBannedUntil { key: String, banned_until: u32 },
    /// delete the record under `key`, if there is one
    Delete { key: String },
}

/// What finalizing a transaction scope asks of the storage engine.
#[derive(Clone, Copy, Debug, PartialEq, Eq, Structural)]
pub enum Finalize {
    /// commit the engine's transaction
    Commit,
    /// roll the engine's transaction back
    Rollback,
    /// nothing was written: there is nothing to commit
    Skip,
}

/// The peer table as a map from address key to record.
pub open spec fn apply_write(t: Map<Seq<char>, PeerRow>, w: PeerWrite) -> Map<Seq<char>, PeerRow> {
    match w {
        PeerWrite::SetLastSeen { key, last_seen } => if t.contains_key(key@) {
            let r = t[key@];
            t.insert(
                key@,
                PeerRow {
                    port: r.port,
                    services: r.services,
                    last_seen: last_seen,
                    banned_until: r.banned_until,
                },
            )
        } else {
            t
        },
        PeerWrite::Insert { key, row } => t.insert(key@, row),
        PeerWrite::SetBannedUntil { key, banned_until } => if t.contains_key(key@) {
            let r = t[key@];
            t.insert(
                key@,
                PeerRow {
                    port: r.port,
                    services: r.services,
                    last_seen: r.last_seen,
                    banned_until: banned_until,
                },
            )
        } else {
            t
        },
        PeerWrite::Delete { key } => t.remove(key@),
    }
}

/// Storing a peer: a known address has its last-seen time updated and nothing
/// else; an unknown one is inserted with all fields as given.
pub open spec fn store_effect(
    t: Map<Seq<char>, PeerRow>,
    a: PeerAddress,
    last_seen: u32,
    banned_until: u32,
) -> Map<Seq<char>, PeerRow> {
    let k = key_of(a.address@);
    if t.contains_key(k) {
        let r = t[k];
        t.insert(
            k,
            PeerRow {
                port: r.port,
                services: r.services,
                last_seen: last_seen,
                banned_until: r.banned_until,
            },
        )
    } else {
        t.insert(
            k,
            PeerRow {
                port: a.port,
                services: a.services,
                last_seen: last_seen,
                banned_until: banned_until,
            },
        )
    }
}

/// Banning an address: its record, if there is one, is banned until exactly
/// `now + BAN_WINDOW`.
pub open spec fn ban_effect(t: Map<Seq<char>, PeerRow>, words: Seq<u16>, now: u32) -> Map<
    Seq<char>,
    PeerRow,
> {
    let k = key_of(words);
    if t.contains_key(k) {
        let r = t[k];
        t.insert(
            k,
            PeerRow {
                port: r.port,
                services: r.services,
                last_seen: r.last_seen,
                banned_until: (now + BAN_WINDOW) as u32,
            },
        )
    } else {
        t
    }
}

/// The birth rows that a stored inception, if any, stands for.
pub open spec fn birth_rows(stored: Option<u32>) -> Seq<u32> {
    match stored {
        Some(b) => seq![b],
        None => Seq::empty(),
    }
}

/// The birth table after schema bootstrap: a row with `now` is added only when
/// there is none.
pub open spec fn bootstrap_effect(births: Seq<u32>, now: u32) -> Seq<u32> {
    if births.len() == 0 {
        seq![now]
    } else {
        births
    }
}

/// One transaction scope on the peer store. It records whether any statement
/// was issued in it; it is consumed by `commit` or `rollback`, and one that is
/// dropped unfinalized leaves the store as a rollback would.
#[derive(Debug)]
pub struct TxScope {
    pub dirty: bool,
}

impl TxScope {
    /// A fresh scope, with nothing written yet.
    pub fn open() -> (r: TxScope)
        ensures
            !r.dirty,
    {
        TxScope { dirty: false }
    }

    /// Finalizes the scope with a commit: the engine commits only if a
    /// statement was issued; a clean scope commits as a no-op.
    pub fn commit(self) -> (r: Finalize)
        ensures
            r == (if self.dirty { Finalize::Commit } else { Finalize::Skip }),
    {
        if self.dirty {
            Finalize::Commit
        } else {
            Finalize::Skip
        }
    }

    /// Finalizes the scope with a rollback: everything issued in it is discarded.
    pub fn rollback(self) -> (r: Finalize)
        ensures
            r == Finalize::Rollback,
    {
        Finalize::Rollback
    }

    /// Schema bootstrap: given the stored inception time, if any, returns the
    /// inception to insert: `now` when there is none, nothing otherwise.
    pub fn create_tables(&mut self, stored_birth: Option<u32>, now: u32) -> (r: Option<u32>)
        ensures
            final(self).dirty,
            r == (if stored_birth is None { Some(now) } else { None::<u32> }),
            birth_rows(stored_birth) + birth_rows(r) == bootstrap_effect(
                birth_rows(stored_birth),
                now,
            ),
    {
        self.dirty = true;
        assert(birth_rows(stored_birth) + birth_rows(None) =~= birth_rows(stored_birth));
        assert(Seq::<u32>::empty() + seq![now] =~= seq![now]);
        match stored_birth {
            Some(_) => None,
            None => Some(now),
        }
    }

    /// The statement that stores a peer, given whether its key is `present`:
    /// an update of last-seen alone for a known key, an insert of the whole
    /// record for a new one.
    pub fn store_peer(
        &mut self,
        address: &PeerAddress,
        last_seen: u32,
        banned_until: u32,
        present: bool,
    ) -> (w: PeerWrite)
        ensures
            final(self).dirty,
            present ==> (w matches PeerWrite::SetLastSeen { key, last_seen: l } && key@ == key_of(
                address.address@,
            ) && l == last_seen),
            !present ==> (w matches PeerWrite::Insert { key, row } && key@ == key_of(
                address.address@,
            ) && row == (PeerRow {
                port: address.port,
                services: address.services,
                last_seen: last_seen,
                banned_until: banned_until,
            })),
            forall|t: Map<Seq<char>, PeerRow>|
                t.contains_key(key_of(address.address@)) == present ==> #[trigger] apply_write(
                    t,
                    w,
                ) == store_effect(t, *address, last_seen, banned_until),
    {
        self.dirty = true;
        let key = address_key(&address.address);
        if present {
            PeerWrite::SetLastSeen { key, last_seen }
        } else {
            PeerWrite::Insert {
                key,
                row: PeerRow {
                    port: address.port,
                    services: address.services,
                    last_seen,
                    banned_until,
                },
            }
        }
    }

    /// The statement that bans the peer at `words` until `now + BAN_WINDOW`,
    /// whatever ban it had before. The port plays no part.
    pub fn ban(&mut self, words: &[u16; 8], now: u32) -> (w: PeerWrite)
        requires
            now <= u32::MAX - BAN_WINDOW,
        ensures
            final(self).dirty,
            w matches PeerWrite::SetBannedUntil { key, banned_until } && key@ == key_of(words@)
                && banned_until == now + BAN_WINDOW,
            forall|t: Map<Seq<char>, PeerRow>| #[trigger]
                apply_write(t, w) == ban_effect(t, words@, now),
    {
        self.dirty = true;
        let key = address_key(words);
        PeerWrite::SetBannedUntil { key, banned_until: now + BAN_WINDOW }
    }

    /// The statement that deletes the peer at `words`. The port plays no part.
    pub fn remove_peer(&mut self, words: &[u16; 8]) -> (w: PeerWrite)
        ensures
            final(self).dirty,
            w matches PeerWrite::Delete { key } && key@ == key_of(words@),
            forall|t: Map<Seq<char>, PeerRow>| #[trigger]
                apply_write(t, w) == t.remove(key_of(words@)),
    {
        self.dirty = true;
        PeerWrite::Delete { key: address_key(words) }
    }
}

/// An address as the exclusion set of `get_a_peer` holds it: an IPv4 socket
/// address (`v4`, its address in the last two words) or an IPv6 one (all eight
/// words, with its flow label and scope id), with its port.
#[derive(Clone, Copy, Debug)]
pub struct Endpoint {
    pub address: [u16; 8],
    pub port: u16,
    pub v4: bool,
    pub flowinfo: u32,
    pub scope_id: u32,
}

/// A row as the store hands it back to `get_a_peer`.
#[derive(Debug)]
pub struct StoredPeer {
    pub key: String,
    pub port: u16,
    pub services: i64,
    pub banned_until: u32,
}

/// Onion addresses have no socket address.
pub open spec fn is_onion(w: Seq<u16>) -> bool {
    w[0] == 0xFD87 && w[1] == 0xD87E && w[2] == 0xEB43
}

/// Addresses `::a.b.c.d` and `::ffff:a.b.c.d` stand for the IPv4 address `a.b.c.d`.
pub open spec fn is_v4(w: Seq<u16>) -> bool {
    w[0] == 0 && w[1] == 0 && w[2] == 0 && w[3] == 0 && w[4] == 0 && (w[5] == 0 || w[5]
        == 0xffff)
}

/// Whether `e` is the socket address of the peer at `w` and `port`. A peer's
/// IPv6 socket address carries no flow label and no scope id.
pub open spec fn endpoint_matches(e: Endpoint, w: Seq<u16>, port: u16) -> bool {
    &&& e.port == port
    &&& e.v4 == is_v4(w)
    &&& if is_v4(w) {
        e.address@[6] == w[6] && e.address@[7] == w[7]
    } else {
        e.flowinfo == 0 && e.scope_id == 0 && e.address@ == w
    }
}

/// A drawn row may be handed out: its ban is over, it has a socket address,
/// and that address is not excluded.
pub open spec fn eligible(row: StoredPeer, now: u32, excluded: Seq<Endpoint>) -> bool {
    let w = words_of(row.key@);
    &&& row.banned_until < now
    &&& !is_onion(w)
    &&& forall|i: int| 0 <= i < excluded.len() ==> !endpoint_matches(#[trigger] excluded[i], w, row.port)
}

/// Relies on `rand::thread_rng` and `RngCore::next_u64`: any value may come back.
#[verifier::external_body]
fn random_u64() -> u64 {
    rand::thread_rng().next_u64()
}

fn endpoint_matches_exec(e: &Endpoint, w: &[u16; 8], port: u16) -> (r: bool)
    ensures
        r == endpoint_matches(*e, w@, port),
{
    let v4 = w[0] == 0 && w[1] == 0 && w[2] == 0 && w[3] == 0 && w[4] == 0 && (w[5] == 0
        || w[5] == 0xffff);
    if e.port != port || e.v4 != v4 {
        return false;
    }
    if v4 {
        e.address[6] == w[6] && e.address[7] == w[7]
    } else {
        if e.flowinfo != 0 || e.scope_id != 0 {
            return false;
        }
        let mut i: usize = 0;
        while i < 8
            invariant
                i <= 8,
                e.address@.len() == 8,
                w@.len() == 8,
                e.port == port,
                e.v4 == is_v4(w@),
                !is_v4(w@),
                e.flowinfo == 0 && e.scope_id == 0,
                forall|j: int| 0 <= j < i ==> e.address@[j] == w@[j],
            decreases 8 - i,
        {
            if e.address[i] != w[i] {
                assert(e.address@[i as int] != w@[i as int]);
                return false;
            }
            i = i + 1;
        }
        assert(e.address@ =~= w@);
        true
    }
}

/// The randomized, ban-aware choice of a peer: up to `DRAW_ATTEMPTS` draws of
/// a uniformly random row position among all rows, each judged on its own.
#[derive(Debug)]
pub struct PeerDraw {
    pub n_peers: u64,
    pub attempts: u32,
}

impl PeerDraw {
    /// Starts a draw over a table of `n_peers` rows; an empty table has no
    /// peers to offer.
    pub fn new(n_peers: i64) -> (r: Result<PeerDraw, SPVError>)
        ensures
            n_peers <= 0 <==> r is Err,
            r matches Err(e) ==> e is NoPeers,
            r matches Ok(d) ==> d.n_peers == n_peers && d.attempts == 0,
    {
        if n_peers <= 0 {
            Err(SPVError::NoPeers)
        } else {
            Ok(PeerDraw { n_peers: n_peers as u64, attempts: 0 })
        }
    }

    /// The row position of a draw of the value `drawn`: `drawn` reduced to a
    /// position from 1 to the number of rows. Once every attempt is spent, the
    /// draw gives up with no peers.
    pub fn next_position(&mut self, drawn: u64) -> (r: Result<u64, SPVError>)
        requires
            old(self).n_peers > 0,
        ensures
            final(self).n_peers == old(self).n_peers,
            old(self).attempts < DRAW_ATTEMPTS ==> (r matches Ok(p) && p == drawn % old(
                self,
            ).n_peers + 1 && final(self).attempts == old(self).attempts + 1),
            old(self).attempts >= DRAW_ATTEMPTS ==> (r matches Err(e) && e is NoPeers
                && final(self).attempts == old(self).attempts),
    {
        if self.attempts >= DRAW_ATTEMPTS {
            return Err(SPVError::NoPeers);
        }
        self.attempts = self.attempts + 1;
        Ok(drawn % self.n_peers + 1)
    }

    /// Draws a random row position, from 1 to the number of rows; once every
    /// attempt is spent, the draw gives up with no peers.
    pub fn draw_position(&mut self) -> (r: Result<u64, SPVError>)
        requires
            old(self).n_peers > 0,
        ensures
            final(self).n_peers == old(self).n_peers,
            old(self).attempts < DRAW_ATTEMPTS ==> (r matches Ok(p) && 1 <= p <= old(self).n_peers
                && final(self).attempts == old(self).attempts + 1),
            old(self).attempts >= DRAW_ATTEMPTS ==> (r matches Err(e) && e is NoPeers
                && final(self).attempts == old(self).attempts),
    {
        if self.attempts >= DRAW_ATTEMPTS {
            return Err(SPVError::NoPeers);
        }
        let drawn = random_u64();
        self.next_position(drawn)
    }

    /// Judges a drawn row: the peer it stands for if the row is eligible.
    pub fn judge(&self, row: &StoredPeer, now: u32, excluded: &Vec<Endpoint>) -> (r: Option<
        PeerAddress,
    >)
        requires
            row.key@.len() >= 32,
        ensures
            r is Some <==> eligible(*row, now, excluded@),
            r matches Some(p) ==> p.address@ == words_of(row.key@) && p.port == row.port
                && p.services == row.services as u64,
    {
        if row.banned_until >= now {
            return None;
        }
        let w = address_words(row.key.as_str());
        if w[0] == 0xFD87 && w[1] == 0xD87E && w[2] == 0xEB43 {
            return None;
        }
        let mut i: usize = 0;
        while i < excluded.len()
            invariant
                i <= excluded@.len(),
                w@ == words_of(row.key@),
                forall|j: int| 0 <= j < i ==> !endpoint_matches(#[trigger] excluded@[j], w@, row.port),
            decreases excluded@.len() - i,
        {
            if endpoint_matches_exec(&excluded[i], &w, row.port) {
                return None;
            }
            i = i + 1;
        }
        Some(PeerAddress { address: w, port: row.port, services: row.services as u64 })
    }
}

/// Storing the same network address twice keeps the later last-seen time and
/// ignores the second store's port, services and ban: a record that existed
/// before keeps its own, and a new one keeps what the first store gave it.
/// Other records are untouched.
pub proof fn lemma_store_twice(
    t: Map<Seq<char>, PeerRow>,
    a1: PeerAddress,
    seen1: u32,
    banned1: u32,
    a2: PeerAddress,
    seen2: u32,
    banned2: u32,
)
    requires
        a2.address@ == a1.address@,
    ensures
        ({
            let k = key_of(a1.address@);
            let t2 = store_effect(store_effect(t, a1, seen1, banned1), a2, seen2, banned2);
            &&& t2.contains_key(k)
            &&& t2[k].last_seen == seen2
            &&& t.contains_key(k) ==> t2[k].port == t[k].port && t2[k].services == t[k].services
                && t2[k].banned_until == t[k].banned_until
            &&& !t.contains_key(k) ==> t2[k].port == a1.port && t2[k].services == a1.services
                && t2[k].banned_until == banned1
            &&& forall|k2: Seq<char>| k2 != k ==> (#[trigger] t2.contains_key(k2) == t.contains_key(k2)
                && (t.contains_key(k2) ==> t2[k2] == t[k2]))
        }),
{
}

/// A ban sets the ban end to exactly `now + BAN_WINDOW`, also where an earlier
/// ban lasted longer; nothing else changes.
pub proof fn lemma_ban_exact(t: Map<Seq<char>, PeerRow>, words: Seq<u16>, now: u32)
    requires
        now <= u32::MAX - BAN_WINDOW,
    ensures
        ({
            let k = key_of(words);
            let t2 = ban_effect(t, words, now);
            &&& t2.dom() == t.dom()
            &&& t.contains_key(k) ==> t2[k] == (PeerRow {
                port: t[k].port,
                services: t[k].services,
                last_seen: t[k].last_seen,
                banned_until: (now + BAN_WINDOW) as u32,
            })
            &&& forall|k2: Seq<char>| k2 != k && #[trigger] t.contains_key(k2) ==> t2[k2] == t[k2]
        }),
{
    assert(ban_effect(t, words, now).dom() =~= t.dom());
}

/// Bootstrapping the schema twice leaves one birth row, with the inception of
/// the first bootstrap, or the stored one if there was one already.
pub proof fn lemma_bootstrap_twice(births: Seq<u32>, now1: u32, now2: u32)
    requires
        births.len() <= 1,
    ensures
        bootstrap_effect(bootstrap_effect(births, now1), now2) == bootstrap_effect(births, now1),
        bootstrap_effect(births, now1).len() == 1,
        births.len() == 1 ==> bootstrap_effect(births, now1) == births,
        births.len() == 0 ==> bootstrap_effect(births, now1)[0] == now1,
{
}

} // verus!
