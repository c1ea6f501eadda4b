use vstd::prelude::*;

verus! {

/// How many requests the block server's mailbox holds before senders block.
pub const MAILBOX_DEPTH: usize = 10;

/// The most headers sent in reply to one `getheaders` request.
pub const HEADERS_LIMIT: usize = 2000;

/// The most trunk positions walked for one `getblocks` request.
pub const BLOCKS_LIMIT: usize = 500;

/// What the block server's mailbox yields.
#[derive(Clone, Copy, Debug, PartialEq, Eq, Structural)]
pub enum Inbound {
    GetHeaders,
    GetBlocks,
    GetData,
    /// any other protocol message
    OtherMessage,
    /// a connection event rather than a message
    Control,
    /// every sender of the mailbox is gone
    Disconnected,
}

/// What the block server does with what its mailbox yields.
#[derive(Clone, Copy, Debug, PartialEq, Eq, Structural)]
pub enum Handler {
    Headers,
    Blocks,
    Data,
    /// nothing to do; wait for the next message
    Skip,
    /// the mailbox is closed: the server stops
    Stop,
}

/// Routes what the mailbox yields: the three request shapes to their handlers,
/// anything else is passed over, and a closed mailbox stops the server.
pub fn dispatch(msg: Inbound) -> (h: Handler)
    ensures
        h == (match msg {
            Inbound::GetHeaders => Handler::Headers,
            Inbound::GetBlocks => Handler::Blocks,
            Inbound::GetData => Handler::Data,
            Inbound::Disconnected => Handler::Stop,
            _ => Handler::Skip,
        }),
{
    match msg {
        Inbound::GetHeaders => Handler::Headers,
        Inbound::GetBlocks => Handler::Blocks,
        Inbound::GetData => Handler::Data,
        Inbound::Disconnected => Handler::Stop,
        Inbound::OtherMessage | Inbound::Control => Handler::Skip,
    }
}

/// The scan of a locator list for its first hash on the trunk. Locators are
/// asked about in order; the scan ends at the first one on the trunk, and
/// later ones are never asked about.
pub struct LocatorScan {
    pub n_locators: usize,
    /// the next locator to ask about
    pub next: usize,
    /// the first locator found on the trunk
    pub matched: Option<usize>,
    /// the answers so far, in the order asked
    pub answers: Ghost<Seq<bool>>,
}

impl LocatorScan {
    pub open spec fn wf(&self) -> bool {
        &&& self.next <= self.n_locators
        &&& forall|i: int| 0 <= i < self.next ==> !#[trigger] self.answers@[i]
        &&& match self.matched {
            None => self.answers@.len() == self.next,
            Some(m) => {
                &&& m == self.next
                &&& m < self.n_locators
                &&& self.answers@.len() == m + 1
                &&& self.answers@[m as int]
            },
        }
    }

    /// A scan of `n_locators` locators, none asked about yet.
    pub fn new(n_locators: usize) -> (r: LocatorScan)
        ensures
            r.wf(),
            r.n_locators == n_locators,
            r.next == 0,
            r.matched is None,
            r.answers@ == Seq::<bool>::empty(),
    {
        LocatorScan { n_locators, next: 0, matched: None, answers: Ghost(Seq::empty()) }
    }

    /// The locator to ask about next, or none once the scan is over.
    pub fn probe(&self) -> (r: Option<usize>)
        ensures
            r == (if self.matched is None && self.next < self.n_locators {
                Some(self.next)
            } else {
                None::<usize>
            }),
    {
        if self.matched.is_none() && self.next < self.n_locators {
            Some(self.next)
        } else {
            None
        }
    }

    /// Records whether the locator just asked about is on the trunk.
    pub fn answer(&mut self, on_trunk: bool)
        requires
            old(self).wf(),
            old(self).matched is None,
            old(self).next < old(self).n_locators,
        ensures
            final(self).wf(),
            final(self).n_locators == old(self).n_locators,
            final(self).answers@ == old(self).answers@.push(on_trunk),
            on_trunk ==> final(self).matched == Some(old(self).next) && final(self).next
                == old(self).next,
            !on_trunk ==> final(self).matched is None && final(self).next == old(self).next + 1,
    {
        self.answers = Ghost(self.answers@.push(on_trunk));
        if on_trunk {
            self.matched = Some(self.next);
        } else {
            self.next = self.next + 1;
        }
    }
}

/// The first locator on the trunk wins: the match is the first true answer, and
/// no locator after it was asked about. A scan that ends without a match found
/// none on the trunk.
pub proof fn lemma_first_match_wins(scan: LocatorScan)
    requires
        scan.wf(),
    ensures
        scan.matched matches Some(m) ==> scan.answers@.len() == m + 1 && scan.answers@[m as int]
            && forall|i: int| 0 <= i < m ==> !#[trigger] scan.answers@[i],
        scan.matched is None && scan.next == scan.n_locators ==> scan.answers@.len()
            == scan.n_locators && forall|i: int|
            0 <= i < scan.answers@.len() ==> !#[trigger] scan.answers@[i],
{
}

/// Which reply a walk along the trunk builds.
#[derive(Clone, Copy, Debug, PartialEq, Eq, Structural)]
pub enum WalkKind {
    /// one header per position, sent together at the end
    Headers,
    /// one block per position that has a stored body, each sent at once
    Blocks,
}

/// The positions, counted from the one after the match, that a walk emits:
/// every one for headers, those with a stored body for blocks, in trunk order.
pub open spec fn emitted_positions(kind: WalkKind, bodies: Seq<bool>) -> Seq<int>
    decreases bodies.len(),
{
    if bodies.len() == 0 {
        Seq::empty()
    } else {
        let rest = emitted_positions(kind, bodies.drop_last());
        if kind == WalkKind::Headers || bodies.last() {
            rest.push(bodies.len() - 1)
        } else {
            rest
        }
    }
}

pub open spec fn walk_limit(kind: WalkKind) -> usize {
    match kind {
        WalkKind::Headers => HEADERS_LIMIT,
        WalkKind::Blocks => BLOCKS_LIMIT,
    }
}

/// The walk from the matched locator toward the tip, bounded by the reply's
/// limit. A block is recorded as sent only once its body was fetched; a failed
/// fetch ends the walk, and that block is not sent.
pub struct TrunkWalk {
    pub kind: WalkKind,
    pub limit: usize,
    /// how many positions were taken
    pub taken: usize,
    /// the body of the last position taken is being fetched
    pub pending: bool,
    /// a fetch failed: the walk is over
    pub failed: bool,
    /// for each position taken, whether it had a stored body
    pub bodies: Ghost<Seq<bool>>,
    /// the positions emitted so far: headers put in the batch, blocks sent
    pub emitted: Ghost<Seq<int>>,
}

impl TrunkWalk {
    /// How many positions are dealt with: all those taken, but for one whose
    /// fetch is pending or failed.
    pub open spec fn settled(&self) -> int {
        if self.pending || self.failed {
            self.taken - 1
        } else {
            self.taken as int
        }
    }

    pub open spec fn wf(&self) -> bool {
        &&& self.limit == walk_limit(self.kind)
        &&& self.taken <= self.limit
        &&& self.bodies@.len() == self.taken
        &&& !(self.pending && self.failed)
        &&& (self.pending || self.failed) ==> self.kind == WalkKind::Blocks && self.taken > 0
            && self.bodies@.last()
        &&& self.emitted@ == emitted_positions(self.kind, self.bodies@.take(self.settled()))
    }

    /// A walk for a reply of `kind`, nothing taken yet.
    pub fn new(kind: WalkKind) -> (r: TrunkWalk)
        ensures
            r.wf(),
            r.kind == kind,
            r.taken == 0,
            !r.pending,
            !r.failed,
    {
        let limit = match kind {
            WalkKind::Headers => HEADERS_LIMIT,
            WalkKind::Blocks => BLOCKS_LIMIT,
        };
        let r = TrunkWalk {
            kind,
            limit,
            taken: 0,
            pending: false,
            failed: false,
            bodies: Ghost(Seq::empty()),
            emitted: Ghost(Seq::empty()),
        };
        assert(r.bodies@.take(0) =~= Seq::<bool>::empty());
        r
    }

    /// Whether the walk takes another position, if the trunk has one.
    pub fn wants_position(&self) -> (r: bool)
        ensures
            r == (!self.failed && !self.pending && self.taken < self.limit),
    {
        !self.failed && !self.pending && self.taken < self.limit
    }

    /// Takes the next position; `has_body` says whether it has a stored body.
    /// Returns whether the position is emitted: for headers, its header goes
    /// into the batch at once; for blocks, its body is to be fetched, and
    /// `delivered` or `fetch_failed` says how that went.
    pub fn take(&mut self, has_body: bool) -> (emit: bool)
        requires
            old(self).wf(),
            !old(self).failed,
            !old(self).pending,
            old(self).taken < old(self).limit,
        ensures
            final(self).wf(),
            final(self).kind == old(self).kind,
            !final(self).failed,
            final(self).taken == old(self).taken + 1,
            final(self).bodies@ == old(self).bodies@.push(has_body),
            emit == (old(self).kind == WalkKind::Headers || has_body),
            final(self).pending == (old(self).kind == WalkKind::Blocks && has_body),
            final(self).emitted@ == (if old(self).kind == WalkKind::Headers {
                old(self).emitted@.push(old(self).taken as int)
            } else {
                old(self).emitted@
            }),
    {
        let emit = match self.kind {
            WalkKind::Headers => true,
            WalkKind::Blocks => has_body,
        };
        let ghost old_bodies = self.bodies@;
        proof {
            let nb = old_bodies.push(has_body);
            assert(old_bodies.take(self.taken as int) =~= old_bodies);
            assert(nb.take(self.taken as int) =~= old_bodies);
            assert(nb.take(self.taken + 1) =~= nb);
            assert(nb.drop_last() =~= old_bodies);
        }
        self.bodies = Ghost(self.bodies@.push(has_body));
        match self.kind {
            WalkKind::Headers => {
                self.emitted = Ghost(self.emitted@.push(self.taken as int));
            },
            WalkKind::Blocks => {
                self.pending = has_body;
            },
        }
        self.taken = self.taken + 1;
        emit
    }

    /// Records that the pending body was fetched and its block sent.
    pub fn delivered(&mut self)
        requires
            old(self).wf(),
            old(self).pending,
        ensures
            final(self).wf(),
            !final(self).pending,
            !final(self).failed,
            final(self).kind == old(self).kind,
            final(self).taken == old(self).taken,
            final(self).bodies == old(self).bodies,
            final(self).emitted@ == old(self).emitted@.push(old(self).taken - 1),
    {
        proof {
            let b = self.bodies@;
            assert(b.take(self.taken as int) =~= b);
            assert(b.drop_last() =~= b.take(self.taken - 1));
        }
        self.pending = false;
        self.emitted = Ghost(self.emitted@.push(self.taken - 1));
    }

    /// Records that fetching the pending body failed: that block is not sent,
    /// and the walk ends there.
    pub fn fetch_failed(&mut self)
        requires
            old(self).wf(),
            old(self).pending,
        ensures
            final(self).wf(),
            final(self).failed,
            !final(self).pending,
            final(self).kind == old(self).kind,
            final(self).taken == old(self).taken,
            final(self).bodies == old(self).bodies,
            final(self).emitted == old(self).emitted,
    {
        self.pending = false;
        self.failed = true;
    }

    /// Whether a batch of headers is sent at the end: only for a headers walk
    /// that took at least one position.
    pub fn sends_batch(&self) -> (r: bool)
        ensures
            r == (self.kind == WalkKind::Headers && self.taken > 0),
    {
        match self.kind {
            WalkKind::Headers => self.taken > 0,
            WalkKind::Blocks => false,
        }
    }
}

proof fn lemma_emitted_facts(kind: WalkKind, bodies: Seq<bool>)
    ensures
        emitted_positions(kind, bodies).len() <= bodies.len(),
        forall|j: int|
            0 <= j < emitted_positions(kind, bodies).len() ==> 0 <= #[trigger] emitted_positions(
                kind,
                bodies,
            )[j] < bodies.len() && (kind == WalkKind::Headers || bodies[emitted_positions(
                kind,
                bodies,
            )[j]]),
        forall|j: int, k: int|
            #![trigger emitted_positions(kind, bodies)[j], emitted_positions(kind, bodies)[k]]
            0 <= j < k < emitted_positions(kind, bodies).len() ==> emitted_positions(kind, bodies)[j]
                < emitted_positions(kind, bodies)[k],
        (forall|i: int| 0 <= i < bodies.len() ==> #[trigger] bodies[i]) || kind == WalkKind::Headers
            ==> emitted_positions(kind, bodies) == Seq::new(bodies.len(), |i: int| i),
    decreases bodies.len(),
{
    if bodies.len() > 0 {
        lemma_emitted_facts(kind, bodies.drop_last());
        let rest = emitted_positions(kind, bodies.drop_last());
        if (forall|i: int| 0 <= i < bodies.len() ==> #[trigger] bodies[i]) || kind
            == WalkKind::Headers {
            assert(forall|i: int|
                0 <= i < bodies.drop_last().len() ==> #[trigger] bodies.drop_last()[i]
                    == bodies[i]);
            assert(emitted_positions(kind, bodies) =~= Seq::new(bodies.len(), |i: int| i));
        }
    }
}

proof fn lemma_emitted_is_filter(kind: WalkKind, bodies: Seq<bool>, n: int)
    requires
        0 <= n <= bodies.len(),
    ensures
        emitted_positions(kind, bodies.take(n)) == Seq::new(n as nat, |i: int| i).filter(
            |i: int| kind == WalkKind::Headers || bodies[i],
        ),
    decreases n,
{
    reveal(Seq::filter);
    let pred = |i: int| kind == WalkKind::Headers || bodies[i];
    if n == 0 {
        assert(bodies.take(0) =~= Seq::<bool>::empty());
        assert(Seq::new(0, |i: int| i) =~= Seq::<int>::empty());
    } else {
        lemma_emitted_is_filter(kind, bodies, n - 1);
        assert(bodies.take(n).drop_last() =~= bodies.take(n - 1));
        assert(Seq::new(n as nat, |i: int| i).drop_last() =~= Seq::new((n - 1) as nat, |i: int| i));
        assert(Seq::new(n as nat, |i: int| i).last() == n - 1);
        assert(bodies.take(n).last() == bodies[n - 1]);
    }
}

/// A walk emits positions in trunk order, each at most once, and exactly those
/// it owes among the positions it dealt with: every position for headers,
/// those with a stored body for blocks; positions without a body are passed
/// over, and a block whose fetch is pending or failed is not among them. When
/// every such position has a body, a blocks walk emits all of them, as a
/// headers walk always does. No walk takes more positions than its limit.
pub proof fn lemma_walk_emits_in_order(walk: TrunkWalk)
    requires
        walk.wf(),
    ensures
        walk.taken <= walk_limit(walk.kind),
        0 <= walk.settled() <= walk.taken,
        forall|j: int, k: int|
            #![trigger walk.emitted@[j], walk.emitted@[k]]
            0 <= j < k < walk.emitted@.len() ==> walk.emitted@[j] < walk.emitted@[k],
        forall|j: int|
            0 <= j < walk.emitted@.len() ==> 0 <= #[trigger] walk.emitted@[j] < walk.settled() && (
            walk.kind == WalkKind::Headers || walk.bodies@[walk.emitted@[j]]),
        (forall|i: int| 0 <= i < walk.settled() ==> #[trigger] walk.bodies@[i]) || walk.kind
            == WalkKind::Headers ==> walk.emitted@ == Seq::new(walk.settled() as nat, |i: int| i),
        walk.emitted@ == Seq::new(walk.settled() as nat, |i: int| i).filter(
            |i: int| walk.kind == WalkKind::Headers || walk.bodies@[i],
        ),
{
    let d = walk.settled();
    let b = walk.bodies@.take(d);
    lemma_emitted_facts(walk.kind, b);
    lemma_emitted_is_filter(walk.kind, walk.bodies@, d);
    assert forall|i: int| 0 <= i < d implies #[trigger] b[i] == walk.bodies@[i] by {}
    if (forall|i: int| 0 <= i < d ==> #[trigger] walk.bodies@[i]) {
        assert forall|i: int| 0 <= i < b.len() implies #[trigger] b[i] by {
            assert(b[i] == walk.bodies@[i]);
        }
    }
}

/// The kind of object an inventory item names.
#[derive(Clone, Copy, Debug, PartialEq, Eq, Structural)]
pub enum InvKind {
    Error,
    Transaction,
    Block,
    WitnessBlock,
    WitnessTransaction,
}

/// The positions of the items of a `getdata` request that are served: the
/// witness blocks, in request order.
pub open spec fn served_items(kinds: Seq<InvKind>) -> Seq<int>
    decreases kinds.len(),
{
    if kinds.len() == 0 {
        Seq::empty()
    } else {
        let rest = served_items(kinds.drop_last());
        if kinds.last() == InvKind::WitnessBlock {
            rest.push(kinds.len() - 1)
        } else {
            rest
        }
    }
}

/// The items of a `getdata` request to look up, in request order: the witness
/// blocks. Items of any other kind are passed over without error.
pub fn wanted_items(kinds: &Vec<InvKind>) -> (r: Vec<usize>)
    ensures
        r@.len() == served_items(kinds@).len(),
        forall|j: int| 0 <= j < r@.len() ==> #[trigger] r@[j] as int == served_items(kinds@)[j],
{
    let mut r: Vec<usize> = Vec::new();
    let mut i: usize = 0;
    while i < kinds.len()
        invariant
            i <= kinds@.len(),
            r@.len() == served_items(kinds@.take(i as int)).len(),
            forall|j: int|
                0 <= j < r@.len() ==> #[trigger] r@[j] as int == served_items(kinds@.take(i as int))[j],
        decreases kinds@.len() - i,
    {
        assert(kinds@.take(i + 1).drop_last() =~= kinds@.take(i as int));
        if kinds[i] == InvKind::WitnessBlock {
            r.push(i);
        }
        i = i + 1;
    }
    assert(kinds@.take(kinds@.len() as int) =~= kinds@);
    r
}

proof fn lemma_served_items_facts(kinds: Seq<InvKind>)
    ensures
        forall|j: int|
            0 <= j < served_items(kinds).len() ==> 0 <= #[trigger] served_items(kinds)[j]
                < kinds.len() && kinds[served_items(kinds)[j]] == InvKind::WitnessBlock,
        forall|i: int|
            0 <= i < kinds.len() && #[trigger] kinds[i] == InvKind::WitnessBlock ==> served_items(
                kinds,
            ).contains(i),
    decreases kinds.len(),
{
    if kinds.len() > 0 {
        lemma_served_items_facts(kinds.drop_last());
        let rest = served_items(kinds.drop_last());
        assert forall|i: int|
            0 <= i < kinds.len() && #[trigger] kinds[i] == InvKind::WitnessBlock implies served_items(
                kinds,
            ).contains(i) by {
            if i < kinds.len() - 1 {
                assert(kinds.drop_last()[i] == kinds[i]);
                let j = choose|j: int| 0 <= j < rest.len() && rest[j] == i;
                if kinds.last() == InvKind::WitnessBlock {
                    assert(served_items(kinds)[j] == i);
                }
            } else {
                assert(served_items(kinds)[rest.len() as int] == i);
            }
        }
    }
}

/// A `getdata` request serves exactly its witness-block items: an item of any
/// other kind is never looked up.
pub proof fn lemma_only_witness_blocks_served(kinds: Seq<InvKind>, i: int)
    requires
        0 <= i < kinds.len(),
    ensures
        served_items(kinds).contains(i) <==> kinds[i] == InvKind::WitnessBlock,
{
    lemma_served_items_facts(kinds);
}

/// The items that a `getdata` request looks up are its witness-block items, in
/// request order: the same as for the request with every other item removed.
pub proof fn lemma_served_is_witness_filter<H>(items: Seq<(InvKind, H)>)
    ensures
        served_items(items.map_values(|p: (InvKind, H)| p.0)).map_values(|i: int| items[i])
            == items.filter(|p: (InvKind, H)| p.0 == InvKind::WitnessBlock),
    decreases items.len(),
{
    reveal(Seq::filter);
    let kinds = items.map_values(|p: (InvKind, H)| p.0);
    if items.len() == 0 {
        assert(served_items(kinds) =~= Seq::<int>::empty());
        assert(served_items(kinds).map_values(|i: int| items[i]) =~= items);
    } else {
        let rest = items.drop_last();
        lemma_served_is_witness_filter(rest);
        let rkinds = rest.map_values(|p: (InvKind, H)| p.0);
        assert(kinds.drop_last() =~= rkinds);
        lemma_served_items_facts(rkinds);
        let sr = served_items(rkinds);
        assert(sr.map_values(|i: int| items[i]) =~= sr.map_values(|i: int| rest[i]));
        if kinds.last() == InvKind::WitnessBlock {
            assert(served_items(kinds).map_values(|i: int| items[i]) =~= sr.map_values(
                |i: int| items[i],
            ).push(items.last()));
        } else {
            assert(served_items(kinds).map_values(|i: int| items[i]) =~= sr.map_values(
                |i: int| items[i],
            ));
        }
    }
}

/// The items of a `getdata` request that are sent: those looked up (see
/// `served_items`) whose header was found with a stored body, in order.
pub open spec fn sent_items(wanted: Seq<int>, sendable: Seq<bool>) -> Seq<int>
    decreases sendable.len(),
{
    if sendable.len() == 0 {
        Seq::empty()
    } else {
        let rest = sent_items(wanted, sendable.drop_last());
        if sendable.last() {
            rest.push(wanted[sendable.len() - 1])
        } else {
            rest
        }
    }
}

/// The serving of a `getdata` request: its witness-block items are looked up
/// in order; one whose header is unknown or has no stored body is passed
/// over. An item is recorded as sent only once its body was fetched; a failed
/// fetch ends the request, and that item is not sent.
pub struct DataServe {
    /// the items to look up, by position in the request
    pub wanted: Vec<usize>,
    /// how many of them were looked up
    pub next: usize,
    /// the body of the last item looked up is being fetched
    pub pending: bool,
    /// a fetch failed: the request is over
    pub failed: bool,
    /// for each item looked up, whether it had a header with a stored body
    pub sendable: Ghost<Seq<bool>>,
    /// the items sent so far
    pub sent: Ghost<Seq<int>>,
}

impl DataServe {
    /// How many items are dealt with: all those looked up, but for one whose
    /// fetch is pending or failed.
    pub open spec fn settled(&self) -> int {
        if self.pending || self.failed {
            self.next - 1
        } else {
            self.next as int
        }
    }

    pub open spec fn wf(&self) -> bool {
        &&& self.next <= self.wanted@.len()
        &&& self.sendable@.len() == self.next
        &&& !(self.pending && self.failed)
        &&& (self.pending || self.failed) ==> self.next > 0 && self.sendable@.last()
        &&& self.sent@ == sent_items(
            self.wanted@.map_values(|i: usize| i as int),
            self.sendable@.take(self.settled()),
        )
    }

    /// The serving of a request whose items have the given kinds.
    pub fn new(kinds: &Vec<InvKind>) -> (r: DataServe)
        ensures
            r.wf(),
            r.wanted@.map_values(|i: usize| i as int) == served_items(kinds@),
            r.next == 0,
            !r.pending,
            !r.failed,
    {
        let wanted = wanted_items(kinds);
        assert(wanted@.map_values(|i: usize| i as int) =~= served_items(kinds@));
        let r = DataServe {
            wanted,
            next: 0,
            pending: false,
            failed: false,
            sendable: Ghost(Seq::empty()),
            sent: Ghost(Seq::empty()),
        };
        assert(r.sendable@.take(0) =~= Seq::<bool>::empty());
        r
    }

    /// The position in the request of the next item to look up, or none once
    /// the request is done or has failed, or while a fetch is pending.
    pub fn next_item(&self) -> (r: Option<usize>)
        requires
            self.wf(),
        ensures
            r == (if !self.failed && !self.pending && self.next < self.wanted@.len() {
                Some(self.wanted@[self.next as int])
            } else {
                None::<usize>
            }),
    {
        if !self.failed && !self.pending && self.next < self.wanted.len() {
            Some(self.wanted[self.next])
        } else {
            None
        }
    }

    /// Records the lookup of the current item: `found_with_body` says whether
    /// its header is known and has a stored body. Returns whether its body is
    /// to be fetched; `delivered` or `fetch_failed` says how that went.
    pub fn take(&mut self, found_with_body: bool) -> (fetch: bool)
        requires
            old(self).wf(),
            !old(self).failed,
            !old(self).pending,
            old(self).next < old(self).wanted@.len(),
        ensures
            final(self).wf(),
            final(self).wanted == old(self).wanted,
            !final(self).failed,
            final(self).pending == found_with_body,
            final(self).next == old(self).next + 1,
            final(self).sendable@ == old(self).sendable@.push(found_with_body),
            fetch == found_with_body,
            final(self).sent == old(self).sent,
    {
        proof {
            let o = self.sendable@;
            let n = o.push(found_with_body);
            assert(o.take(self.next as int) =~= o);
            assert(n.take(self.next as int) =~= o);
            assert(n.take(self.next + 1) =~= n);
            assert(n.drop_last() =~= o);
        }
        self.sendable = Ghost(self.sendable@.push(found_with_body));
        self.pending = found_with_body;
        let n = self.wanted.len();
        assert(self.next < n);
        self.next = self.next + 1;
        found_with_body
    }

    /// Records that the pending body was fetched and its block sent.
    pub fn delivered(&mut self)
        requires
            old(self).wf(),
            old(self).pending,
        ensures
            final(self).wf(),
            !final(self).pending,
            !final(self).failed,
            final(self).wanted == old(self).wanted,
            final(self).next == old(self).next,
            final(self).sendable == old(self).sendable,
            final(self).sent@ == old(self).sent@.push(old(self).wanted@[old(self).next - 1] as int),
    {
        proof {
            let b = self.sendable@;
            assert(b.take(self.next as int) =~= b);
            assert(b.drop_last() =~= b.take(self.next - 1));
        }
        self.pending = false;
        self.sent = Ghost(self.sent@.push(self.wanted@[self.next - 1] as int));
    }

    /// Records that fetching the pending body failed: that item is not sent,
    /// and the rest of the request is dropped.
    pub fn fetch_failed(&mut self)
        requires
            old(self).wf(),
            old(self).pending,
        ensures
            final(self).wf(),
            final(self).failed,
            !final(self).pending,
            final(self).wanted == old(self).wanted,
            final(self).next == old(self).next,
            final(self).sendable == old(self).sendable,
            final(self).sent == old(self).sent,
    {
        self.pending = false;
        self.failed = true;
    }
}

} // verus!
