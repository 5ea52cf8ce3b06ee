//! Transactional store for terminal commit directives.
//!
//! DECRQM replies carry no application nonce. The filesystem store supplies
//! the missing transaction identity and serializes all relay servers that feed
//! one physical tmux client. What a directive must hold, which of the stored
//! ones answers a terminal reply, and which are cleared away is decided here;
//! reading and writing the files is left to the caller.

use vstd::prelude::*;
use vstd::string::*;

use crate::digest::{digest_name, digest_prefix, is_hex_char};
use crate::navigation::outer::{hex_digits, is_hex_digit};
use crate::navigation::system::{is_pane, valid_pane};
use crate::relay::protocol::{valid_wire, wire_pair, VERSION};
use crate::text::{
    any_equal, decimal, parse_number, parsed, push_decimal, same, strings, strip_suffix, trim,
    trimmed,
};

verus! {

/// Action deferred until the terminal confirms output ordering.
#[derive(Clone, Copy, Debug, PartialEq, Eq, Structural)]
pub enum DirectiveAction {
    /// Execute the selected navigation action in this tmux server.
    Execute,
    /// Forward the terminal receipt into the next nested tmux pane.
    Forward,
}

/// Durable directive. When it was published is known to the file that holds
/// it, not to the rules here.
#[derive(Debug, PartialEq, Eq)]
pub struct Directive {
    /// Wire version.
    pub v: u8,
    /// Request nonce.
    pub nonce: String,
    /// Monotonic per-server publication order.
    pub seq: u64,
    /// Deferred action kind.
    pub action: DirectiveAction,
    /// Whether outward preparation has completed.
    pub ready: bool,
    /// Whether the terminal reply handler has claimed this record.
    pub claimed: bool,
    /// Process that owns the pending transaction.
    pub owner_pid: u32,
    /// Exact tmux server socket.
    pub tmux_socket: String,
    /// Session selected with the physical client snapshot.
    pub session: String,
    /// Exact physical client tty.
    pub local_client_tty: String,
    /// Exact physical client PID.
    pub local_client_pid: u32,
    /// tmux client creation time guarding PID/tty reuse.
    pub local_client_created: u64,
    /// Request start time used by bounded focus selection.
    pub started_at: u64,
    /// Pane expected to execute a local action.
    pub expected_pane: Option<String>,
    /// Session-qualified target for a local action.
    pub target_pane: Option<String>,
    /// Relay wire scope for a local action.
    pub scope: Option<String>,
    /// Direction for a local action.
    pub direction: Option<String>,
    /// Pane that receives the next commit key for a forwarding action.
    pub forward_pane: Option<String>,
}

/// A request nonce: twelve hexadecimal digits.
pub open spec fn is_nonce(value: Seq<char>) -> bool {
    value.len() == 12 && forall|i: int| 0 <= i < value.len() ==> is_hex_digit(#[trigger] value[i])
}

/// Whether a text is a request nonce.
pub fn valid_nonce(value: &str) -> (result: bool)
    ensures
        result == is_nonce(value@),
{
    hex_digits(value, 12)
}

/// The physical client that a directive waits for.
pub open spec fn awaits(directive: Directive, tty: Seq<char>, pid: u32, created: u64) -> bool {
    directive.local_client_tty@ == tty && directive.local_client_pid == pid
        && directive.local_client_created == created
}

/// A text that may be absent.
pub open spec fn text_or_empty(value: Option<String>) -> Seq<char> {
    match value {
        Some(value) => value@,
        None => Seq::empty(),
    }
}

fn str_or_empty<'a>(value: &'a Option<String>) -> (text: &'a str)
    ensures
        text@ == text_or_empty(*value),
{
    match value {
        Some(value) => value.as_str(),
        None => {
            proof {
                reveal_strlit("");
                assert(""@ =~= Seq::empty());
            }
            ""
        },
    }
}

impl Directive {
    /// The complete schema of the action at hand.
    pub open spec fn well_formed(self) -> bool {
        &&& self.v == VERSION
        &&& is_nonce(self.nonce@)
        &&& self.tmux_socket@.len() > 0
        &&& self.session@.len() > 0
        &&& self.local_client_tty@.len() > 0
        &&& self.local_client_pid != 0
        &&& match self.action {
            DirectiveAction::Execute => {
                &&& self.expected_pane is Some && is_pane(self.expected_pane->0@)
                &&& self.target_pane is Some && self.target_pane->0@.len() > 0
                &&& wire_pair(text_or_empty(self.scope), text_or_empty(self.direction))
            },
            DirectiveAction::Forward => {
                self.forward_pane is Some && is_pane(self.forward_pane->0@)
            },
        }
    }

    /// Validate the complete action-specific schema before publication/claim.
    #[must_use]
    pub fn valid(&self) -> (result: bool)
        ensures
            result == self.well_formed(),
    {
        if self.v != VERSION || !valid_nonce(self.nonce.as_str())
            || self.tmux_socket.as_str().is_empty() || self.session.as_str().is_empty()
            || self.local_client_tty.as_str().is_empty() || self.local_client_pid == 0 {
            return false;
        }
        match self.action {
            DirectiveAction::Execute => {
                let expected = match &self.expected_pane {
                    Some(pane) => valid_pane(pane.as_str()),
                    None => false,
                };
                let target = match &self.target_pane {
                    Some(pane) => !pane.as_str().is_empty(),
                    None => false,
                };
                expected && target && valid_wire(
                    str_or_empty(&self.scope),
                    str_or_empty(&self.direction),
                )
            },
            DirectiveAction::Forward => match &self.forward_pane {
                Some(pane) => valid_pane(pane.as_str()),
                None => false,
            },
        }
    }

    /// Whether the directive waits for exactly this physical client.
    pub fn waits_for(&self, tty: &str, pid: u32, created: u64) -> (result: bool)
        ensures
            result == awaits(*self, tty@, pid, created),
    {
        same(self.local_client_tty.as_str(), tty) && self.local_client_pid == pid
            && self.local_client_created == created
    }

    /// Give a directive its place in the publication order.
    pub fn arm(&mut self, owner_pid: u32, seq: u64)
        ensures
            *final(self) == (Directive {
                ready: false,
                claimed: false,
                owner_pid,
                seq,
                ..*old(self)
            }),
    {
        self.ready = false;
        self.claimed = false;
        self.owner_pid = owner_pid;
        self.seq = seq;
    }

    /// Make a prepared directive visible to the terminal's reply.
    pub fn commit(&mut self)
        ensures
            *final(self) == (Directive { ready: true, ..*old(self) }),
    {
        self.ready = true;
    }

    /// Mark a directive as answered by a terminal's reply.
    pub fn claim(&mut self)
        ensures
            *final(self) == (Directive { claimed: true, ..*old(self) }),
    {
        self.claimed = true;
    }
}

/// One stored file that may hold a directive.
#[derive(Debug)]
pub struct Entry {
    /// The directive, where the file holds a valid one.
    pub directive: Option<Directive>,
    /// Whether it was published so long ago that preparation must have failed.
    pub stale: bool,
    /// Whether its owner still runs.
    pub owner_alive: bool,
}

/// What is done to a stored file.
#[derive(Clone, Copy, Debug, PartialEq, Eq, Structural)]
pub enum Step {
    /// The file at this index is removed.
    Remove(usize),
    /// The file at this index is removed, and its client's commit stream is
    /// poisoned: a reply may still arrive that nobody waits for.
    RemoveAndPoison(usize),
    /// The directive at this index is claimed.
    Claim(usize),
}

/// Where an entry stands in the order of claims; an unreadable one comes last.
pub open spec fn claim_rank(entry: Entry) -> u64 {
    match entry.directive {
        Some(directive) => directive.seq,
        None => u64::MAX,
    }
}

/// Whether an entry is looked at on behalf of a client.
pub open spec fn considered(entry: Entry, tty: Seq<char>, pid: u32, created: u64) -> bool {
    match entry.directive {
        Some(directive) => awaits(directive, tty, pid, created),
        None => true,
    }
}

/// Whether an entry may be claimed for a server.
pub open spec fn claimable(entry: Entry, socket: Seq<char>) -> bool {
    &&& entry.directive is Some
    &&& entry.owner_alive
    &&& entry.directive->0.ready && !entry.directive->0.claimed
    &&& entry.directive->0.tmux_socket@ == socket
}

/// An order with one more index, behind everything of the same rank.
pub open spec fn placed(entries: Seq<Entry>, order: Seq<int>, k: int) -> Seq<int>
    decreases order.len(),
{
    if order.len() == 0 || claim_rank(entries[order.last()]) <= claim_rank(entries[k]) {
        order.push(k)
    } else {
        placed(entries, order.drop_last(), k).push(order.last())
    }
}

/// The entries that are looked at, among the first `n`, oldest first.
pub open spec fn claim_order(
    entries: Seq<Entry>,
    tty: Seq<char>,
    pid: u32,
    created: u64,
    n: int,
) -> Seq<int>
    decreases n,
{
    if n <= 0 {
        Seq::empty()
    } else {
        let before = claim_order(entries, tty, pid, created, n - 1);
        if considered(entries[n - 1], tty, pid, created) {
            placed(entries, before, n - 1)
        } else {
            before
        }
    }
}

/// What is done to the entries in turn: unreadable and orphaned ones are
/// cleared away until one is claimed.
pub open spec fn claim_steps(entries: Seq<Entry>, socket: Seq<char>, order: Seq<int>) -> Seq<Step>
    decreases order.len(),
{
    if order.len() == 0 {
        Seq::empty()
    } else {
        let k = order[0];
        let entry = entries[k];
        let rest = claim_steps(entries, socket, order.drop_first());
        match entry.directive {
            None => seq![Step::Remove(k as usize)] + rest,
            Some(directive) => if !entry.owner_alive {
                if directive.ready {
                    seq![Step::RemoveAndPoison(k as usize)] + rest
                } else {
                    seq![Step::Remove(k as usize)] + rest
                }
            } else if claimable(entry, socket) {
                seq![Step::Claim(k as usize)]
            } else {
                rest
            },
        }
    }
}

/// The positions that machine integers hold.
pub open spec fn indices(values: Seq<usize>) -> Seq<int> {
    Seq::new(values.len(), |i: int| values[i] as int)
}

fn rank_of(entry: &Entry) -> (rank: u64)
    ensures
        rank == claim_rank(*entry),
{
    match &entry.directive {
        Some(directive) => directive.seq,
        None => u64::MAX,
    }
}

proof fn lemma_placed_insert(entries: Seq<Entry>, order: Seq<int>, k: int, at: int)
    requires
        0 <= at <= order.len(),
        at > 0 ==> claim_rank(entries[order[at - 1]]) <= claim_rank(entries[k]),
        forall|j: int|
            at <= j < order.len() ==> claim_rank(entries[#[trigger] order[j]]) > claim_rank(
                entries[k],
            ),
    ensures
        placed(entries, order, k) == order.insert(at, k),
    decreases order.len(),
{
    if at == order.len() {
        assert(order.insert(at, k) =~= order.push(k));
    } else {
        let shorter = order.drop_last();
        assert(order.last() == order[order.len() - 1]);
        assert forall|j: int| at <= j < shorter.len() implies claim_rank(
            entries[#[trigger] shorter[j]],
        ) > claim_rank(entries[k]) by {
            assert(shorter[j] == order[j]);
        }
        lemma_placed_insert(entries, shorter, k, at);
        assert(order.insert(at, k) =~= shorter.insert(at, k).push(order.last()));
    }
}

/// Plan which stored directive a client's terminal reply answers, and what is
/// cleared away on the way to it.
pub fn claim_plan(entries: &[Entry], socket: &str, tty: &str, pid: u32, created: u64) -> (steps: Vec<
    Step,
>)
    ensures
        steps@ == claim_steps(
            entries@,
            socket@,
            claim_order(entries@, tty@, pid, created, entries@.len() as int),
        ),
{
    let mut order: Vec<usize> = Vec::new();
    let mut n: usize = 0;
    assert(indices(order@) =~= claim_order(entries@, tty@, pid, created, 0));
    while n < entries.len()
        invariant
            n <= entries.len(),
            indices(order@) == claim_order(entries@, tty@, pid, created, n as int),
            forall|j: int| 0 <= j < order@.len() ==> #[trigger] order@[j] < n,
        decreases entries.len() - n,
    {
        let entry = &entries[n];
        let looked_at = match &entry.directive {
            Some(directive) => directive.waits_for(tty, pid, created),
            None => true,
        };
        if looked_at {
            let rank = rank_of(entry);
            let mut at: usize = order.len();
            while at > 0 && rank_of(&entries[order[at - 1]]) > rank
                invariant
                    at <= order@.len(),
                    n < entries@.len(),
                    rank == claim_rank(entries@[n as int]),
                    forall|j: int| 0 <= j < order@.len() ==> #[trigger] order@[j] < n,
                    forall|j: int|
                        at <= j < order@.len() ==> claim_rank(
                            entries@[#[trigger] indices(order@)[j]],
                        ) > rank,
                decreases at,
            {
                assert(indices(order@)[at - 1] == order@[at - 1]);
                at = at - 1;
            }
            proof {
                if at > 0 {
                    assert(indices(order@)[at - 1] == order@[at - 1]);
                }
                lemma_placed_insert(entries@, indices(order@), n as int, at as int);
            }
            let ghost before = order@;
            order.insert(at, n);
            assert(indices(order@) =~= indices(before).insert(at as int, n as int));
        }
        n = n + 1;
    }
    let ghost all = indices(order@);
    let mut steps: Vec<Step> = Vec::new();
    let mut i: usize = 0;
    assert(all.skip(0) =~= all);
    assert(steps@ + claim_steps(entries@, socket@, all) =~= claim_steps(entries@, socket@, all));
    while i < order.len()
        invariant
            i <= order@.len(),
            all == indices(order@),
            all == claim_order(entries@, tty@, pid, created, entries@.len() as int),
            forall|j: int| 0 <= j < order@.len() ==> #[trigger] order@[j] < entries@.len(),
            steps@ + claim_steps(entries@, socket@, all.skip(i as int)) == claim_steps(
                entries@,
                socket@,
                all,
            ),
        decreases order.len() - i,
    {
        let k: usize = order[i];
        let ghost rest = all.skip(i as int);
        let ghost before = steps@;
        assert(rest[0] == k as int);
        assert(rest.drop_first() =~= all.skip(i + 1));
        let entry = &entries[k];
        match &entry.directive {
            None => {
                steps.push(Step::Remove(k));
            },
            Some(directive) => {
                if !entry.owner_alive {
                    if directive.ready {
                        steps.push(Step::RemoveAndPoison(k));
                    } else {
                        steps.push(Step::Remove(k));
                    }
                } else if directive.ready && !directive.claimed && same(
                    directive.tmux_socket.as_str(),
                    socket,
                ) {
                    steps.push(Step::Claim(k));
                    assert(steps@ =~= before + claim_steps(entries@, socket@, rest));
                    return steps;
                }
            },
        }
        assert(steps@ + claim_steps(entries@, socket@, all.skip(i + 1)) =~= before + claim_steps(
            entries@,
            socket@,
            rest,
        ));
        i = i + 1;
    }
    assert(steps@ + claim_steps(entries@, socket@, all.skip(i as int)) =~= steps@);
    steps
}

proof fn lemma_placed(entries: Seq<Entry>, order: Seq<int>, k: int)
    requires
        forall|i: int, j: int|
            0 <= i < j < order.len() ==> claim_rank(entries[#[trigger] order[i]]) <= claim_rank(
                entries[#[trigger] order[j]],
            ),
    ensures
        forall|i: int, j: int|
            0 <= i < j < placed(entries, order, k).len() ==> claim_rank(
                entries[#[trigger] placed(entries, order, k)[i]],
            ) <= claim_rank(entries[#[trigger] placed(entries, order, k)[j]]),
        forall|x: int|
            #[trigger] placed(entries, order, k).contains(x) <==> order.contains(x) || x == k,
    decreases order.len(),
{
    if order.len() == 0 || claim_rank(entries[order.last()]) <= claim_rank(entries[k]) {
        let result = order.push(k);
        assert forall|x: int| #[trigger] result.contains(x) <==> order.contains(x) || x == k by {
            if order.contains(x) {
                let i = choose|i: int| 0 <= i < order.len() && order[i] == x;
                assert(result[i] == x);
            }
            if x == k {
                assert(result[order.len() as int] == x);
            }
        }
        if order.len() > 0 {
            assert(order.last() == order[order.len() - 1]);
        }
    } else {
        let shorter = order.drop_last();
        assert(order.last() == order[order.len() - 1]);
        lemma_placed(entries, shorter, k);
        let inner = placed(entries, shorter, k);
        let result = inner.push(order.last());
        assert forall|x: int| #[trigger] result.contains(x) <==> order.contains(x) || x == k by {
            if result.contains(x) {
                let i = choose|i: int| 0 <= i < result.len() && result[i] == x;
                if i < inner.len() {
                    assert(inner[i] == x);
                    assert(inner.contains(x));
                    if shorter.contains(x) {
                        let j = choose|j: int| 0 <= j < shorter.len() && shorter[j] == x;
                        assert(order[j] == x);
                    }
                } else {
                    assert(order[order.len() - 1] == x);
                }
            }
            if order.contains(x) {
                let i = choose|i: int| 0 <= i < order.len() && order[i] == x;
                if i < shorter.len() {
                    assert(shorter[i] == x);
                    assert(inner.contains(x));
                    let j = choose|j: int| 0 <= j < inner.len() && inner[j] == x;
                    assert(result[j] == x);
                } else {
                    assert(result[inner.len() as int] == x);
                }
            }
            if x == k {
                assert(inner.contains(x));
                let j = choose|j: int| 0 <= j < inner.len() && inner[j] == x;
                assert(result[j] == x);
            }
        }
        assert forall|i: int, j: int| 0 <= i < j < result.len() implies claim_rank(
            entries[#[trigger] result[i]],
        ) <= claim_rank(entries[#[trigger] result[j]]) by {
            if j == inner.len() {
                let x = inner[i];
                assert(inner.contains(x));
                if shorter.contains(x) {
                    let m = choose|m: int| 0 <= m < shorter.len() && shorter[m] == x;
                    assert(order[m] == x);
                }
            }
        }
    }
}

/// The order of claims holds exactly the entries that are looked at for the
/// client, and their ranks never decrease.
pub proof fn lemma_claim_order(
    entries: Seq<Entry>,
    tty: Seq<char>,
    pid: u32,
    created: u64,
    n: int,
)
    requires
        0 <= n <= entries.len(),
    ensures
        ({
            let order = claim_order(entries, tty, pid, created, n);
            &&& forall|i: int, j: int|
                0 <= i < j < order.len() ==> claim_rank(entries[#[trigger] order[i]])
                    <= claim_rank(entries[#[trigger] order[j]])
            &&& forall|x: int|
                #[trigger] order.contains(x) <==> 0 <= x < n && considered(
                    entries[x],
                    tty,
                    pid,
                    created,
                )
        }),
    decreases n,
{
    if n > 0 {
        lemma_claim_order(entries, tty, pid, created, n - 1);
        lemma_placed(entries, claim_order(entries, tty, pid, created, n - 1), n - 1);
    }
}

proof fn lemma_claim_steps(entries: Seq<Entry>, socket: Seq<char>, order: Seq<int>, i: int)
    requires
        entries.len() <= usize::MAX,
        forall|j: int| 0 <= j < order.len() ==> 0 <= #[trigger] order[j] < entries.len(),
        0 <= i < claim_steps(entries, socket, order).len(),
        claim_steps(entries, socket, order)[i] is Claim,
    ensures
        i == claim_steps(entries, socket, order).len() - 1,
        ({
            let k = claim_steps(entries, socket, order)[i]->Claim_0 as int;
            exists|m: int|
                0 <= m < order.len() && #[trigger] order[m] == k && claimable(
                    entries[k],
                    socket,
                ) && forall|l: int|
                    0 <= l < m ==> !claimable(entries[#[trigger] order[l]], socket)
        }),
    decreases order.len(),
{
    let k = order[0];
    let rest = order.drop_first();
    let steps = claim_steps(entries, socket, order);
    let later = claim_steps(entries, socket, rest);
    if !claimable(entries[k], socket) {
        let shift: int = steps.len() - later.len();
        assert forall|j: int| 0 <= j < rest.len() implies 0 <= #[trigger] rest[j]
            < entries.len() by {
            assert(rest[j] == order[j + 1]);
        }
        assert(steps[i] == later[i - shift]);
        lemma_claim_steps(entries, socket, rest, i - shift);
        let c = steps[i]->Claim_0 as int;
        let m = choose|m: int|
            0 <= m < rest.len() && #[trigger] rest[m] == c && claimable(entries[c], socket)
                && forall|l: int| 0 <= l < m ==> !claimable(entries[#[trigger] rest[l]], socket);
        assert(order[m + 1] == c);
        assert forall|l: int| 0 <= l < m + 1 implies !claimable(
            entries[#[trigger] order[l]],
            socket,
        ) by {
            if l > 0 {
                assert(rest[l - 1] == order[l]);
            }
        }
    } else {
        assert(steps =~= seq![Step::Claim(k as usize)]);
        assert(order[0] == k);
    }
}

/// A terminal reply claims at most one directive, as the last step: one that
/// waits for exactly this client and server, is ready, unclaimed and owned by
/// a live process, and none such was published before it.
pub proof fn lemma_claim_is_oldest(
    entries: Seq<Entry>,
    socket: Seq<char>,
    tty: Seq<char>,
    pid: u32,
    created: u64,
    i: int,
)
    requires
        entries.len() <= usize::MAX,
        ({
            let steps = claim_steps(
                entries,
                socket,
                claim_order(entries, tty, pid, created, entries.len() as int),
            );
            0 <= i < steps.len() && steps[i] is Claim
        }),
    ensures
        ({
            let steps = claim_steps(
                entries,
                socket,
                claim_order(entries, tty, pid, created, entries.len() as int),
            );
            let k = steps[i]->Claim_0 as int;
            &&& i == steps.len() - 1
            &&& 0 <= k < entries.len()
            &&& claimable(entries[k], socket)
            &&& awaits(entries[k].directive->0, tty, pid, created)
            &&& forall|j: int|
                0 <= j < entries.len() && claimable(#[trigger] entries[j], socket) && awaits(
                    entries[j].directive->0,
                    tty,
                    pid,
                    created,
                ) ==> entries[k].directive->0.seq <= entries[j].directive->0.seq
        }),
{
    let order = claim_order(entries, tty, pid, created, entries.len() as int);
    lemma_claim_order(entries, tty, pid, created, entries.len() as int);
    assert forall|j: int| 0 <= j < order.len() implies 0 <= #[trigger] order[j]
        < entries.len() by {
        assert(order.contains(order[j]));
    }
    lemma_claim_steps(entries, socket, order, i);
    let steps = claim_steps(entries, socket, order);
    let k = steps[i]->Claim_0 as int;
    let m = choose|m: int|
        0 <= m < order.len() && #[trigger] order[m] == k && claimable(entries[k], socket)
            && forall|l: int| 0 <= l < m ==> !claimable(entries[#[trigger] order[l]], socket);
    assert(order.contains(k));
    assert forall|j: int|
        0 <= j < entries.len() && claimable(#[trigger] entries[j], socket) && awaits(
            entries[j].directive->0,
            tty,
            pid,
            created,
        ) implies entries[k].directive->0.seq <= entries[j].directive->0.seq by {
        assert(order.contains(j));
        let l = choose|l: int| 0 <= l < order.len() && order[l] == j;
        assert(!(l < m));
        if l > m {
            assert(claim_rank(entries[order[m]]) <= claim_rank(entries[order[l]]));
        }
    }
}

/// Where some considered directive can be claimed, one is: a terminal reply is
/// left without a directive only where none waits for it.
pub proof fn lemma_claimable_is_claimed(
    entries: Seq<Entry>,
    socket: Seq<char>,
    tty: Seq<char>,
    pid: u32,
    created: u64,
    k: int,
)
    requires
        entries.len() <= usize::MAX,
        0 <= k < entries.len(),
        claimable(entries[k], socket),
        awaits(entries[k].directive->0, tty, pid, created),
    ensures
        ({
            let steps = claim_steps(
                entries,
                socket,
                claim_order(entries, tty, pid, created, entries.len() as int),
            );
            steps.len() > 0 && steps.last() is Claim
        }),
{
    let order = claim_order(entries, tty, pid, created, entries.len() as int);
    lemma_claim_order(entries, tty, pid, created, entries.len() as int);
    assert(order.contains(k));
    let m = choose|m: int| 0 <= m < order.len() && order[m] == k;
    lemma_claim_reached(entries, socket, order, m);
}

proof fn lemma_claim_reached(entries: Seq<Entry>, socket: Seq<char>, order: Seq<int>, m: int)
    requires
        0 <= m < order.len(),
        claimable(entries[order[m]], socket),
    ensures
        claim_steps(entries, socket, order).len() > 0,
        claim_steps(entries, socket, order).last() is Claim,
    decreases order.len(),
{
    if !claimable(entries[order[0]], socket) {
        let rest = order.drop_first();
        assert(rest[m - 1] == order[m]);
        lemma_claim_reached(entries, socket, rest, m - 1);
        let later = claim_steps(entries, socket, rest);
        let steps = claim_steps(entries, socket, order);
        assert(steps.last() == later.last());
    }
}

/// No directive is claimed twice: one that a reply has claimed, and that still
/// stands in the store with its mark, perhaps committed again, is claimed by no
/// later reply of any client.
pub proof fn lemma_claimed_once(
    directive: Directive,
    entries: Seq<Entry>,
    socket: Seq<char>,
    tty: Seq<char>,
    pid: u32,
    created: u64,
    m: int,
)
    requires
        entries.len() <= usize::MAX,
        0 <= m < entries.len(),
        entries[m].directive == Some(Directive { claimed: true, ..directive })
            || entries[m].directive == Some(Directive { claimed: true, ready: true, ..directive }),
    ensures
        !claim_steps(
            entries,
            socket,
            claim_order(entries, tty, pid, created, entries.len() as int),
        ).contains(Step::Claim(m as usize)),
{
    let steps = claim_steps(
        entries,
        socket,
        claim_order(entries, tty, pid, created, entries.len() as int),
    );
    if steps.contains(Step::Claim(m as usize)) {
        let i = choose|i: int| 0 <= i < steps.len() && steps[i] == Step::Claim(m as usize);
        lemma_claim_is_oldest(entries, socket, tty, pid, created, i);
    }
}

/// What publishing a directive finds among the stored ones, from index `i` on:
/// what is cleared away, and whether the client already waits for a reply.
pub open spec fn outstanding(
    entries: Seq<Entry>,
    tty: Seq<char>,
    pid: u32,
    created: u64,
    i: int,
) -> (Seq<Step>, bool)
    decreases entries.len() - i,
{
    if i < 0 || i >= entries.len() {
        (Seq::empty(), false)
    } else {
        let entry = entries[i];
        let rest = outstanding(entries, tty, pid, created, i + 1);
        match entry.directive {
            Some(directive) if awaits(directive, tty, pid, created) => {
                if !directive.ready && entry.stale {
                    (seq![Step::Remove(i as usize)] + rest.0, rest.1)
                } else if !entry.owner_alive {
                    if directive.ready {
                        (seq![Step::RemoveAndPoison(i as usize)], true)
                    } else {
                        (seq![Step::Remove(i as usize)] + rest.0, rest.1)
                    }
                } else {
                    (Seq::empty(), true)
                }
            },
            _ => rest,
        }
    }
}

/// Find out whether a client already waits for a reply, and what is cleared
/// away on the way.
pub fn matching_exists(entries: &[Entry], tty: &str, pid: u32, created: u64) -> (result: (
    Vec<Step>,
    bool,
))
    ensures
        (result.0@, result.1) == outstanding(entries@, tty@, pid, created, 0),
{
    let mut steps: Vec<Step> = Vec::new();
    let mut i: usize = 0;
    let ghost whole = outstanding(entries@, tty@, pid, created, 0);
    assert(steps@ + whole.0 =~= whole.0);
    while i < entries.len()
        invariant
            i <= entries.len(),
            whole == outstanding(entries@, tty@, pid, created, 0),
            steps@ + outstanding(entries@, tty@, pid, created, i as int).0 == whole.0,
            outstanding(entries@, tty@, pid, created, i as int).1 == whole.1,
        decreases entries.len() - i,
    {
        let ghost before = steps@;
        let ghost rest = outstanding(entries@, tty@, pid, created, i + 1);
        let entry = &entries[i];
        if let Some(directive) = &entry.directive {
            if directive.waits_for(tty, pid, created) {
                if !directive.ready && entry.stale {
                    steps.push(Step::Remove(i));
                } else if !entry.owner_alive {
                    if directive.ready {
                        steps.push(Step::RemoveAndPoison(i));
                        assert(steps@ =~= whole.0);
                        return (steps, true);
                    }
                    steps.push(Step::Remove(i));
                } else {
                    assert(steps@ =~= whole.0);
                    return (steps, true);
                }
            }
        }
        assert(steps@ + rest.0 =~= before + outstanding(entries@, tty@, pid, created, i as int).0);
        i = i + 1;
    }
    assert(steps@ =~= whole.0);
    (steps, false)
}

/// A live directive of the client is never cleared away, and it keeps a second
/// one from being published.
pub proof fn lemma_outstanding_protects(
    entries: Seq<Entry>,
    tty: Seq<char>,
    pid: u32,
    created: u64,
    i: int,
    j: int,
)
    requires
        0 <= i <= j < entries.len() <= usize::MAX,
        entries[j].directive is Some,
        awaits(entries[j].directive->0, tty, pid, created),
        entries[j].owner_alive,
        entries[j].directive->0.ready || !entries[j].stale,
    ensures
        outstanding(entries, tty, pid, created, i).1,
        forall|k: int|
            0 <= k < outstanding(entries, tty, pid, created, i).0.len() ==> (
            #[trigger] outstanding(entries, tty, pid, created, i).0[k]) != Step::Remove(j as usize)
                && outstanding(entries, tty, pid, created, i).0[k] != Step::RemoveAndPoison(
                j as usize,
            ),
    decreases entries.len() - i,
{
    if i < j {
        lemma_outstanding_protects(entries, tty, pid, created, i + 1, j);
        let rest = outstanding(entries, tty, pid, created, i + 1);
        let whole = outstanding(entries, tty, pid, created, i);
        assert forall|k: int| 0 <= k < whole.0.len() implies (#[trigger] whole.0[k])
            != Step::Remove(j as usize) && whole.0[k] != Step::RemoveAndPoison(j as usize) by {
            if whole.0.len() == rest.0.len() && whole.0 == rest.0 {
                assert(whole.0[k] == rest.0[k]);
            } else if k > 0 {
                assert(whole.0[k] == rest.0[k - 1]);
            }
        }
    }
}

/// Why a directive is not published.
#[derive(Clone, Copy, Debug, PartialEq, Eq, Structural)]
pub enum ArmError {
    /// It is malformed or belongs to another server.
    Invalid,
    /// A reply of its client was lost, so the next one cannot be told apart.
    Poisoned,
    /// Its client already waits for a reply.
    Outstanding,
    /// Its nonce was already answered.
    Answered,
}

impl ArmError {
    /// The message that reports the refusal.
    pub open spec fn text(self) -> Seq<char> {
        match self {
            ArmError::Invalid => "invalid directive"@,
            ArmError::Poisoned => "client commit stream is poisoned"@,
            ArmError::Outstanding => "client already has an outstanding directive"@,
            ArmError::Answered => "directive result already exists"@,
        }
    }

    /// The message that reports the refusal.
    pub fn message(self) -> (text: &'static str)
        ensures
            text@ == self.text(),
    {
        match self {
            ArmError::Invalid => "invalid directive",
            ArmError::Poisoned => "client commit stream is poisoned",
            ArmError::Outstanding => "client already has an outstanding directive",
            ArmError::Answered => "directive result already exists",
        }
    }
}

/// Whether a directive is published on a server, given the names of the stored
/// files and whether its client already waits. A mark poisons the stream of its
/// client, and a result means that the nonce was answered.
pub open spec fn verdict_for(
    directive: Directive,
    socket: Seq<char>,
    names: Seq<Seq<char>>,
    waiting: bool,
) -> Result<(), ArmError> {
    if !directive.well_formed() || directive.tmux_socket@ != socket {
        Err(ArmError::Invalid)
    } else if names.contains(poison_file(directive)) {
        Err(ArmError::Poisoned)
    } else if waiting {
        Err(ArmError::Outstanding)
    } else if names.contains(result_file(directive.nonce@)) {
        Err(ArmError::Answered)
    } else {
        Ok(())
    }
}

/// Decide whether a directive is published on a server.
pub fn arm_verdict(
    directive: &Directive,
    socket: &str,
    names: &[String],
    waiting: bool,
) -> (verdict: Result<(), ArmError>)
    ensures
        verdict == verdict_for(*directive, socket@, strings(names@), waiting),
{
    if !directive.valid() || !same(directive.tmux_socket.as_str(), socket) {
        return Err(ArmError::Invalid);
    }
    let poison = poison_name(
        directive.local_client_tty.as_str(),
        directive.local_client_pid,
        directive.local_client_created,
    );
    if any_equal(names, poison.as_str()) {
        return Err(ArmError::Poisoned);
    }
    if waiting {
        return Err(ArmError::Outstanding);
    }
    if any_equal(names, result_name(directive.nonce.as_str()).as_str()) {
        return Err(ArmError::Answered);
    }
    Ok(())
}

/// The sequence number that follows the one a sequence file holds.
pub fn next_sequence(content: Option<&str>) -> (next: u64)
    ensures
        ({
            let last = match content {
                Some(content) => match parsed(trimmed(content@), u64::MAX as nat) {
                    Some(value) => value,
                    None => 0,
                },
                None => 0,
            };
            next == (if last < u64::MAX {
                last + 1
            } else {
                last
            })
        }),
{
    let last: u64 = match content {
        Some(content) => match parse_number(trim(content), u64::MAX) {
            Some(value) => value,
            None => 0,
        },
        None => 0,
    };
    if last < u64::MAX {
        last + 1
    } else {
        last
    }
}

/// Whether a stored file may hold a directive, by its name.
pub open spec fn may_hold_directive(name: Seq<char>) -> bool {
    ".json"@.is_suffix_of(name) && name.len() > ".json"@.len()
}

/// Whether a stored file may hold a directive, by its name.
pub fn is_directive_file(name: &str) -> (result: bool)
    ensures
        result == may_hold_directive(name@),
{
    match strip_suffix(name, ".json") {
        Some(stem) => !stem.is_empty(),
        None => false,
    }
}

/// The name of the file that holds the directive with that nonce.
pub open spec fn directive_file(nonce: Seq<char>) -> Seq<char> {
    nonce + ".json"@
}

/// The file that holds the directive with that nonce.
pub fn directive_name(nonce: &str) -> (name: String)
    ensures
        name@ == directive_file(nonce@),
{
    let mut name = String::from_str(nonce);
    name.append(".json");
    name
}

/// The name of the file that holds the answer to that nonce.
pub open spec fn result_file(nonce: Seq<char>) -> Seq<char> {
    nonce + ".result"@
}

/// The file that holds the answer to that nonce.
pub fn result_name(nonce: &str) -> (name: String)
    ensures
        name@ == result_file(nonce@),
{
    let mut name = String::from_str(nonce);
    name.append(".result");
    name
}

/// The identity of a physical client.
pub open spec fn client_identity(tty: Seq<char>, pid: u32, created: u64) -> Seq<char> {
    tty + "\0"@ + decimal(pid as nat) + "\0"@ + decimal(created as nat)
}

/// The name of the mark that poisons a client's commit stream.
pub open spec fn poison_mark(tty: Seq<char>, pid: u32, created: u64) -> Seq<char> {
    ".poison-"@ + digest_name(client_identity(tty, pid, created), 16)
}

/// The name of the mark that poisons the stream of a directive's client.
pub open spec fn poison_file(directive: Directive) -> Seq<char> {
    poison_mark(
        directive.local_client_tty@,
        directive.local_client_pid,
        directive.local_client_created,
    )
}

/// Whether a name has the shape of a mark.
pub open spec fn is_mark(name: Seq<char>) -> bool {
    &&& ".poison-"@.is_prefix_of(name)
    &&& name.len() == ".poison-"@.len() + 16
    &&& forall|i: int|
        ".poison-"@.len() <= i < name.len() ==> is_hex_char(#[trigger] name[i])
}

/// The file whose presence poisons a client's commit stream.
pub fn poison_name(tty: &str, pid: u32, created: u64) -> (name: String)
    ensures
        name@ == poison_mark(tty@, pid, created),
        is_mark(name@),
{
    let mut identity = String::from_str(tty);
    identity.append("\0");
    push_decimal(&mut identity, pid as u64);
    identity.append("\0");
    push_decimal(&mut identity, created);
    let mut name = String::from_str(".poison-");
    let digits = digest_prefix(identity.as_str(), 16);
    name.append(digits.as_str());
    assert forall|i: int| ".poison-"@.len() <= i < name@.len() implies is_hex_char(
        #[trigger] name@[i],
    ) by {
        assert(name@[i] == digits@[i - ".poison-"@.len()]);
    }
    name
}

/// A mark is never cleared away: it is neither a file that may hold a directive
/// nor the answer to any nonce, and nothing else is removed from a store.
pub proof fn lemma_mark_stays(mark: Seq<char>, nonce: Seq<char>)
    requires
        is_mark(mark),
    ensures
        !may_hold_directive(mark),
        mark != directive_file(nonce),
        mark != result_file(nonce),
{
    reveal_strlit(".json");
    reveal_strlit(".result");
    reveal_strlit(".poison-");
    let last = mark[mark.len() - 1];
    assert(is_hex_char(last));
    if may_hold_directive(mark) {
        assert(mark.subrange(mark.len() - 5, mark.len() as int)[4] == last);
        assert(".json"@[4] == last);
    }
    if mark == directive_file(nonce) {
        assert(last == ".json"@[4]);
    }
    if mark == result_file(nonce) {
        assert(last == ".result"@[6]);
    }
}

/// The directory of one server's directives.
pub fn directory_name(socket: &str) -> (name: String)
    ensures
        name@ == digest_name(socket@, 12),
{
    digest_prefix(socket, 12)
}

/// The answer that a result file holds.
pub open spec fn recorded(content: Seq<char>) -> Option<bool> {
    if trimmed(content) == "handled"@ {
        Some(true)
    } else if trimmed(content) == "error"@ {
        Some(false)
    } else {
        None
    }
}

/// The answer that a result file holds.
pub fn read_result(content: &str) -> (result: Option<bool>)
    ensures
        result == recorded(content@),
{
    proof {
        reveal_strlit("handled");
        reveal_strlit("error");
    }
    let text = trim(content);
    if same(text, "handled") {
        Some(true)
    } else if same(text, "error") {
        Some(false)
    } else {
        None
    }
}

/// What a result file holds for an answer.
pub fn result_content(handled: bool) -> (content: &'static str)
    ensures
        content@ == (if handled {
            "handled\n"@
        } else {
            "error\n"@
        }),
        recorded(content@) == Some(handled),
{
    proof {
        lemma_result_round_trip();
    }
    if handled {
        "handled\n"
    } else {
        "error\n"
    }
}

proof fn lemma_result_round_trip()
    ensures
        recorded("handled\n"@) == Some(true),
        recorded("error\n"@) == Some(false),
{
    reveal_strlit("handled\n");
    reveal_strlit("error\n");
    reveal_strlit("handled");
    reveal_strlit("error");
    reveal_with_fuel(crate::text::trim_end_where, 2);
    assert("handled\n"@.drop_last() =~= "handled"@);
    assert("error\n"@.drop_last() =~= "error"@);
    assert("error"@.len() != "handled"@.len());
}

/// What waiting for an answer comes to.
#[derive(Clone, Copy, Debug, PartialEq, Eq, Structural)]
pub enum Wait {
    /// The answer is there.
    Answered(bool),
    /// Look again a little later.
    Again,
    /// Give up: the directive is removed and its client's stream poisoned, so
    /// that a very late reply can never execute a later gesture.
    GiveUp,
}

/// Decide how waiting for an answer goes on.
pub fn wait_decision(result: Option<bool>, expired: bool) -> (wait: Wait)
    ensures
        wait == (match result {
            Some(handled) => Wait::Answered(handled),
            None => if expired {
                Wait::GiveUp
            } else {
                Wait::Again
            },
        }),
{
    match result {
        Some(handled) => Wait::Answered(handled),
        None => {
            if expired {
                Wait::GiveUp
            } else {
                Wait::Again
            }
        },
    }
}

/// What giving up on an answer does to the store.
#[derive(Debug, PartialEq, Eq)]
pub struct LostReply {
    /// The file of the directive, removed first.
    pub directive: String,
    /// The file of the answer, removed next.
    pub result: String,
    /// The mark that is set last.
    pub poison: String,
}

/// The names in a store after giving up on the answer to a directive.
pub open spec fn after_giving_up(names: Set<Seq<char>>, directive: Directive) -> Set<Seq<char>> {
    names.remove(directive_file(directive.nonce@)).remove(
        result_file(directive.nonce@),
    ).insert(poison_file(directive))
}

/// Plan what giving up on the answer to a directive does.
pub fn give_up(directive: &Directive) -> (plan: LostReply)
    ensures
        plan.directive@ == directive_file(directive.nonce@),
        plan.result@ == result_file(directive.nonce@),
        plan.poison@ == poison_file(*directive),
        is_mark(plan.poison@),
{
    LostReply {
        directive: directive_name(directive.nonce.as_str()),
        result: result_name(directive.nonce.as_str()),
        poison: poison_name(
            directive.local_client_tty.as_str(),
            directive.local_client_pid,
            directive.local_client_created,
        ),
    }
}

/// A reply that comes too late executes nothing. Once waiting for the answer to
/// a directive was given up, the directive is gone from the store, and while
/// the marks stand, whatever else comes and goes, no later directive of that
/// client is published.
pub proof fn lemma_lost_reply_stops_the_client(
    directive: Directive,
    names: Set<Seq<char>>,
    later: Directive,
    socket: Seq<char>,
    stored: Seq<Seq<char>>,
    waiting: bool,
)
    requires
        directive.well_formed(),
        awaits(
            later,
            directive.local_client_tty@,
            directive.local_client_pid,
            directive.local_client_created,
        ),
        forall|name: Seq<char>|
            #[trigger] after_giving_up(names, directive).contains(name)
                && ".poison-"@.is_prefix_of(name) ==> stored.contains(name),
    ensures
        !after_giving_up(names, directive).contains(directive_file(directive.nonce@)),
        !after_giving_up(names, directive).contains(result_file(directive.nonce@)),
        verdict_for(later, socket, stored, waiting) is Err,
        later.well_formed() && later.tmux_socket@ == socket ==> verdict_for(
            later,
            socket,
            stored,
            waiting,
        ) == Err::<(), ArmError>(ArmError::Poisoned),
{
    reveal_strlit(".poison-");
    let first = directive.nonce@[0];
    assert(is_hex_digit(first));
    assert(poison_file(directive)[0] == '.');
    assert(".poison-"@.is_prefix_of(poison_file(directive)));
    assert(after_giving_up(names, directive).contains(poison_file(directive)));
    assert(directive_file(directive.nonce@)[0] == first);
    assert(result_file(directive.nonce@)[0] == first);
}

} // verus!
