//! What the operations that change a value change in it, and what they keep.

use vstd::prelude::*;

use crate::commands::eza::{held, settled, Rewriter};
use crate::navigation::outer::{climbed, Ancestry, ProcessFacts};
use crate::navigation::{choose_client, Client, Outcome};
use crate::process::{Capture, CaptureStep, Drained, Stream};
use crate::relay::store::Directive;
use crate::vscode::extend_lineage;

verus! {

/// The exit statuses of the outcomes.
pub proof fn lemma_exit_statuses(outcome: Outcome, code: i32)
    requires
        call_ensures(Outcome::code, (outcome,), code),
    ensures
        outcome is Handled <==> code == 0,
        outcome is Error <==> code == 1,
        outcome is Declined <==> code == 3,
{
}

/// A directive is armed for its owner in its place in the order, neither ready
/// nor claimed; nothing else of it changes.
pub proof fn lemma_arming(owner: u32, seq: u64)
    ensures
        forall|d: &mut Directive|
            #![trigger call_ensures(Directive::arm, (d, owner, seq), ())]
            call_ensures(Directive::arm, (d, owner, seq), ()) ==> {
                &&& !final(d).ready && !final(d).claimed
                &&& final(d).owner_pid == owner && final(d).seq == seq
                &&& final(d).v == (*d).v && final(d).nonce == (*d).nonce && final(d).action
                    == (*d).action && final(d).tmux_socket == (*d).tmux_socket && final(d).session
                    == (*d).session
                &&& final(d).local_client_tty == (*d).local_client_tty && final(d).local_client_pid
                    == (*d).local_client_pid && final(d).local_client_created
                    == (*d).local_client_created && final(d).started_at == (*d).started_at
                &&& final(d).expected_pane == (*d).expected_pane && final(d).target_pane
                    == (*d).target_pane && final(d).scope == (*d).scope && final(d).direction
                    == (*d).direction && final(d).forward_pane == (*d).forward_pane
            },
{
}

/// A commit makes a directive ready, a claim marks it as claimed, and neither
/// changes anything else of it.
pub proof fn lemma_committing_and_claiming()
    ensures
        forall|d: &mut Directive|
            #![trigger call_ensures(Directive::commit, (d,), ())]
            call_ensures(Directive::commit, (d,), ()) ==> final(d).ready && final(d).claimed
                == (*d).claimed && final(d).seq == (*d).seq && final(d).owner_pid == (*d).owner_pid
                && final(d).nonce == (*d).nonce && final(d).well_formed() == (*d).well_formed(),
        forall|d: &mut Directive|
            #![trigger call_ensures(Directive::claim, (d,), ())]
            call_ensures(Directive::claim, (d,), ()) ==> final(d).claimed && final(d).ready
                == (*d).ready && final(d).seq == (*d).seq && final(d).owner_pid == (*d).owner_pid
                && final(d).nonce == (*d).nonce && final(d).well_formed() == (*d).well_formed(),
{
}

/// A capture takes bytes in order up to its limit on both streams together, and
/// no byte beyond it; the end of a stream closes that stream alone. A turn ends
/// with its sixty-four kibibytes.
pub proof fn lemma_capturing(
    stream: Stream,
    other: Stream,
    bytes: &[u8],
    drained: usize,
    result: Drained,
)
    requires
        other != stream,
    ensures
        forall|c: &mut Capture|
            #![trigger call_ensures(Capture::accept, (c, stream, bytes, drained), result)]
            call_ensures(Capture::accept, (c, stream, bytes, drained), result) ==> {
                let total = (*c).bytes(stream).len() + (*c).bytes(other).len() + bytes@.len();
                &&& result is Closed <==> bytes@.len() == 0
                &&& result is Exceeded <==> bytes@.len() > 0 && total > (*c).limit()
                &&& result is TurnOver <==> bytes@.len() > 0 && total <= (*c).limit() && drained
                    + bytes@.len() >= 65536
                &&& final(c).bytes(other) == (*c).bytes(other) && final(c).open(other)
                    == (*c).open(other)
                &&& final(c).limit() == (*c).limit() && final(c).exit() == (*c).exit()
                &&& total <= (*c).limit() ==> final(c).bytes(stream) == (*c).bytes(stream) + bytes@
                &&& bytes@.len() > 0 && total > (*c).limit() ==> final(c).bytes(stream)
                    == (*c).bytes(stream)
                &&& final(c).open(stream) == ((*c).open(stream) && bytes@.len() > 0)
            },
{
    assert forall|c: &mut Capture|
        #![trigger call_ensures(Capture::accept, (c, stream, bytes, drained), result)]
        call_ensures(Capture::accept, (c, stream, bytes, drained), result) implies {
        let total = (*c).bytes(stream).len() + (*c).bytes(other).len() + bytes@.len();
        &&& result is Closed <==> bytes@.len() == 0
        &&& result is Exceeded <==> bytes@.len() > 0 && total > (*c).limit()
        &&& result is TurnOver <==> bytes@.len() > 0 && total <= (*c).limit() && drained
            + bytes@.len() >= 65536
        &&& final(c).bytes(other) == (*c).bytes(other) && final(c).open(other) == (*c).open(other)
        &&& final(c).limit() == (*c).limit() && final(c).exit() == (*c).exit()
        &&& total <= (*c).limit() ==> final(c).bytes(stream) == (*c).bytes(stream) + bytes@
        &&& bytes@.len() > 0 && total > (*c).limit() ==> final(c).bytes(stream)
            == (*c).bytes(stream)
        &&& final(c).open(stream) == ((*c).open(stream) && bytes@.len() > 0)
    } by {
        let all = (*c).bytes(Stream::Stdout).len() + (*c).bytes(Stream::Stderr).len();
        assert((*c).bytes(stream).len() + (*c).bytes(other).len() == all) by {
            match stream {
                Stream::Stdout => {
                    assert(other == Stream::Stderr);
                },
                Stream::Stderr => {
                    assert(other == Stream::Stdout);
                },
            }
        }
    }
}

/// A capture is finished when the process has exited and both streams have
/// ended, even after its time; else its time decides.
pub proof fn lemma_capture_steps(capture: Capture, expired: bool, step: CaptureStep)
    requires
        call_ensures(Capture::decide, (&capture, expired), step),
    ensures
        ({
            let done = capture.exit() is Some && !capture.open(Stream::Stdout) && !capture.open(
                Stream::Stderr,
            );
            &&& step is Finished <==> done
            &&& step matches CaptureStep::Finished { code } ==> capture.exit() == Some(code)
            &&& step is TimedOut <==> !done && expired
            &&& step is Wait <==> !done && !expired
        }),
{
}

/// A process joins a line of ancestors at its end where it is none of the
/// kernel's, not in the line already, and the line has room.
pub proof fn lemma_lineage_grows(pid: u32, added: bool)
    ensures
        forall|p: &mut Vec<u32>|
            #![trigger call_ensures(extend_lineage, (p, pid), added)]
            call_ensures(extend_lineage, (p, pid), added) ==> {
                &&& added <==> pid > 0 && (*p)@.len() < 64 && !(*p)@.contains(pid)
                &&& added ==> final(p)@ == (*p)@.push(pid)
                &&& !added ==> final(p)@ == (*p)@
            },
{
}

/// A climb takes what is read of a process as one step.
pub proof fn lemma_climbing(tmux: &str, pane: &str, parent: Option<u32>)
    ensures
        forall|a: &mut Ancestry|
            #![trigger call_ensures(Ancestry::climb, (a, tmux, pane, parent), ())]
            call_ensures(Ancestry::climb, (a, tmux, pane, parent), ()) ==> final(a)@ == climbed(
                (*a)@,
                ProcessFacts { tmux: tmux@, pane: pane@, parent },
            ),
{
}

/// The client of a gesture is the only interactive one; else the only focused
/// one; else, where none is focused, the latest, unless it is too old, newer
/// than the gesture, or tied. In every other case there is none.
pub proof fn lemma_client_choices(
    clients: &[Client],
    started_at: u64,
    freshness: u64,
    choice: Option<Client>,
    i: int,
    j: int,
)
    requires
        call_ensures(choose_client, (clients, started_at, freshness), choice),
        0 <= i < clients@.len() && 0 <= j < clients@.len(),
    ensures
        ({
            let a = clients@[i];
            let b = clients@[j];
            let others = |f: spec_fn(Client) -> bool|
                forall|k: int|
                    0 <= k < clients@.len() && k != i ==> !(!(#[trigger] clients@[k]).control && f(
                        clients@[k],
                    ));
            let quiet = forall|k: int|
                0 <= k < clients@.len() && !(#[trigger] clients@[k]).control
                    ==> !clients@[k].focused;
            &&& !a.control && others(|c: Client| true) ==> choice == Some(a)
            &&& !a.control && a.focused && others(|c: Client| c.focused) ==> choice == Some(a)
            &&& i != j && !a.control && a.focused && !b.control && b.focused ==> choice is None
            &&& i != j && !a.control && !b.control && quiet && others(
                |c: Client| c.activity >= a.activity,
            ) && a.activity <= started_at <= a.activity + freshness ==> choice == Some(a)
            &&& i != j && !a.control && !b.control && quiet && others(
                |c: Client| c.activity > a.activity,
            ) && (started_at < a.activity || started_at > a.activity + freshness) ==> choice is None
            &&& i != j && !a.control && !b.control && quiet && others(
                |c: Client| c.activity > a.activity,
            ) && a.activity == b.activity ==> choice is None
        }),
        (forall|k: int| 0 <= k < clients@.len() ==> (#[trigger] clients@[k]).control)
            ==> choice is None,
{
    let all = clients@;
    let a = all[i];
    let safe = |k: int| crate::navigation::is_safe_choice(all, started_at, freshness, k);
    if choice is Some {
        let k = choose|k: int|
            #[trigger] crate::navigation::is_safe_choice(all, started_at, freshness, k)
                && choice->0 == all[k];
        assert(0 <= k < all.len());
        assert(!all[k].control);
        assert(all[i] == a && all[j] == clients@[j]);
    } else {
        assert(!crate::navigation::is_safe_choice(all, started_at, freshness, i));
    }
}

/// A rewriter hands out what no later input can change and holds back the rest.
/// What it held back comes out at the end as it is.
pub proof fn lemma_rewriters(bytes: &[u8])
    ensures
        forall|r: &mut Rewriter, out: &mut Vec<u8>|
            #![trigger call_ensures(Rewriter::finish, (r, out), ())]
            call_ensures(Rewriter::finish, (r, out), ()) ==> final(out)@ == (*out)@ + (*r).pending()
                && final(r).pending().len() == 0,
        forall|r: &mut Rewriter, out: &mut Vec<u8>|
            #![trigger call_ensures(Rewriter::push, (r, bytes, out), ())]
            call_ensures(Rewriter::push, (r, bytes, out), ()) ==> {
                let read = (*r).pending() + bytes@;
                let keep = held(read, (*r).pattern());
                &&& final(out)@ == (*out)@ + settled(read, (*r).pattern(), (*r).replacement())
                &&& final(r).pending() == read.skip(read.len() - keep)
            },
{
}

} // verus!
