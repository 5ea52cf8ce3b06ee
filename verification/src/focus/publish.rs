//! How focus leases are published, renewed, ended and relayed.

use vstd::prelude::*;
use vstd::string::*;

use crate::focus::style::{
    arguments, brighten, brightening, decoded_style, dimming, drop_style, edit_arguments, edits,
    end_arguments, end_lease, end_lease_arguments, ending, publishing, restyle, restyling, undim,
    undimming, unpublish, unpublishing, Change, Edit, StyleRestore, CLIENT_UNFOCUSED_OPTION,
    FOCUS_OPTION, WINDOW_ACTIVE_STYLE_OPTION,
};
use crate::focus::{
    claim_of, claim_text, claim_value, deadline_of, is_focus_token, lease_bounds, lease_deadline,
    parse_claim, valid_lease, valid_token,
};
use crate::json::{
    flat_members, json_object, json_text, member, member_of, member_values, parse_json,
    text_member, text_of, write_object, Json, JsonValue, Member, MemberValue,
};
use crate::navigation::outer::{answer, answer_text};
use crate::navigation::system::{is_pane, valid_pane, TmuxOutput};
use crate::relay::client::{judge_reply, reply_verdict};
use crate::relay::protocol::{reply_line, reply_text, ERROR, FOCUS};
use crate::shell::{command_line, escape_tmux_format, format_escaped};
use crate::text::{
    any_of, concat, cut, from_utf8_lossy, opt_text, owned, parse_number, parsed, same, split_once,
    strings, trim, trim_end_any, trim_end_where, trimmed, utf8_lossy,
};

verus! {

/// The arguments that read the current lease of a pane.
pub fn lease_query(pane: &str) -> (result: Vec<String>)
    ensures
        strings(result@) == seq!["show-options"@, "-pqv"@, "-t"@, pane@, FOCUS_OPTION@],
{
    let result = owned(&vec!["show-options", "-pqv", "-t", pane, FOCUS_OPTION]);
    assert(strings(result@) =~= seq!["show-options"@, "-pqv"@, "-t"@, pane@, FOCUS_OPTION@]);
    result
}

/// The current lease that tmux printed, where it is one.
pub open spec fn lease_answer(output: Option<TmuxOutput>) -> Option<Seq<char>> {
    match answer_text(output) {
        Some(value) if claim_of(value) is Some => Some(value),
        _ => None,
    }
}

/// The current lease that tmux printed, where it is one.
pub fn current_claim(output: &Option<TmuxOutput>) -> (value: Option<String>)
    ensures
        opt_text(value) == lease_answer(*output),
{
    match answer(output) {
        Some(value) => {
            if parse_claim(value.as_str()).is_some() {
                Some(value)
            } else {
                None
            }
        },
        None => None,
    }
}

/// The words that say whose option is read: the pane's, or everybody's.
pub open spec fn option_scope(pane: Seq<char>, pane_local: bool) -> Seq<Seq<char>> {
    if pane_local {
        seq!["-p"@, "-t"@, pane]
    } else {
        seq!["-g"@]
    }
}

/// The arguments that show an option, with its name (`-q`) or by value alone
/// (`-qv`).
pub open spec fn option_query(
    pane: Seq<char>,
    option: Seq<char>,
    pane_local: bool,
    flag: Seq<char>,
) -> Seq<Seq<char>> {
    seq!["show-options"@] + option_scope(pane, pane_local) + seq![flag, option]
}

/// The arguments that show an option.
pub fn option_arguments(pane: &str, option: &str, pane_local: bool, flag: &str) -> (result: Vec<
    String,
>)
    ensures
        strings(result@) == option_query(pane@, option@, pane_local, flag@),
{
    let result = if pane_local {
        owned(&vec!["show-options", "-p", "-t", pane, flag, option])
    } else {
        owned(&vec!["show-options", "-g", flag, option])
    };
    assert(strings(result@) =~= option_query(pane@, option@, pane_local, flag@));
    result
}

/// The value of an option: nothing where it is not shown by name.
pub open spec fn option_answer(shown: Option<TmuxOutput>, value: Option<TmuxOutput>) -> Option<
    Seq<char>,
> {
    match (shown, value) {
        (Some(shown), Some(value)) if shown.success && shown.stdout@.len() > 0 && value.success => {
            Some(trim_end_where(utf8_lossy(value.stdout@), any_of(seq!['\n'])))
        },
        _ => None,
    }
}

/// The value of an option.
pub fn option_value(shown: &Option<TmuxOutput>, value: &Option<TmuxOutput>) -> (result: Option<
    String,
>)
    ensures
        opt_text(result) == option_answer(*shown, *value),
{
    match (shown, value) {
        (Some(shown), Some(value)) => {
            if !shown.success || shown.stdout.len() == 0 || !value.success {
                return None;
            }
            let text = from_utf8_lossy(value.stdout.as_slice());
            let newline: Vec<char> = vec!['\n'];
            assert(newline@ =~= seq!['\n']);
            Some(String::from_str(trim_end_any(text.as_str(), newline.as_slice())))
        },
        _ => None,
    }
}

/// What is known of a pane's style before it is changed.
#[derive(Debug)]
pub struct StyleFacts {
    /// The style of inactive panes, where one is configured.
    pub inactive: Option<String>,
    /// Whether the pane already remembers a style.
    pub marked: bool,
    /// The pane's own style.
    pub existing: Option<String>,
}

/// Whether panes are restyled at all.
pub open spec fn styling(facts: StyleFacts) -> bool {
    facts.inactive is Some && facts.inactive->0@.len() > 0
}

/// Whether this pane is to be restyled now.
pub open spec fn restyles(facts: StyleFacts) -> bool {
    styling(facts) && !facts.marked
}

/// The changes that restyle a pane; none where it keeps its style.
pub open spec fn style_edits(facts: StyleFacts) -> Seq<Edit> {
    if restyles(facts) {
        restyling(facts.inactive->0@, opt_text(facts.existing))
    } else {
        Seq::empty()
    }
}

fn style_changes(facts: &StyleFacts) -> (changes: Vec<Change>)
    ensures
        edits(changes@) == style_edits(*facts),
{
    if let Some(inactive) = &facts.inactive {
        if !inactive.as_str().is_empty() && !facts.marked {
            return restyle(inactive.as_str(), &facts.existing);
        }
    }
    let changes: Vec<Change> = Vec::new();
    assert(edits(changes@) =~= Seq::empty());
    changes
}

/// A lease to be published: what is run, and what takes its place where that
/// fails.
#[derive(Debug)]
pub struct Claim {
    /// The lease generation.
    pub value: String,
    /// The tmux arguments that publish it.
    pub publish: Vec<String>,
    /// What takes a failed restyling back, and what then publishes the lease
    /// without it.
    pub fallback: Option<(Vec<String>, Vec<String>)>,
    /// Whether a new expiry helper is needed: the publisher changed.
    pub start_expirer: bool,
}

/// Whether the publisher already holds the lease.
pub open spec fn renews(previous: Option<Seq<char>>, token: Seq<char>) -> bool {
    match previous {
        Some(value) => match cut(value, ':') {
            Some((holder, _)) => holder == token,
            None => false,
        },
        None => false,
    }
}

/// Whether the publisher already holds the lease.
pub fn is_renewal(previous: &Option<String>, token: &str) -> (result: bool)
    ensures
        result == renews(opt_text(*previous), token@),
{
    match previous {
        Some(value) => match split_once(value.as_str(), ':') {
            Some((holder, _)) => same(holder, token),
            None => false,
        },
        None => false,
    }
}

/// What is published alone: just the lease.
pub open spec fn bare_lease(value: Seq<char>) -> Seq<Edit> {
    publishing(Seq::empty(), value)
}

/// Whether a plan publishes this generation of a lease on a pane. A renewal
/// writes one option; a new publisher also restyles the pane.
pub open spec fn claims(
    pane: Seq<char>,
    token: Seq<char>,
    deadline: u64,
    previous: Option<Seq<char>>,
    facts: StyleFacts,
    plan: Claim,
) -> bool {
    let value = claim_text(token, deadline as nat);
    let renewal = renews(previous, token);
    &&& plan.value@ == value
    &&& plan.start_expirer == !renewal
    &&& strings(plan.publish@) == edit_arguments(
        pane,
        publishing(
            if renewal {
                Seq::empty()
            } else {
                style_edits(facts)
            },
            value,
        ),
    )
    &&& match plan.fallback {
        Some((undo, retry)) => {
            &&& !renewal && restyles(facts)
            &&& strings(undo@) == edit_arguments(
                pane,
                unpublishing(opt_text(facts.existing), previous),
            )
            &&& strings(retry@) == edit_arguments(pane, bare_lease(value))
        },
        None => renewal || !restyles(facts),
    }
}

fn lease_changes(style: Vec<Change>, value: &str) -> (changes: Vec<Change>)
    ensures
        edits(changes@) == publishing(edits(style@), value@),
{
    let mut changes = style;
    changes.push(Change::Assign { name: FOCUS_OPTION, value: String::from_str(value) });
    assert(edits(changes@) =~= publishing(edits(style@), value@));
    changes
}

fn no_changes() -> (changes: Vec<Change>)
    ensures
        edits(changes@) == Seq::<Edit>::empty(),
{
    let changes: Vec<Change> = Vec::new();
    assert(edits(changes@) =~= Seq::empty());
    changes
}

/// Plan the publication or renewal of one lease on an immediate parent pane.
/// Nothing is planned for a token, pane or lease that is not valid.
pub fn claim(
    pane: &str,
    token: &str,
    lease_ms: u64,
    now_ns: u64,
    previous: &Option<String>,
    facts: &StyleFacts,
) -> (plan: Option<Claim>)
    ensures
        match plan {
            Some(plan) => is_focus_token(token@) && is_pane(pane@) && lease_bounds(lease_ms as int)
                && claims(
                pane@,
                token@,
                deadline_of(now_ns, lease_ms),
                opt_text(*previous),
                *facts,
                plan,
            ),
            None => !(is_focus_token(token@) && is_pane(pane@) && lease_bounds(lease_ms as int)),
        },
{
    if !valid_token(token) || !valid_pane(pane) || !valid_lease(lease_ms) {
        return None;
    }
    let value = claim_value(token, lease_deadline(now_ns, lease_ms));
    if is_renewal(previous, token) {
        let changes = lease_changes(no_changes(), value.as_str());
        let publish = arguments(pane, &changes);
        return Some(Claim { value, publish, fallback: None, start_expirer: false });
    }
    let style = style_changes(facts);
    let restyled = style.len() > 0;
    assert(restyled == restyles(*facts)) by {
        assert(style@.len() == edits(style@).len());
    }
    let changes = lease_changes(style, value.as_str());
    let publish = arguments(pane, &changes);
    let fallback = if restyled {
        let undo = unpublish(&facts.existing, previous);
        let undo = arguments(pane, &undo);
        let retry = lease_changes(no_changes(), value.as_str());
        let retry = arguments(pane, &retry);
        Some((undo, retry))
    } else {
        None
    };
    Some(Claim { value, publish, fallback, start_expirer: true })
}

/// What releasing a lease comes to.
#[derive(Debug, PartialEq, Eq)]
pub enum Release {
    /// The token or the pane is not valid.
    Refused,
    /// The publisher no longer holds the lease.
    NotHeld,
    /// This generation is to be ended.
    End(String),
}

/// Decide what releasing a lease comes to: only the publisher that still holds
/// it can end it.
pub fn release(pane: &str, token: &str, current: &Option<String>) -> (result: Release)
    ensures
        match result {
            Release::Refused => !(is_focus_token(token@) && is_pane(pane@)),
            Release::NotHeld => is_focus_token(token@) && is_pane(pane@) && !renews(
                opt_text(*current),
                token@,
            ),
            Release::End(value) => is_focus_token(token@) && is_pane(pane@) && renews(
                opt_text(*current),
                token@,
            ) && opt_text(*current) == Some(value@),
        },
{
    if !valid_token(token) || !valid_pane(pane) {
        return Release::Refused;
    }
    if !is_renewal(current, token) {
        return Release::NotHeld;
    }
    match current {
        Some(value) => Release::End(value.clone()),
        None => Release::NotHeld,
    }
}

/// A change of a pane, and what is run where it fails.
#[derive(Debug)]
pub struct PanePlan {
    pub change: Vec<String>,
    pub fallback: Option<Vec<String>>,
}

/// Plan the end of exactly this generation of a lease. Where that fails on a
/// restyled pane, its style is dropped.
pub fn clear_exact(
    pane: &str,
    value: &str,
    marked: bool,
    unfocused: bool,
    restore: &Option<StyleRestore>,
) -> (plan: Option<PanePlan>)
    ensures
        match plan {
            Some(plan) => {
                &&& claim_of(value@) is Some && is_pane(pane@)
                &&& strings(plan.change@) == end_arguments(
                    pane@,
                    value@,
                    ending(marked, unfocused, decoded_style(*restore)),
                )
                &&& match plan.fallback {
                    Some(fallback) => marked && strings(fallback@) == edit_arguments(
                        pane@,
                        seq![Edit::Clear { name: WINDOW_ACTIVE_STYLE_OPTION@ }],
                    ),
                    None => !marked,
                }
            },
            None => claim_of(value@) is None || !is_pane(pane@),
        },
{
    if parse_claim(value).is_none() || !valid_pane(pane) {
        return None;
    }
    let changes = end_lease(marked, unfocused, restore);
    let change = end_lease_arguments(pane, value, &changes);
    let fallback = if marked {
        Some(arguments(pane, &drop_style()))
    } else {
        None
    };
    Some(PanePlan { change, fallback })
}

/// Plan the marking of a pane whose client lost terminal focus; nothing where
/// panes are not restyled.
pub fn set_client_unfocused(pane: &str, facts: &StyleFacts) -> (plan: Option<PanePlan>)
    ensures
        match plan {
            Some(plan) => {
                &&& styling(*facts)
                &&& strings(plan.change@) == edit_arguments(pane@, dimming(style_edits(*facts)))
                &&& match plan.fallback {
                    Some(fallback) => restyles(*facts) && strings(fallback@) == edit_arguments(
                        pane@,
                        undimming(opt_text(facts.existing)),
                    ),
                    None => !restyles(*facts),
                }
            },
            None => !styling(*facts),
        },
{
    let enabled = match &facts.inactive {
        Some(inactive) => !inactive.as_str().is_empty(),
        None => false,
    };
    if !enabled {
        return None;
    }
    let style = style_changes(facts);
    let restyled = style.len() > 0;
    assert(restyled == restyles(*facts)) by {
        assert(style@.len() == edits(style@).len());
    }
    let mut changes = style;
    changes.push(Change::Assign { name: CLIENT_UNFOCUSED_OPTION, value: String::from_str("1") });
    assert(edits(changes@) =~= dimming(style_edits(*facts)));
    let change = arguments(pane, &changes);
    let fallback = if restyled {
        let undo = undim(&facts.existing);
        Some(arguments(pane, &undo))
    } else {
        None
    };
    Some(PanePlan { change, fallback })
}

/// Plan the unmarking of a pane whose client is focused again. Where that
/// fails, the pane's style is dropped.
pub fn clear_client_unfocused(
    pane: &str,
    leased: bool,
    marked: bool,
    restore: &Option<StyleRestore>,
) -> (plan: PanePlan)
    ensures
        strings(plan.change@) == edit_arguments(
            pane@,
            brightening(leased, marked, decoded_style(*restore)),
        ),
        plan.fallback is Some && strings(plan.fallback->0@) == edit_arguments(
            pane@,
            seq![Edit::Clear { name: WINDOW_ACTIVE_STYLE_OPTION@ }],
        ),
{
    let changes = brighten(leased, marked, restore);
    let change = arguments(pane, &changes);
    PanePlan { change, fallback: Some(arguments(pane, &drop_style())) }
}

/// The expiry helper of a pane, as a command line.
pub open spec fn expirer_command(socket: Seq<char>, pane: Seq<char>) -> Seq<char> {
    command_line(
        seq![
            "termnav"@,
            "tmux"@,
            "focus"@,
            "expire"@,
            "--parent-tmux"@,
            socket,
            "--parent-pane"@,
            pane,
        ],
    )
}

/// The tmux arguments that make the parent's server own the expiry helper. The
/// command passes two layers: tmux formats, then the shell.
pub fn start_expirer(socket: &str, pane: &str) -> (result: Vec<String>)
    ensures
        strings(result@) == seq![
            "run-shell"@,
            "-b"@,
            "exec "@ + format_escaped(expirer_command(socket@, pane@)),
        ],
{
    let words = owned(
        &vec![
            "termnav",
            "tmux",
            "focus",
            "expire",
            "--parent-tmux",
            socket,
            "--parent-pane",
            pane,
        ],
    );
    assert(strings(words@) =~= seq![
        "termnav"@,
        "tmux"@,
        "focus"@,
        "expire"@,
        "--parent-tmux"@,
        socket@,
        "--parent-pane"@,
        pane@,
    ]);
    let helper = crate::shell::join(words.as_slice());
    let helper = escape_tmux_format(helper.as_str());
    let command = concat("exec ", helper.as_str());
    let result = owned(&vec!["run-shell", "-b", command.as_str()]);
    assert(strings(result@) =~= seq!["run-shell"@, "-b"@, command@]);
    result
}

/// The format that lists clients with their flags.
pub const CLIENT_FLAGS_FORMAT: &'static str = "#{client_pid} #{client_tty} #{client_flags}";

/// The format that lists clients with their panes.
pub const CLIENT_PANE_FORMAT: &'static str = "#{client_pid} #{client_tty} #{pane_id}";

/// The format that lists panes with the focus of their clients.
pub const PANE_FOCUS_FORMAT: &'static str =
    "#{pane_id} #{m:*focused*,#{client_flags}} #{client_control_mode}";

/// The arguments that list clients in a format.
pub fn client_listing(format: &str) -> (arguments: Vec<String>)
    ensures
        strings(arguments@) == seq!["list-clients"@, "-F"@, format@],
{
    let arguments = owned(&vec!["list-clients", "-F", format]);
    assert(strings(arguments@) =~= seq!["list-clients"@, "-F"@, format@]);
    arguments
}

/// How a client's pane is brought in line with its focus.
#[derive(Clone, Copy, Debug, PartialEq, Eq, Structural)]
pub enum Sync {
    /// There is no such client: nothing is done.
    Nothing,
    /// The pane is unmarked: a focused client shows it.
    Brighten,
    /// The pane is marked: no focused client shows it.
    Dim,
}

/// Reconcile one client's active pane with authoritative tmux focus state:
/// from the pane that the client shows, and whether a focused client shows it.
pub fn sync_client_style(pane: Option<&str>, focused: bool) -> (sync: Sync)
    ensures
        sync == (if pane is None {
            Sync::Nothing
        } else if focused {
            Sync::Brighten
        } else {
            Sync::Dim
        }),
{
    match pane {
        None => Sync::Nothing,
        Some(_) => if focused {
            Sync::Brighten
        } else {
            Sync::Dim
        },
    }
}

/// What stopping a watcher does next.
#[derive(Clone, Copy, Debug, PartialEq, Eq, Structural)]
pub enum Stopping {
    /// Nothing more: the exit status.
    Done(i32),
    /// The client's pane is brought in line with its focus.
    Sync,
    /// The client became focused meanwhile: its pane is brought in line again.
    Resync,
    /// The watcher is signalled, then the exit status.
    Signal(i32),
}

/// Begin to stop a watcher: a focused client keeps it.
pub fn begin_stop(focused: Option<bool>) -> (next: Stopping)
    ensures
        next == (if focused == Some(true) {
            Stopping::Done(0)
        } else {
            Stopping::Sync
        }),
{
    match focused {
        Some(true) => Stopping::Done(0),
        _ => Stopping::Sync,
    }
}

/// Go on to stop a watcher after its client's pane was brought in line. The
/// focus is asked for again so that a newer focus-in is not undone.
pub fn continue_stop(synced: bool, focused: Option<bool>) -> (next: Stopping)
    ensures
        next == (if focused == Some(true) {
            if synced {
                Stopping::Resync
            } else {
                Stopping::Done(1)
            }
        } else if synced {
            Stopping::Signal(0)
        } else {
            Stopping::Signal(1)
        }),
{
    match focused {
        Some(true) => if synced {
            Stopping::Resync
        } else {
            Stopping::Done(1)
        },
        _ => if synced {
            Stopping::Signal(0)
        } else {
            Stopping::Signal(1)
        },
    }
}

/// What publishing a lease came to.
#[derive(Clone, Copy, Debug, PartialEq, Eq, Structural)]
pub enum Published {
    /// It stands, and is guarded against a crash.
    Claimed,
    /// It was not published.
    Failed,
    /// It has no expiry helper, so it must be released again.
    Unguarded,
}

/// Judge a publication: from whether the lease was written, whether it needs a
/// new expiry helper, and whether that was started.
pub fn judge_publication(written: bool, start_expirer: bool, started: bool) -> (result: Published)
    ensures
        result == (if !written {
            Published::Failed
        } else if start_expirer && !started {
            Published::Unguarded
        } else {
            Published::Claimed
        }),
{
    if !written {
        Published::Failed
    } else if start_expirer && !started {
        Published::Unguarded
    } else {
        Published::Claimed
    }
}

/// The process that a watcher's lock file names.
pub fn watcher_pid(content: &str) -> (pid: Option<u32>)
    ensures
        match pid {
            Some(pid) => parsed(trimmed(content@), u32::MAX as nat) == Some(pid as nat),
            None => parsed(trimmed(content@), u32::MAX as nat) is None,
        },
{
    match parse_number(trim(content), u32::MAX as u64) {
        Some(pid) => Some(pid as u32),
        None => None,
    }
}

/// What a focus message asks for.
#[derive(Debug, PartialEq, Eq)]
pub enum FocusMessage {
    /// It is malformed.
    Refused,
    Claim { token: String, lease_ms: u64 },
    Release { token: String },
}

/// What a focus message asks for.
#[verifier::ext_equal]
pub enum FocusRequest {
    Refused,
    Claim { token: Seq<char>, lease_ms: u64 },
    Release { token: Seq<char> },
}

impl View for FocusMessage {
    type V = FocusRequest;

    open spec fn view(&self) -> FocusRequest {
        match self {
            FocusMessage::Refused => FocusRequest::Refused,
            FocusMessage::Claim { token, lease_ms } => FocusRequest::Claim {
                token: token@,
                lease_ms: *lease_ms,
            },
            FocusMessage::Release { token } => FocusRequest::Release { token: token@ },
        }
    }
}

/// What a focus message asks for: a claim or a release by a valid token, a
/// claim with a bounded lease.
pub open spec fn focus_request(message: JsonValue) -> FocusRequest {
    match (text_member(message, "state"@), text_member(message, "token"@)) {
        (Some(state), Some(token)) if is_focus_token(token) => if state == "release"@ {
            FocusRequest::Release { token }
        } else if state == "claim"@ {
            match member(message, "lease_ms"@) {
                Some(MemberValue::Number(Some(lease_ms))) if lease_bounds(lease_ms as int) => {
                    FocusRequest::Claim { token, lease_ms }
                },
                _ => FocusRequest::Refused,
            }
        } else {
            FocusRequest::Refused
        },
        _ => FocusRequest::Refused,
    }
}

/// Read a focus message.
pub fn read_focus_message(message: &Json) -> (request: FocusMessage)
    ensures
        request@ == focus_request(message@),
{
    match (text_of(message, "state"), text_of(message, "token")) {
        (Some(state), Some(token)) => {
            if !valid_token(token) {
                return FocusMessage::Refused;
            }
            if same(state, "release") {
                return FocusMessage::Release { token: String::from_str(token) };
            }
            if same(state, "claim") {
                if let Some(Member::Number(Some(lease_ms))) = member_of(message, "lease_ms") {
                    if valid_lease(*lease_ms) {
                        return FocusMessage::Claim {
                            token: String::from_str(token),
                            lease_ms: *lease_ms,
                        };
                    }
                }
            }
            FocusMessage::Refused
        },
        _ => FocusMessage::Refused,
    }
}

/// Where a focus message that arrived through a relay goes.
#[derive(Clone, Copy, Debug, PartialEq, Eq, Structural)]
pub enum FocusRoute {
    /// To the tmux pane that holds the relay's session.
    Local,
    /// On to the next relay.
    Forward,
    /// Nowhere: there is neither.
    Decline,
    /// Nowhere: the session claims to be in a pane that is not one.
    Fail,
}

/// Decide where a focus message goes: from whether the session is in a valid
/// pane, whether it claims to be in one, and the next relay.
pub fn focus_route(in_pane: bool, claims_pane: bool, relay: &str) -> (route: FocusRoute)
    ensures
        route == (if in_pane {
            FocusRoute::Local
        } else if claims_pane {
            FocusRoute::Fail
        } else if relay@.len() > 0 {
            FocusRoute::Forward
        } else {
            FocusRoute::Decline
        }),
{
    if in_pane {
        FocusRoute::Local
    } else if claims_pane {
        FocusRoute::Fail
    } else if relay.is_empty() {
        FocusRoute::Decline
    } else {
        FocusRoute::Forward
    }
}

/// Whether a result is one that a focus message may have.
pub open spec fn focus_result(result: Seq<char>) -> bool {
    result == "claimed"@ || result == "released"@ || result == "declined"@ || result == "error"@
}

/// The line that a forwarded message is answered with, from the line that the
/// next relay replied and what that parses to: the whole reply is handed on,
/// or an error where it is none that a focus message may have.
pub open spec fn forwarded_line(line: Seq<char>, json: JsonValue) -> Seq<char> {
    let text = match reply_verdict(line, json) {
        Ok(json) => text_member(json, "result"@),
        Err(_) => None,
    };
    match text {
        Some(text) if focus_result(text) => line,
        _ => reply_text(ERROR@),
    }
}

/// The line that a forwarded message is answered with, from the line that the
/// next relay replied and what that parses to.
pub fn judge_forwarded(line: &str, json: Json) -> (answer: String)
    ensures
        answer@ == forwarded_line(line@, json@),
{
    if let Ok(json) = judge_reply(line, json) {
        if let Some(result) = text_of(&json, "result") {
            if same(result, "claimed") || same(result, "released") || same(result, "declined")
                || same(result, "error") {
                return String::from_str(line);
            }
        }
    }
    reply_line(ERROR)
}

/// The line that a forwarded message is answered with, from what the next relay
/// replied, if anything.
pub fn forwarded_reply(line: Option<&str>) -> (answer: String)
    ensures
        answer@ == (match line {
            Some(line) => forwarded_line(line@, json_text(line@)),
            None => reply_text(ERROR@),
        }),
{
    match line {
        Some(line) => judge_forwarded(line, parse_json(line)),
        None => reply_line(ERROR),
    }
}

/// The members of the request that claims focus at a relay for a while, or
/// releases it.
pub open spec fn focus_members(token: Seq<char>, lease_ms: Option<u64>) -> Seq<
    (Seq<char>, MemberValue),
> {
    match lease_ms {
        Some(lease) => seq![
            ("lease_ms"@, MemberValue::Number(Some(lease))),
            ("op"@, MemberValue::Text(FOCUS@)),
            ("state"@, MemberValue::Text("claim"@)),
            ("token"@, MemberValue::Text(token)),
            ("v"@, MemberValue::Number(Some(2))),
        ],
        None => seq![
            ("op"@, MemberValue::Text(FOCUS@)),
            ("state"@, MemberValue::Text("release"@)),
            ("token"@, MemberValue::Text(token)),
            ("v"@, MemberValue::Number(Some(2))),
        ],
    }
}

/// The request line that claims focus at a relay for a while, or releases it.
pub open spec fn focus_line(token: Seq<char>, lease_ms: Option<u64>) -> Seq<char> {
    json_object(focus_members(token, lease_ms)) + seq!['\n']
}

/// The request line that claims focus at a relay for a while, or releases it.
pub fn focus_request_line(token: &str, lease_ms: Option<u64>) -> (line: String)
    ensures
        line@ == focus_line(token@, lease_ms),
{
    let state = match lease_ms {
        Some(_) => "claim",
        None => "release",
    };
    let mut members: Vec<(&str, Member)> = Vec::new();
    if let Some(lease) = lease_ms {
        members.push(("lease_ms", Member::Number(Some(lease))));
    }
    members.push(("op", Member::Text(String::from_str(FOCUS))));
    members.push(("state", Member::Text(String::from_str(state))));
    members.push(("token", Member::Text(String::from_str(token))));
    members.push(("v", Member::Number(Some(2))));
    assert(member_values(members@) =~= focus_members(token@, lease_ms));
    let mut line = write_object(&members);
    line.push('\n');
    line
}

/// The names in a focus request are distinct.
pub(crate) proof fn lemma_focus_members(token: Seq<char>, lease_ms: Option<u64>)
    ensures
        flat_members(focus_members(token, lease_ms)),
{
    reveal_strlit("lease_ms");
    reveal_strlit("op");
    reveal_strlit("state");
    reveal_strlit("token");
    reveal_strlit("v");
    assert("lease_ms"@.len() == 8);
    assert("op"@.len() == 2);
    assert("state"@.len() == 5 && "state"@[0] == 's');
    assert("token"@.len() == 5 && "token"@[0] == 't');
    assert("v"@.len() == 1);
}

/// Whether a relay did what the focus request asked for.
pub fn relay_updated(reply: &Option<Json>, claimed: bool) -> (result: bool)
    ensures
        result == (reply matches Some(json) && text_member(json@, "result"@) == Some(
            if claimed {
                "claimed"@
            } else {
                "released"@
            },
        )),
{
    match reply {
        Some(json) => match text_of(json, "result") {
            Some(result) => same(
                result,
                if claimed {
                    "claimed"
                } else {
                    "released"
                },
            ),
            None => false,
        },
        None => false,
    }
}

} // verus!
