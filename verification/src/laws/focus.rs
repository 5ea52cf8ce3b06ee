//! What a focus lease does to a pane, when it is valid, and how focus is told
//! from tmux's listings.

use vstd::prelude::*;
use vstd::string::*;

use crate::digest::digest_name;
use crate::focus::publish::{
    begin_stop, claim, clear_client_unfocused, clear_exact, client_listing, continue_stop,
    focus_request_line, focus_route, forwarded_line, is_renewal, judge_publication, lease_query,
    option_arguments, option_value, read_focus_message, relay_updated, release,
    set_client_unfocused, start_expirer, sync_client_style, watcher_pid, Claim, FocusMessage,
    FocusRequest, FocusRoute, PanePlan, Published, Release, StyleFacts, Stopping, Sync,
    CLIENT_FLAGS_FORMAT, CLIENT_PANE_FORMAT, PANE_FOCUS_FORMAT,
};
use crate::focus::style::{
    decoded_style, edit_arguments, edit_commands, edit_words, remembered, restored_style, restoring,
    restyling, Edit, StyleRestore, INACTIVE_STYLE_OPTION,
};
use crate::focus::{
    claim_of, claim_value, deadline_of, expiry_step, focus_in, is_focus_token, lease_deadline,
    lock_name, pane_in, parent_for_client, parse_claim, shows_focused, three_fields, valid_interval,
    valid_lease, valid_token, watch_allowed, watch_round, watcher_identity, Expiry, Parent,
};
use crate::json::{json_object, member, text_member, Json, JsonValue, MemberValue};
use crate::laws::relay::pane_id;
use crate::laws::text::{lemma_cut_at, lemma_decimal_plain, lemma_number_bound, lemma_words_first};
use crate::navigation::system::{tmux_identity, TmuxOutput};
use crate::relay::client::reply_verdict;
use crate::relay::protocol::reply_text;
use crate::shell::{command_line, format_escaped};
use crate::text::{
    blank, cut, decimal, joined, lemma_first_where, opt_text, parsed, split, strings, texts,
    trimmed, white_space, words,
};

verus! {

/// A token is twenty-four hexadecimal digits in lower case.
pub proof fn lemma_tokens(token: &str, valid: bool)
    requires
        call_ensures(valid_token, (token,), valid),
    ensures
        valid <==> token@.len() == 24 && forall|i: int|
            0 <= i < 24 ==> '0' <= #[trigger] token@[i] <= '9' || 'a' <= token@[i] <= 'f',
{
    let s = token@;
    if s.len() == 24 {
        assert forall|i: int| 0 <= i < 24 implies (crate::digest::is_hex_char(#[trigger] s[i])
            <==> '0' <= s[i] <= '9' || 'a' <= s[i] <= 'f') by {}
        if forall|i: int| 0 <= i < 24 ==> '0' <= #[trigger] s[i] <= '9' || 'a' <= s[i] <= 'f' {
            assert(is_focus_token(s));
        }
    }
}

/// Leases last from fifty milliseconds to thirty seconds, heartbeats come at
/// least every ten seconds, and a watcher needs a lease of two heartbeats.
pub proof fn lemma_timings(
    lease: u64,
    interval: u64,
    good_lease: bool,
    good_interval: bool,
    allowed: bool,
)
    requires
        call_ensures(valid_lease, (lease,), good_lease),
        call_ensures(valid_interval, (interval,), good_interval),
        call_ensures(watch_allowed, (lease, interval), allowed),
    ensures
        good_lease <==> 50 <= lease <= 30000,
        good_interval <==> 50 <= interval <= 10000,
        allowed <==> good_lease && good_interval && lease >= interval + interval,
{
}

/// A lease ends its milliseconds after now, counted in nanoseconds, or at the
/// end of time.
pub proof fn lemma_deadlines(now: u64, lease: u64, deadline: u64)
    requires
        call_ensures(lease_deadline, (now, lease), deadline),
    ensures
        now + lease * 1000000 <= u64::MAX ==> deadline - now == lease * 1000000,
        now + lease * 1000000 > u64::MAX ==> deadline == u64::MAX,
        deadline >= now,
{
}

/// A lease generation is read back as it was written, and no other text is
/// one: neither one without a valid token nor one without a number.
pub proof fn lemma_generations(
    token: Seq<char>,
    deadline: u64,
    holder: &str,
    written: String,
    value: &str,
    read: Option<(&str, u64)>,
)
    requires
        call_ensures(claim_value, (holder, deadline), written),
        call_ensures(parse_claim, (value,), read),
    ensures
        written@ == holder@ + ":"@ + decimal(deadline as nat),
        value@ == written@ && is_focus_token(holder@) ==> read is Some && (read->0).0@ == holder@
            && (read->0).1 == deadline,
        read matches Some((found, _)) ==> is_focus_token(found@),
        !value@.contains(':') ==> read is None,
        !token.contains(':') && value@ == token + seq![':'] + decimal(deadline as nat)
            && !is_focus_token(token) ==> read is None,
{
    if is_focus_token(holder@) {
        crate::focus::lemma_claim_round_trip(holder@, deadline);
    }
    if !value@.contains(':') {
        crate::laws::text::lemma_cut(value@, ':');
        match cut(value@, ':') {
            Some((before, after)) => {
                assert(value@[before.len() as int] == ':');
            },
            None => {},
        }
    }
    if !token.contains(':') {
        lemma_cut_at(token, ':', decimal(deadline as nat));
    }
}

/// The expiry helper stops without a lease, sleeps to the end of the current
/// one, and clears it when that is reached.
pub proof fn lemma_expiry(value: Option<&str>, now: u64, step: Expiry)
    requires
        call_ensures(expiry_step, (value, now), step),
    ensures
        step is Stop <==> value is None || claim_of(value->0@) is None,
        value is Some ==> (claim_of(value->0@) matches Some((_, deadline)) ==> (step is Clear
            <==> deadline <= now) && (step matches Expiry::Sleep(rest) ==> now + rest == deadline)),
{
    match value {
        Some(value) => {
            let read = claim_of(value@);
            match cut(value@, ':') {
                Some((_, deadline)) => {
                    crate::laws::text::lemma_number_shape(deadline, u64::MAX as nat);
                },
                None => {},
            }
        },
        None => {},
    }
}

/// A watcher goes on just while its client is focused, and a focused client
/// takes back a pending stop.
pub proof fn lemma_watching(stopping: bool, focused: Option<bool>, result: (bool, bool))
    requires
        call_ensures(watch_round, (stopping, focused), result),
    ensures
        result.1 <==> focused == Some(true),
        focused == Some(true) ==> !result.0,
        focused != Some(true) ==> result.0 == stopping,
{
}

/// Focus is read from the first row of the client: by its process and terminal,
/// and by the flag among its flags. Rows of other clients are passed over.
pub proof fn lemma_focus_listing(
    pid: u32,
    tty: Seq<char>,
    flags: Seq<char>,
    rows: Seq<Seq<char>>,
    other: u32,
    elsewhere: Seq<char>,
)
    requires
        tty.len() > 0,
        forall|i: int| 0 <= i < tty.len() ==> !white_space(#[trigger] tty[i]),
    ensures
        focus_in(
            seq![decimal(pid as nat) + seq![' '] + (tty + seq![' '] + flags)] + rows,
            other,
            elsewhere,
        ) == if other == pid && elsewhere == tty {
            Some(split(flags, ',').contains("focused"@))
        } else {
            focus_in(rows, other, elsewhere)
        },
        focus_in(Seq::empty(), pid, tty) is None,
{
    let row = decimal(pid as nat) + seq![' '] + (tty + seq![' '] + flags);
    let all = seq![row] + rows;
    assert(all.drop_first() =~= rows);
    assert(all[0] == row);
    lemma_decimal_plain(pid as nat);
    lemma_row_fields(decimal(pid as nat), tty, flags);
    lemma_number_bound(pid as nat, u64::MAX as nat);
    lemma_number_bound(other as nat, u64::MAX as nat);
}

proof fn lemma_row_fields(a: Seq<char>, b: Seq<char>, c: Seq<char>)
    requires
        forall|i: int| 0 <= i < a.len() ==> !white_space(#[trigger] a[i]),
        forall|i: int| 0 <= i < b.len() ==> !white_space(#[trigger] b[i]),
    ensures
        three_fields(a + seq![' '] + (b + seq![' '] + c)) == Some((a, b, c)),
{
    let rest = b + seq![' '] + c;
    let row = a + seq![' '] + rest;
    assert forall|j: int| 0 <= j < a.len() implies !blank()(#[trigger] row[j]) by {
        assert(row[j] == a[j]);
    }
    assert(blank()(row[a.len() as int]));
    lemma_first_where(row, blank(), a.len() as int);
    assert forall|j: int| 0 <= j < b.len() implies !blank()(#[trigger] rest[j]) by {
        assert(rest[j] == b[j]);
    }
    assert(blank()(rest[b.len() as int]));
    lemma_first_where(rest, blank(), b.len() as int);
    assert(row.take(a.len() as int) =~= a);
    assert(row.skip(a.len() as int + 1) =~= rest);
    assert(rest.take(b.len() as int) =~= b);
    assert(rest.skip(b.len() as int + 1) =~= c);
}

/// The pane of a client is read from the first row of its process and terminal
/// that names one.
pub proof fn lemma_pane_listing(
    pid: u32,
    tty: Seq<char>,
    pane: Seq<char>,
    rows: Seq<Seq<char>>,
    other: u32,
    elsewhere: Seq<char>,
)
    requires
        tty.len() > 0 && pane.len() > 0,
        forall|i: int| 0 <= i < tty.len() ==> !white_space(#[trigger] tty[i]),
        forall|i: int| 0 <= i < pane.len() ==> !white_space(#[trigger] pane[i]),
    ensures
        pane_in(
            seq![decimal(pid as nat) + seq![' '] + (tty + seq![' '] + pane)] + rows,
            other,
            elsewhere,
        ) == if other == pid && elsewhere == tty && pane_id(pane) {
            Some(pane)
        } else {
            pane_in(rows, other, elsewhere)
        },
        pane_in(Seq::empty(), pid, tty) is None,
{
    let id = decimal(pid as nat);
    let rest = tty + seq![' '] + pane;
    let row = id + seq![' '] + rest;
    let all = seq![row] + rows;
    assert(all.drop_first() =~= rows);
    assert(all[0] == row);
    lemma_decimal_plain(pid as nat);
    lemma_three_words(id, tty, pane);
    lemma_number_bound(pid as nat, u64::MAX as nat);
    lemma_number_bound(other as nat, u64::MAX as nat);
}

proof fn lemma_three_words(a: Seq<char>, b: Seq<char>, c: Seq<char>)
    requires
        a.len() > 0 && b.len() > 0 && c.len() > 0,
        forall|i: int| 0 <= i < a.len() ==> !white_space(#[trigger] a[i]),
        forall|i: int| 0 <= i < b.len() ==> !white_space(#[trigger] b[i]),
        forall|i: int| 0 <= i < c.len() ==> !white_space(#[trigger] c[i]),
    ensures
        words(a + seq![' '] + (b + seq![' '] + c)) == seq![a, b, c],
{
    let tail = seq![' '] + b + (seq![' '] + c);
    lemma_two_words(b, c);
    lemma_words_first(Seq::empty(), a, tail);
    assert(Seq::<char>::empty() + a + tail =~= a + seq![' '] + (b + seq![' '] + c));
    assert(seq![a] + seq![b, c] =~= seq![a, b, c]);
}

proof fn lemma_two_words(b: Seq<char>, c: Seq<char>)
    requires
        b.len() > 0 && c.len() > 0,
        forall|i: int| 0 <= i < b.len() ==> !white_space(#[trigger] b[i]),
        forall|i: int| 0 <= i < c.len() ==> !white_space(#[trigger] c[i]),
    ensures
        words(seq![' '] + b + (seq![' '] + c)) == seq![b, c],
{
    lemma_one_word(c);
    lemma_words_first(seq![' '], b, seq![' '] + c);
    assert(seq![b] + seq![c] =~= seq![b, c]);
}

proof fn lemma_one_word(c: Seq<char>)
    requires
        c.len() > 0,
        forall|i: int| 0 <= i < c.len() ==> !white_space(#[trigger] c[i]),
    ensures
        words(seq![' '] + c) == seq![c],
{
    let none = Seq::<char>::empty();
    lemma_words_first(seq![' '], c, none);
    lemma_words_first(none, c, none);
    assert(seq![' '] + c + none =~= seq![' '] + c);
    assert(seq![c] + Seq::<Seq<char>>::empty() =~= seq![c]);
}

/// A pane is focused where a row names it, with focus and without control
/// mode; no other row counts.
pub proof fn lemma_focused_rows(
    pane: Seq<char>,
    focus: Seq<char>,
    control: Seq<char>,
    asked: Seq<char>,
)
    requires
        pane.len() > 0 && focus.len() > 0 && control.len() > 0,
        forall|i: int| 0 <= i < pane.len() ==> !white_space(#[trigger] pane[i]),
        forall|i: int| 0 <= i < focus.len() ==> !white_space(#[trigger] focus[i]),
        forall|i: int| 0 <= i < control.len() ==> !white_space(#[trigger] control[i]),
    ensures
        shows_focused(pane + seq![' '] + (focus + seq![' '] + control), asked) <==> pane == asked
            && focus == "1"@ && control == "0"@,
{
    lemma_three_words(pane, focus, control);
    let found = seq![pane, focus, control];
    let wanted = seq![asked, "1"@, "0"@];
    if found == wanted {
        assert(found[0] == wanted[0] && found[1] == wanted[1] && found[2] == wanted[2]);
    }
}

/// The listings ask for just the fields that are read.
pub proof fn lemma_listing_formats(format: &str, arguments: Vec<String>)
    requires
        call_ensures(client_listing, (format,), arguments),
    ensures
        strings(arguments@) == seq!["list-clients"@, "-F"@, format@],
        CLIENT_FLAGS_FORMAT@ == "#{client_pid} #{client_tty} #{client_flags}"@,
        CLIENT_PANE_FORMAT@ == "#{client_pid} #{client_tty} #{pane_id}"@,
        PANE_FOCUS_FORMAT@ == "#{pane_id} #{m:*focused*,#{client_flags}} #{client_control_mode}"@,
        INACTIVE_STYLE_OPTION@ == "@termnav_inactive_style"@,
{
}

/// A watcher is known by the server, process and terminal that it watches.
pub proof fn lemma_watcher_words(
    socket: &str,
    pid: &str,
    tty: &str,
    identity: Vec<String>,
    content: &str,
    found: Option<u32>,
)
    requires
        call_ensures(watcher_identity, (socket, pid, tty), identity),
        call_ensures(watcher_pid, (content,), found),
    ensures
        strings(identity@) == seq![
            "tmux"@,
            "focus"@,
            "watch"@,
            "--tmux-socket"@,
            socket@,
            "--client-pid"@,
            pid@,
            "--client-tty"@,
            tty@,
        ],
        found matches Some(n) ==> parsed(trimmed(content@), u32::MAX as nat) == Some(n as nat),
        parsed(trimmed(content@), u32::MAX as nat) is Some ==> found is Some,
{
}

/// The parent of a client is the pane around it, unless that is of its own
/// server; then, and without a pane, the relay, by an absolute path.
pub proof fn lemma_parents(
    tmux: &str,
    pane: &str,
    own: bool,
    relay: Option<&str>,
    parent: Option<Parent>,
)
    requires
        call_ensures(parent_for_client, (tmux, pane, own, relay), parent),
    ensures
        ({
            let around = tmux_identity(tmux@, pane@);
            let absolute = relay is Some && relay->0@.len() > 0 && relay->0@[0] == '/';
            &&& around is Some && !own ==> (parent matches Some(
                Parent::Tmux { socket, pane: shown },
            ) && (socket@, shown@) == around->0)
            &&& (around is None || own) && absolute ==> (parent matches Some(Parent::Relay(path))
                && path@ == relay->0@)
            &&& (around is None || own) && !absolute ==> parent is None
        }),
{
    reveal_strlit("/");
    assert("/"@ =~= seq!['/']);
    if let Some(relay) = relay {
        if relay@.len() > 0 && relay@[0] == '/' {
            assert("/"@ =~= relay@.subrange(0, 1));
        }
        if "/"@.is_prefix_of(relay@) {
            assert("/"@[0] == relay@[0]);
        }
    }
}

/// A lock is named after its kind and the digest of its identity.
pub proof fn lemma_locks(kind: &str, identity: Vec<&str>, name: String)
    requires
        call_ensures(lock_name, (kind, &identity), name),
    ensures
        name@ == kind@ + "-"@ + digest_name(joined(texts(identity@), "\0"@), 24) + ".lock"@,
{
}

/// The words that set an option of a pane.
pub open spec fn sets(pane: Seq<char>, name: Seq<char>, value: Seq<char>) -> Seq<Seq<char>> {
    seq!["set-option"@, "-p"@, "-t"@, pane, name, value]
}

/// The words that unset an option of a pane.
pub open spec fn unsets(pane: Seq<char>, name: Seq<char>) -> Seq<Seq<char>> {
    seq!["set-option"@, "-pu"@, "-t"@, pane, name]
}

/// Changes become one tmux command each, in their order, with semicolons
/// between: as arguments, or as the text of commands.
pub proof fn lemma_changes_are_commands(
    pane: Seq<char>,
    changes: Seq<Edit>,
    name: Seq<char>,
    value: Seq<char>,
)
    ensures
        edit_words(pane, Edit::Assign { name, value }) == sets(pane, name, value),
        edit_words(pane, Edit::Clear { name }) == unsets(pane, name),
        edit_arguments(pane, seq![Edit::Clear { name }]) == unsets(pane, name),
        edit_arguments(pane, seq![Edit::Assign { name, value }]) == sets(pane, name, value),
        changes.len() > 0 ==> edit_arguments(pane, changes.push(Edit::Clear { name }))
            == edit_arguments(pane, changes) + seq![";"@] + unsets(pane, name),
        changes.len() > 0 ==> edit_arguments(pane, changes.push(Edit::Assign { name, value }))
            == edit_arguments(pane, changes) + seq![";"@] + sets(pane, name, value),
        edit_commands(pane, seq![Edit::Clear { name }]) == command_line(unsets(pane, name)),
        changes.len() > 0 ==> edit_commands(pane, changes.push(Edit::Clear { name }))
            == edit_commands(pane, changes) + " ; "@ + command_line(unsets(pane, name)),
        changes.len() > 0 ==> edit_commands(pane, changes.push(Edit::Assign { name, value }))
            == edit_commands(pane, changes) + " ; "@ + command_line(sets(pane, name, value)),
{
    assert(changes.push(Edit::Clear { name }).drop_last() =~= changes);
    assert(changes.push(Edit::Assign { name, value }).drop_last() =~= changes);
    let lines = |list: Seq<Edit>|
        Seq::new(list.len(), |i: int| command_line(edit_words(pane, list[i])));
    let cleared = changes.push(Edit::Clear { name });
    let assigned = changes.push(Edit::Assign { name, value });
    crate::laws::text::lemma_joined_each(
        lines(changes),
        command_line(unsets(pane, name)),
        " ; "@,
    );
    crate::laws::text::lemma_joined_each(
        lines(changes),
        command_line(sets(pane, name, value)),
        " ; "@,
    );
    assert(lines(cleared) =~= lines(changes).push(command_line(unsets(pane, name))));
    assert(lines(assigned) =~= lines(changes).push(command_line(sets(pane, name, value))));
    assert(lines(seq![Edit::Clear { name }]) =~= seq![command_line(unsets(pane, name))]);
}

/// What a lease writes: the generation, as the token and the deadline, and with
/// a new publisher also the inactive style and the style that the pane had. A
/// renewal writes the generation alone and needs no new helper. Where the
/// change of style fails it is taken back, and the lease is written alone.
pub proof fn lemma_claims_write(
    pane: &str,
    token: &str,
    lease: u64,
    now: u64,
    previous: Option<String>,
    facts: StyleFacts,
    plan: Option<Claim>,
)
    requires
        call_ensures(claim, (pane, token, lease, now, &previous, &facts), plan),
    ensures
        ({
            let value = token@ + ":"@ + decimal(deadline_of(now, lease) as nat);
            let renewal = previous is Some && (cut(previous->0@, ':') matches Some((holder, _))
                && holder == token@);
            let styled = facts.inactive is Some && facts.inactive->0@.len() > 0 && !facts.marked;
            &&& plan is Some <==> is_focus_token(token@) && pane_id(pane@) && 50 <= lease <= 30000
            &&& plan matches Some(plan) ==> {
                &&& plan.value@ == value
                &&& plan.start_expirer == !renewal
                &&& plan.fallback is Some <==> !renewal && styled
                &&& renewal || !styled ==> strings(plan.publish@) == sets(
                    pane@,
                    "@termnav_child_focus"@,
                    value,
                )
                &&& !renewal && styled ==> strings(plan.publish@) == sets(
                    pane@,
                    "window-active-style"@,
                    facts.inactive->0@,
                ) + seq![";"@] + sets(
                    pane@,
                    "@termnav_child_focus_restore_active_style"@,
                    remembered(opt_text(facts.existing)),
                ) + seq![";"@] + sets(pane@, "@termnav_child_focus"@, value)
                &&& plan.fallback matches Some((undo, retry)) ==> {
                    &&& strings(retry@) == sets(pane@, "@termnav_child_focus"@, value)
                    &&& strings(undo@) == (match opt_text(facts.existing) {
                        Some(style) => sets(pane@, "window-active-style"@, style),
                        None => unsets(pane@, "window-active-style"@),
                    }) + seq![";"@] + unsets(
                        pane@,
                        "@termnav_child_focus_restore_active_style"@,
                    ) + seq![";"@] + (match opt_text(previous) {
                        Some(value) => sets(pane@, "@termnav_child_focus"@, value),
                        None => unsets(pane@, "@termnav_child_focus"@),
                    })
                }
            }
        }),
{
    let value = token@ + ":"@ + decimal(deadline_of(now, lease) as nat);
    reveal_with_fuel(edit_arguments, 4);
    let lone = Seq::<Edit>::empty().push(
        Edit::Assign { name: "@termnav_child_focus"@, value },
    );
    assert(edit_arguments(pane@, lone) == sets(pane@, "@termnav_child_focus"@, value));
    if facts.inactive is Some {
        let a = Edit::Assign { name: "window-active-style"@, value: facts.inactive->0@ };
        let b = Edit::Assign {
            name: "@termnav_child_focus_restore_active_style"@,
            value: remembered(opt_text(facts.existing)),
        };
        let c = Edit::Assign { name: "@termnav_child_focus"@, value };
        let style = restyling(facts.inactive->0@, opt_text(facts.existing));
        assert(style =~= seq![a, b]);
        assert(seq![a, b].push(c).drop_last() =~= seq![a, b]);
        assert(seq![a, b].drop_last() =~= seq![a]);
    }
    let x = restoring(opt_text(facts.existing));
    let y = Edit::Clear { name: "@termnav_child_focus_restore_active_style"@ };
    let z = match opt_text(previous) {
        Some(value) => Edit::Assign { name: "@termnav_child_focus"@, value },
        None => Edit::Clear { name: "@termnav_child_focus"@ },
    };
    assert(seq![x, y, z].drop_last() =~= seq![x, y]);
    assert(seq![x, y].drop_last() =~= seq![x]);
    assert(edit_arguments(pane@, seq![x, y, z]) == edit_words(pane@, x) + seq![";"@] + edit_words(
        pane@,
        y,
    ) + seq![";"@] + edit_words(pane@, z));
}

/// A style is remembered with whether the pane had one of its own, and the
/// pane is given back just that.
pub proof fn lemma_styles_are_remembered(existing: Option<Seq<char>>, state: StyleRestore)
    ensures
        existing matches Some(style) ==> remembered(existing) == json_object(
            seq![
                ("had_override"@, MemberValue::Bool(true)),
                ("value"@, MemberValue::Text(style)),
            ],
        ),
        existing is None ==> remembered(existing) == json_object(
            seq![
                ("had_override"@, MemberValue::Bool(false)),
                ("value"@, MemberValue::Text(Seq::empty())),
            ],
        ),
        state.had_override ==> restored_style(state) == Some(state.value@),
        !state.had_override ==> restored_style(state) is None,
        existing is Some ==> restoring(existing) == (Edit::Assign {
            name: "window-active-style"@,
            value: existing->0,
        }),
        existing is None ==> restoring(existing) == (Edit::Clear { name: "window-active-style"@ }),
{
}

/// Only the publisher that holds the lease ends it, and just the generation
/// that it holds.
pub proof fn lemma_releases(pane: &str, token: &str, current: Option<String>, result: Release)
    requires
        call_ensures(release, (pane, token, &current), result),
    ensures
        ({
            let good = is_focus_token(token@) && pane_id(pane@);
            let held = current is Some && (cut(current->0@, ':') matches Some((holder, _)) && holder
                == token@);
            &&& result is Refused <==> !good
            &&& result is NotHeld <==> good && !held
            &&& result is End <==> good && held
            &&& result matches Release::End(value) ==> value@ == current->0@
        }),
{
}

/// Whether a lease is held is told by the token before the colon.
pub proof fn lemma_holders(previous: Option<String>, token: &str, rest: Seq<char>, held: bool)
    requires
        call_ensures(is_renewal, (&previous, token), held),
        !token@.contains(':'),
    ensures
        previous is None ==> !held,
        previous is Some && previous->0@ == token@ + seq![':'] + rest ==> held,
        held ==> previous is Some && (cut(previous->0@, ':') matches Some((holder, _)) && holder
            == token@),
{
    lemma_cut_at(token@, ':', rest);
}

/// A lease is ended under the guard that the pane still holds that very
/// generation. The lease goes; where the pane was restyled, and its client has
/// terminal focus, so does the remembered style, after which the pane has its
/// own again.
pub proof fn lemma_leases_end(
    pane: &str,
    value: &str,
    marked: bool,
    unfocused: bool,
    restore: Option<StyleRestore>,
    plan: Option<PanePlan>,
)
    requires
        call_ensures(clear_exact, (pane, value, marked, unfocused, &restore), plan),
    ensures
        plan is Some <==> claim_of(value@) is Some && pane_id(pane@),
        plan matches Some(plan) ==> {
            let lease = command_line(unsets(pane@, "@termnav_child_focus"@));
            let marker = command_line(
                unsets(pane@, "@termnav_child_focus_restore_active_style"@),
            );
            let words = strings(plan.change@);
            &&& words.len() == 7 && words.take(4) == seq!["if-shell"@, "-F"@, "-t"@, pane@]
            &&& words[4] == "#{==:#{"@ + "@termnav_child_focus"@ + "},"@ + value@ + "}"@
            &&& words[6].len() == 0
            &&& !marked || unfocused ==> words[5] == lease
            &&& marked && !unfocused && restore is None ==> words[5] == lease + " ; "@ + marker
            &&& marked && !unfocused && restore is Some ==> words[5] == lease + " ; "@ + marker
                + " ; "@ + command_line(
                match restored_style(restore->0) {
                    Some(style) => sets(pane@, "window-active-style"@, style),
                    None => unsets(pane@, "window-active-style"@),
                },
            )
            &&& plan.fallback is Some <==> marked
            &&& plan.fallback is Some ==> strings(plan.fallback->0@) == unsets(
                pane@,
                "window-active-style"@,
            )
        },
{
    if plan is Some {
        let words = strings(plan->0.change@);
        assert(words.take(4) =~= seq!["if-shell"@, "-F"@, "-t"@, pane@]);
        let p = pane@;
        let one = seq![Edit::Clear { name: "@termnav_child_focus"@ }];
        let two = one.push(Edit::Clear { name: "@termnav_child_focus_restore_active_style"@ });
        lemma_changes_are_commands(p, one, "@termnav_child_focus"@, Seq::empty());
        lemma_changes_are_commands(
            p,
            one,
            "@termnav_child_focus_restore_active_style"@,
            Seq::empty(),
        );
        lemma_changes_are_commands(
            p,
            two,
            "window-active-style"@,
            match restore {
                Some(state) => match restored_style(state) {
                    Some(style) => style,
                    None => Seq::empty(),
                },
                None => Seq::empty(),
            },
        );
        assert(decoded_style(restore) == match restore {
            Some(state) => Some(restored_style(state)),
            None => None,
        });
    }
}

/// A pane whose client lost terminal focus is marked, and restyled where that
/// is configured and not done already; without an inactive style nothing is
/// done. A restyling that fails is taken back with the mark.
pub proof fn lemma_panes_dim(pane: &str, facts: StyleFacts, plan: Option<PanePlan>)
    requires
        call_ensures(set_client_unfocused, (pane, &facts), plan),
    ensures
        ({
            let enabled = facts.inactive is Some && facts.inactive->0@.len() > 0;
            let mark = sets(pane@, "@termnav_client_unfocused"@, "1"@);
            &&& plan is Some <==> enabled
            &&& plan is Some && facts.marked ==> strings(plan->0.change@) == mark
                && plan->0.fallback is None
            &&& plan is Some && !facts.marked ==> strings(plan->0.change@) == sets(
                pane@,
                "window-active-style"@,
                facts.inactive->0@,
            ) + seq![";"@] + sets(
                pane@,
                "@termnav_child_focus_restore_active_style"@,
                remembered(opt_text(facts.existing)),
            ) + seq![";"@] + mark && plan->0.fallback is Some && strings(plan->0.fallback->0@) == (
            match opt_text(facts.existing) {
                Some(style) => sets(pane@, "window-active-style"@, style),
                None => unsets(pane@, "window-active-style"@),
            }) + seq![";"@] + unsets(pane@, "@termnav_child_focus_restore_active_style"@)
                + seq![";"@] + unsets(pane@, "@termnav_client_unfocused"@)
        }),
{
    reveal_with_fuel(edit_arguments, 4);
    let mark = Edit::Assign { name: "@termnav_client_unfocused"@, value: "1"@ };
    assert(edit_arguments(pane@, Seq::<Edit>::empty().push(mark)) == edit_words(pane@, mark));
    if facts.inactive is Some {
        let a = Edit::Assign { name: "window-active-style"@, value: facts.inactive->0@ };
        let b = Edit::Assign {
            name: "@termnav_child_focus_restore_active_style"@,
            value: remembered(opt_text(facts.existing)),
        };
        assert(restyling(facts.inactive->0@, opt_text(facts.existing)) =~= seq![a, b]);
        assert(seq![a, b].push(mark).drop_last() =~= seq![a, b]);
        assert(seq![a, b].drop_last() =~= seq![a]);
    }
    let x = restoring(opt_text(facts.existing));
    let y = Edit::Clear { name: "@termnav_child_focus_restore_active_style"@ };
    let z = Edit::Clear { name: "@termnav_client_unfocused"@ };
    assert(seq![x, y, z].drop_last() =~= seq![x, y]);
    assert(seq![x, y].drop_last() =~= seq![x]);
    assert(edit_arguments(pane@, seq![x, y, z]) == edit_words(pane@, x) + seq![";"@] + edit_words(
        pane@,
        y,
    ) + seq![";"@] + edit_words(pane@, z));
}

/// A pane whose client is focused again loses its mark, and where no lease
/// holds it also the inactive style; where that fails its style is dropped.
pub proof fn lemma_panes_brighten(
    pane: &str,
    leased: bool,
    marked: bool,
    restore: Option<StyleRestore>,
    plan: PanePlan,
)
    requires
        call_ensures(clear_client_unfocused, (pane, leased, marked, &restore), plan),
    ensures
        ({
            let unmark = unsets(pane@, "@termnav_client_unfocused"@);
            let forget = unsets(pane@, "@termnav_child_focus_restore_active_style"@);
            let words = strings(plan.change@);
            &&& leased || !marked ==> words == unmark
            &&& !leased && marked && restore is None ==> words == unmark + seq![";"@] + forget
            &&& !leased && marked && restore is Some ==> words == unmark + seq![";"@] + forget
                + seq![";"@] + (match restored_style(restore->0) {
                Some(style) => sets(pane@, "window-active-style"@, style),
                None => unsets(pane@, "window-active-style"@),
            })
            &&& plan.fallback is Some && strings(plan.fallback->0@) == unsets(
                pane@,
                "window-active-style"@,
            )
        }),
{
    reveal_with_fuel(edit_arguments, 4);
    let x = Edit::Clear { name: "@termnav_client_unfocused"@ };
    let y = Edit::Clear { name: "@termnav_child_focus_restore_active_style"@ };
    assert(seq![x].push(y) =~= seq![x, y]);
    assert(seq![x, y].drop_last() =~= seq![x]);
    if let Some(state) = restore {
        let z = restoring(restored_style(state));
        assert(seq![x].push(y).push(z).drop_last() =~= seq![x, y]);
        assert(edit_arguments(pane@, seq![x].push(y).push(z)) == edit_words(pane@, x) + seq![";"@]
            + edit_words(pane@, y) + seq![";"@] + edit_words(pane@, z));
    }
}

/// How options are asked for: the lease by value, any other option of the pane
/// or of everybody with the given flag; and an option has a value only where it
/// is shown by name.
pub proof fn lemma_option_questions(
    pane: &str,
    option: &str,
    flag: &str,
    local: bool,
    lease: Vec<String>,
    arguments: Vec<String>,
    shown: Option<TmuxOutput>,
    value: Option<TmuxOutput>,
    result: Option<String>,
)
    requires
        call_ensures(lease_query, (pane,), lease),
        call_ensures(option_arguments, (pane, option, local, flag), arguments),
        call_ensures(option_value, (&shown, &value), result),
    ensures
        strings(lease@) == seq!["show-options"@, "-pqv"@, "-t"@, pane@, "@termnav_child_focus"@],
        local ==> strings(arguments@) == seq![
            "show-options"@,
            "-p"@,
            "-t"@,
            pane@,
            flag@,
            option@,
        ],
        !local ==> strings(arguments@) == seq!["show-options"@, "-g"@, flag@, option@],
        result is Some <==> shown is Some && shown->0.success && shown->0.stdout@.len() > 0
            && value is Some && value->0.success,
{
    if local {
        assert(strings(arguments@) =~= seq![
            "show-options"@,
            "-p"@,
            "-t"@,
            pane@,
            flag@,
            option@,
        ]);
    } else {
        assert(strings(arguments@) =~= seq!["show-options"@, "-g"@, flag@, option@]);
    }
}

/// The expiry helper is run by the parent's server, for its own socket and
/// pane, through a shell and past tmux's formats.
pub proof fn lemma_expirers(socket: &str, pane: &str, result: Vec<String>)
    requires
        call_ensures(start_expirer, (socket, pane), result),
    ensures
        strings(result@) == seq![
            "run-shell"@,
            "-b"@,
            "exec "@ + format_escaped(
                command_line(
                    seq![
                        "termnav"@,
                        "tmux"@,
                        "focus"@,
                        "expire"@,
                        "--parent-tmux"@,
                        socket@,
                        "--parent-pane"@,
                        pane@,
                    ],
                ),
            ),
        ],
{
}

/// A pane follows the focus of the clients that show it. A watcher is stopped
/// unless its client is focused, and the pane is brought in line before that,
/// and once more where focus came back meanwhile.
pub proof fn lemma_synchronisation(
    pane: Option<&str>,
    focused: bool,
    sync: Sync,
    focus: Option<bool>,
    begun: Stopping,
    synced: bool,
    next: Stopping,
)
    requires
        call_ensures(sync_client_style, (pane, focused), sync),
        call_ensures(begin_stop, (focus,), begun),
        call_ensures(continue_stop, (synced, focus), next),
    ensures
        sync is Nothing <==> pane is None,
        sync is Brighten <==> pane is Some && focused,
        sync is Dim <==> pane is Some && !focused,
        focus == Some(true) ==> begun == Stopping::Done(0),
        focus != Some(true) ==> begun is Sync,
        focus == Some(true) && synced ==> next is Resync,
        focus == Some(true) && !synced ==> next == Stopping::Done(1),
        focus != Some(true) && synced ==> next == Stopping::Signal(0),
        focus != Some(true) && !synced ==> next == Stopping::Signal(1),
{
}

/// A lease stands where it was written and is guarded: by the helper that it
/// needed, or by the one that still runs.
pub proof fn lemma_publications(written: bool, needed: bool, started: bool, result: Published)
    requires
        call_ensures(judge_publication, (written, needed, started), result),
    ensures
        result is Claimed <==> written && (started || !needed),
        result is Failed <==> !written,
        result is Unguarded <==> written && needed && !started,
{
}

/// A focus message claims with a token and a bounded lease, or releases with a
/// token; anything else is refused.
pub proof fn lemma_focus_messages(message: Json, request: FocusMessage)
    requires
        call_ensures(read_focus_message, (&message,), request),
    ensures
        ({
            let state = text_member(message@, "state"@);
            let token = text_member(message@, "token"@);
            let lease = member(message@, "lease_ms"@);
            let known = token is Some && is_focus_token(token->0);
            &&& request@ is Release <==> known && state == Some("release"@)
            &&& request@ matches FocusRequest::Release { token: t } ==> token == Some(t)
            &&& request@ is Claim <==> known && state == Some("claim"@) && (lease matches Some(
                MemberValue::Number(Some(ms)),
            ) && 50 <= ms <= 30000)
            &&& request@ matches FocusRequest::Claim { token: t, lease_ms } ==> token == Some(t)
                && lease == Some(MemberValue::Number(Some(lease_ms)))
        }),
{
    reveal_strlit("claim");
    reveal_strlit("release");
    assert("claim"@.len() == 5 && "release"@.len() == 7);
}

/// The line that asks a relay for focus says which it is, for which token, and
/// for how long.
pub proof fn lemma_focus_lines(token: &str, lease: Option<u64>, line: String)
    requires
        call_ensures(focus_request_line, (token, lease), line),
    ensures
        lease is Some ==> line@ == json_object(
            seq![
                ("lease_ms"@, MemberValue::Number(lease)),
                ("op"@, MemberValue::Text("focus"@)),
                ("state"@, MemberValue::Text("claim"@)),
                ("token"@, MemberValue::Text(token@)),
                ("v"@, MemberValue::Number(Some(2))),
            ],
        ) + seq!['\n'],
        lease is None ==> line@ == json_object(
            seq![
                ("op"@, MemberValue::Text("focus"@)),
                ("state"@, MemberValue::Text("release"@)),
                ("token"@, MemberValue::Text(token@)),
                ("v"@, MemberValue::Number(Some(2))),
            ],
        ) + seq!['\n'],
{
}

/// A focus message goes to the pane around the relay; without one it goes on
/// to the next relay; a pane that is none is a failure, not a detour.
pub proof fn lemma_focus_routes(in_pane: bool, claims: bool, relay: &str, route: FocusRoute)
    requires
        call_ensures(focus_route, (in_pane, claims, relay), route),
    ensures
        route is Local <==> in_pane,
        route is Fail <==> !in_pane && claims,
        route is Forward <==> !in_pane && !claims && relay@.len() > 0,
        route is Decline <==> !in_pane && !claims && relay@.len() == 0,
{
}

/// A forwarded reply is handed on as it is where it is one that a focus message
/// may have; else the answer is an error.
pub proof fn lemma_forwarded_replies(line: Seq<char>, json: JsonValue)
    ensures
        ({
            let accepted = reply_verdict(line, json);
            let result = text_member(accepted->Ok_0, "result"@);
            &&& accepted is Ok && (result == Some("claimed"@) || result == Some("released"@)
                || result == Some("declined"@) || result == Some("error"@)) ==> forwarded_line(
                line,
                json,
            ) == line
            &&& accepted is Err || result is None || result->0 != "claimed"@ && result->0
                != "released"@ && result->0 != "declined"@ && result->0 != "error"@
                ==> forwarded_line(line, json) == reply_text("error"@)
        }),
{
}

/// A relay did what it was asked for where it says so in that word.
pub proof fn lemma_relay_answers(reply: Option<Json>, claimed: bool, result: bool)
    requires
        call_ensures(relay_updated, (&reply, claimed), result),
    ensures
        reply is None ==> !result,
        reply is Some && claimed ==> (result <==> text_member(reply->0@, "result"@) == Some(
            "claimed"@,
        )),
        reply is Some && !claimed ==> (result <==> text_member(reply->0@, "result"@) == Some(
            "released"@,
        )),
{
}

} // verus!
