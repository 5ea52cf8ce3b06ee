//! What a gesture asks of tmux, of a relay and of the terminal, and how their
//! answers are read.

use vstd::prelude::*;
use vstd::string::*;

use crate::json::{text_member, Json};
use crate::laws::text::{lemma_cut_at, lemma_trimmed_between};
use crate::navigation::outer::{
    relay_gate, relay_outcome, relay_scope, terminal_plan, user_var_value, RelayGate, TerminalFacts,
    TerminalPlan, TerminalRoute,
};
use crate::navigation::system::{
    execute, execution, outcome, window_swap_arguments, Execution, TmuxOutput,
};
use crate::navigation::{Action, Direction, Outcome, Scope};
use crate::relay::server::navigation_result;
use crate::shell::{command_line, lemma_join_round_trip, line_words};
use crate::text::{cut, strings, utf8_lossy, white_space};

verus! {

/// The command that tmux ends up running for the words of a command, where
/// `holds` says which conditions hold of which target. A conditional runs one
/// of its two command lines.
pub open spec fn settled(
    words: Seq<Seq<char>>,
    holds: spec_fn(Option<Seq<char>>, Seq<char>) -> bool,
    depth: nat,
) -> Option<Seq<Seq<char>>>
    decreases depth,
{
    if words.len() == 0 || words[0] != "if-shell"@ {
        Some(words)
    } else if depth == 0 {
        None
    } else if words.len() == 7 && words[1] == "-F"@ && words[2] == "-t"@ {
        let line = if holds(Some(words[3]), words[4]) {
            words[5]
        } else {
            words[6]
        };
        match line_words(line) {
            Some(chosen) => settled(chosen, holds, (depth - 1) as nat),
            None => None,
        }
    } else if words.len() == 5 && words[1] == "-F"@ {
        let line = if holds(None, words[2]) {
            words[3]
        } else {
            words[4]
        };
        match line_words(line) {
            Some(chosen) => settled(chosen, holds, (depth - 1) as nat),
            None => None,
        }
    } else {
        None
    }
}

/// The command that reports that another scope should try.
pub open spec fn says_declined() -> Seq<Seq<char>> {
    seq!["display-message"@, "-p"@, "__TERMNAV_DECLINED__"@]
}

/// The command that reports that the route is unsafe.
pub open spec fn says_error() -> Seq<Seq<char>> {
    seq!["display-message"@, "-p"@, "__TERMNAV_ERROR__"@]
}

proof fn lemma_command_names()
    ensures
        "display-message"@ != "if-shell"@,
        "select-pane"@ != "if-shell"@,
        "swap-pane"@ != "if-shell"@,
        "previous-window"@ != "if-shell"@,
        "next-window"@ != "if-shell"@,
        "swap-window"@ != "if-shell"@,
{
    reveal_strlit("display-message");
    reveal_strlit("if-shell");
    reveal_strlit("select-pane");
    reveal_strlit("swap-pane");
    reveal_strlit("previous-window");
    reveal_strlit("next-window");
    reveal_strlit("swap-window");
    assert("if-shell"@.len() == 8);
    assert("display-message"@.len() == 15);
    assert("select-pane"@.len() == 11);
    assert("swap-pane"@.len() == 9);
    assert("previous-window"@.len() == 15);
    assert("next-window"@.len() == 11);
    assert("swap-window"@.len() == 11);
}

/// The condition under which a pane has a neighbour in a direction.
pub open spec fn has_neighbour(direction: Direction) -> Seq<char> {
    match direction {
        Direction::Left => "#{!=:#{"@ + "pane_at_left"@ + "},1}"@,
        Direction::Down => "#{!=:#{"@ + "pane_at_bottom"@ + "},1}"@,
        Direction::Up => "#{!=:#{"@ + "pane_at_top"@ + "},1}"@,
        _ => "#{!=:#{"@ + "pane_at_right"@ + "},1}"@,
    }
}

/// The command by which a pane gesture in a direction acts on the neighbour on
/// just that side.
pub open spec fn acts_on_neighbour(
    pane: Seq<char>,
    action: Action,
    direction: Direction,
) -> Seq<Seq<char>> {
    if action is PaneSelect {
        match direction {
            Direction::Left => seq!["select-pane"@, "-t"@, pane, "-L"@],
            Direction::Down => seq!["select-pane"@, "-t"@, pane, "-D"@],
            Direction::Up => seq!["select-pane"@, "-t"@, pane, "-U"@],
            _ => seq!["select-pane"@, "-t"@, pane, "-R"@],
        }
    } else {
        match direction {
            Direction::Left => seq!["swap-pane"@, "-s"@, pane, "-t"@, "{left-of}"@],
            Direction::Down => seq!["swap-pane"@, "-s"@, pane, "-t"@, "{down-of}"@],
            Direction::Up => seq!["swap-pane"@, "-s"@, pane, "-t"@, "{up-of}"@],
            _ => seq!["swap-pane"@, "-s"@, pane, "-t"@, "{right-of}"@],
        }
    }
}

/// A pane gesture is one tmux command. While some client sees the pane as the
/// active one, and the pane is not at the edge in that direction, tmux acts on
/// the neighbour in that direction. At the edge the gesture is declined; and
/// where the pane is no longer active, selecting is an error and moving is
/// quietly declined.
pub proof fn lemma_pane_gesture_acts_in_its_direction(
    scope: Scope,
    action: Action,
    direction: Direction,
    plan: Execution,
    holds: spec_fn(Option<Seq<char>>, Seq<char>) -> bool,
)
    requires
        call_ensures(execute, (&scope, action, direction), plan),
        action is PaneSelect || action is PaneMove,
        direction is Left || direction is Down || direction is Up || direction is Right,
    ensures
        plan is Tmux,
        settled(strings(plan->Tmux_0@), holds, 2) == Some(
            if !holds(
                Some(
                    match scope.session {
                        Some(session) => session@ + ":."@ + scope.pane@,
                        None => scope.pane@,
                    },
                ),
                "#{&&:#{>:#{window_active_clients},0},#{pane_active}}"@,
            ) {
                if action is PaneSelect {
                    says_error()
                } else {
                    says_declined()
                }
            } else if !holds(Some(scope.pane@), has_neighbour(direction)) {
                says_declined()
            } else {
                acts_on_neighbour(scope.pane@, action, direction)
            },
        ),
{
    lemma_command_names();
    let arguments = strings(plan->Tmux_0@);
    assert(plan@ == execution(scope, action, direction));
    let act = acts_on_neighbour(scope.pane@, action, direction);
    let inner = seq![
        "if-shell"@,
        "-F"@,
        "-t"@,
        scope.pane@,
        has_neighbour(direction),
        command_line(act),
        command_line(says_declined()),
    ];
    lemma_join_round_trip(act);
    lemma_join_round_trip(says_declined());
    lemma_join_round_trip(says_error());
    lemma_join_round_trip(inner);
    reveal_with_fuel(settled, 3);
    assert(arguments.len() == 7);
    assert(arguments[5] == command_line(inner));
    assert(settled(inner, holds, 1) == Some(
        if holds(Some(scope.pane@), has_neighbour(direction)) {
            act
        } else {
            says_declined()
        },
    ));
}

/// Gestures in different directions are different commands, and so are selecting
/// and moving.
pub proof fn lemma_pane_gestures_differ(
    pane: Seq<char>,
    a: Action,
    b: Action,
    c: Direction,
    d: Direction,
)
    requires
        a is PaneSelect || a is PaneMove,
        b is PaneSelect || b is PaneMove,
        c is Left || c is Down || c is Up || c is Right,
        d is Left || d is Down || d is Up || d is Right,
        acts_on_neighbour(pane, a, c) == acts_on_neighbour(pane, b, d),
    ensures
        a == b,
        c == d,
{
    reveal_strlit("-L");
    reveal_strlit("-D");
    reveal_strlit("-U");
    reveal_strlit("-R");
    reveal_strlit("{left-of}");
    reveal_strlit("{down-of}");
    reveal_strlit("{up-of}");
    reveal_strlit("{right-of}");
    assert("-L"@[1] == 'L' && "-D"@[1] == 'D' && "-U"@[1] == 'U' && "-R"@[1] == 'R');
    assert("{left-of}"@[1] == 'l' && "{down-of}"@[1] == 'd' && "{up-of}"@[1] == 'u'
        && "{right-of}"@[1] == 'r');
    let left = acts_on_neighbour(pane, a, c);
    let right = acts_on_neighbour(pane, b, d);
    assert(left.len() == right.len());
    assert(left[3] == right[3]);
    if a is PaneMove {
        assert(left[4] == right[4]);
    }
}

/// A tab selection switches to the next or the previous window of the scope's
/// own session, while the pane is the active one of the active window and the
/// session has more than one. It needs a session.
pub proof fn lemma_tab_gesture_acts_in_its_direction(
    scope: Scope,
    direction: Direction,
    plan: Execution,
    holds: spec_fn(Option<Seq<char>>, Seq<char>) -> bool,
)
    requires
        call_ensures(execute, (&scope, Action::TabSelect, direction), plan),
        direction is Next || direction is Previous,
    ensures
        scope.session is None ==> plan == Execution::Decided(Outcome::Error),
        scope.session matches Some(session) ==> plan is Tmux && settled(
            strings(plan->Tmux_0@),
            holds,
            2,
        ) == Some(
            if !holds(
                Some(session@ + ":."@ + scope.pane@),
                "#{&&:#{window_active},#{pane_active}}"@,
            ) {
                says_error()
            } else if !holds(None, "#{>:#{session_windows},1}"@) {
                says_declined()
            } else if direction is Next {
                seq!["next-window"@, "-t"@, session@]
            } else {
                seq!["previous-window"@, "-t"@, session@]
            },
        ),
{
    lemma_command_names();
    assert(plan@ == execution(scope, Action::TabSelect, direction));
    if let Some(session) = scope.session {
        let arguments = strings(plan->Tmux_0@);
        let act = if direction is Next {
            seq!["next-window"@, "-t"@, session@]
        } else {
            seq!["previous-window"@, "-t"@, session@]
        };
        let inner = seq![
            "if-shell"@,
            "-F"@,
            "#{>:#{session_windows},1}"@,
            command_line(act),
            command_line(says_declined()),
        ];
        lemma_join_round_trip(act);
        lemma_join_round_trip(says_declined());
        lemma_join_round_trip(says_error());
        lemma_join_round_trip(inner);
        reveal_with_fuel(settled, 3);
        assert(arguments.len() == 7);
        assert(arguments[5] == command_line(inner));
    }
}

/// A tab is moved only in a known session.
pub proof fn lemma_tab_move_needs_a_session(scope: Scope, direction: Direction, plan: Execution)
    requires
        call_ensures(execute, (&scope, Action::TabMove, direction), plan),
    ensures
        plan == (if scope.session is Some {
            Execution::MoveTab
        } else {
            Execution::Decided(Outcome::Error)
        }),
{
}

/// A moved tab changes places with its partner, both named within the session,
/// while the scope is the active one.
pub proof fn lemma_tabs_are_swapped(
    scope: Scope,
    session: &str,
    window: &str,
    partner: &str,
    arguments: Vec<String>,
    holds: spec_fn(Option<Seq<char>>, Seq<char>) -> bool,
)
    requires
        call_ensures(window_swap_arguments, (&scope, session, window, partner), arguments),
    ensures
        settled(strings(arguments@), holds, 1) == Some(
            if holds(
                Some(
                    match scope.session {
                        Some(session) => session@ + ":."@ + scope.pane@,
                        None => scope.pane@,
                    },
                ),
                "#{&&:#{window_active},#{pane_active}}"@,
            ) {
                seq![
                    "swap-window"@,
                    "-d"@,
                    "-s"@,
                    session@ + ":"@ + window@,
                    "-t"@,
                    session@ + ":"@ + partner@,
                ]
            } else {
                says_error()
            },
        ),
{
    lemma_command_names();
    lemma_join_round_trip(
        seq![
            "swap-window"@,
            "-d"@,
            "-s"@,
            session@ + ":"@ + window@,
            "-t"@,
            session@ + ":"@ + partner@,
        ],
    );
    lemma_join_round_trip(says_error());
    reveal_with_fuel(settled, 2);
}

/// What a planned command prints is read as what it means: the two markers
/// whatever the exit status, anything else by the exit status, and no command
/// at all as an error.
pub proof fn lemma_markers_are_read_back(output: TmuxOutput, text: Seq<char>, result: Outcome)
    requires
        call_ensures(outcome, (&Some(output),), result),
        utf8_lossy(output.stdout@) == text + seq!['\n'],
        text.len() > 0,
        !white_space(text[0]) && !white_space(text.last()),
    ensures
        text == "__TERMNAV_DECLINED__"@ ==> result == Outcome::Declined,
        text == "__TERMNAV_ERROR__"@ ==> result == Outcome::Error,
        text != "__TERMNAV_DECLINED__"@ && text != "__TERMNAV_ERROR__"@ ==> result == (
        if output.success {
            Outcome::Handled
        } else {
            Outcome::Error
        }),
{
    reveal_strlit("__TERMNAV_DECLINED__");
    reveal_strlit("__TERMNAV_ERROR__");
    assert("__TERMNAV_DECLINED__"@.len() == 20 && "__TERMNAV_ERROR__"@.len() == 17);
    lemma_trimmed_between(Seq::empty(), text, seq!['\n']);
    assert(Seq::<char>::empty() + text + seq!['\n'] =~= text + seq!['\n']);
}

/// A command that could not be run is an error, and a silent success is a
/// handled gesture.
pub proof fn lemma_silence_is_success(output: Option<TmuxOutput>, result: Outcome)
    requires
        call_ensures(outcome, (&output,), result),
        output matches Some(output) ==> utf8_lossy(output.stdout@).len() == 0,
    ensures
        result == (match output {
            Some(output) if output.success => Outcome::Handled,
            _ => Outcome::Error,
        }),
{
    reveal_strlit("__TERMNAV_DECLINED__");
    reveal_strlit("__TERMNAV_ERROR__");
    assert("__TERMNAV_DECLINED__"@.len() == 20 && "__TERMNAV_ERROR__"@.len() == 17);
    if let Some(output) = output {
        lemma_trimmed_between(Seq::empty(), Seq::empty(), Seq::empty());
        assert(utf8_lossy(output.stdout@) =~= Seq::<char>::empty() + Seq::<char>::empty()
            + Seq::<char>::empty());
    }
}

/// The outcome read from a relay's reply is the outcome that the relay answered
/// with; an armed commit counts as handled, and any other reply is an error.
pub proof fn lemma_relay_outcome_round_trip(
    answered: Outcome,
    result: &'static str,
    reply: Json,
    read: Outcome,
)
    requires
        call_ensures(navigation_result, (answered,), result),
        text_member(reply@, "result"@) == Some(result@),
        call_ensures(relay_outcome, (&reply,), read),
    ensures
        read == answered,
{
    lemma_result_names();
}

/// The names of the results on the wire, and what each is read as.
pub proof fn lemma_relay_outcome_by_name(reply: Json, read: Outcome)
    requires
        call_ensures(relay_outcome, (&reply,), read),
    ensures
        read is Handled <==> text_member(reply@, "result"@) == Some("emitted"@) || text_member(
            reply@,
            "result"@,
        ) == Some("armed"@),
        read is Declined <==> text_member(reply@, "result"@) == Some("declined"@),
{
    lemma_result_names();
}

proof fn lemma_result_names()
    ensures
        "armed"@ != "emitted"@ && "armed"@ != "declined"@ && "armed"@ != "error"@,
        "emitted"@ != "declined"@ && "emitted"@ != "error"@ && "declined"@ != "error"@,
{
    reveal_strlit("armed");
    reveal_strlit("emitted");
    reveal_strlit("declined");
    reveal_strlit("error");
    assert("armed"@.len() == 5 && "armed"@[0] == 'a');
    assert("emitted"@.len() == 7);
    assert("declined"@.len() == 8);
    assert("error"@.len() == 5 && "error"@[0] == 'e');
}

/// A relay result of each kind has its wire name.
pub proof fn lemma_navigation_result_names(answered: Outcome, result: &'static str)
    requires
        call_ensures(navigation_result, (answered,), result),
    ensures
        answered is Handled <==> result@ == "emitted"@,
        answered is Declined <==> result@ == "declined"@,
        answered is Error <==> result@ == "error"@,
{
    lemma_result_names();
}

/// A relay is asked just where the client's process names one and still owns
/// the client's tty; a process that lost the tty fails closed, and without a
/// relay the gesture goes on.
pub proof fn lemma_relay_gate(path: Option<&str>, tty_matches: bool, gate: RelayGate)
    requires
        call_ensures(relay_gate, (path, tty_matches), gate),
    ensures
        gate is Ask <==> path is Some && path->0@.len() > 0 && tty_matches,
        gate is Fail <==> path is Some && path->0@.len() > 0 && !tty_matches,
        gate is Decline <==> path is None || path->0@.len() == 0,
{
}

/// The wire names of the actions that a relay carries; a pane move has none.
pub proof fn lemma_relay_scope(action: Action, name: Option<&'static str>)
    requires
        call_ensures(relay_scope, (action,), name),
    ensures
        action is PaneSelect ==> name is Some && name->0@ == "pane"@,
        action is TabSelect ==> name is Some && name->0@ == "window"@,
        action is TabMove ==> name is Some && name->0@ == "move"@,
        action is PaneMove <==> name is None,
{
}

/// The terminal takes what it owns. A pane move never leaves the host; a
/// terminal inside tmux or screen, and any pane selection, ends the gesture
/// there; VS Code is asked for tab selections only, through its socket with a
/// whole token, else through the devserver where that is configured; any other
/// terminal is told by the user variable of the action.
pub proof fn lemma_terminal_takes_what_it_owns(
    action: Action,
    facts: TerminalFacts,
    plan: TerminalPlan,
)
    requires
        call_ensures(terminal_plan, (action, &facts), plan),
    ensures
        ({
            let editor = "xterm.js"@.is_prefix_of(facts.termtype@) || facts.term_program@
                == "vscode"@;
            let nested = "tmux"@.is_prefix_of(facts.termtype@) || "screen"@.is_prefix_of(
                facts.termtype@,
            );
            let whole = facts.vscode_token@.len() == 64 && forall|i: int|
                0 <= i < 64 ==> ('0' <= #[trigger] facts.vscode_token@[i] <= '9' || 'a'
                    <= facts.vscode_token@[i] <= 'f' || 'A' <= facts.vscode_token@[i] <= 'F');
            &&& action is PaneMove ==> plan == TerminalPlan::Decided(Outcome::Declined)
            &&& action is PaneSelect ==> plan == TerminalPlan::Decided(Outcome::Handled)
            &&& editor && action is TabMove ==> plan == TerminalPlan::Decided(Outcome::Handled)
            &&& editor && action is TabSelect && facts.vscode_socket@.len() > 0 ==> plan == (
            if whole {
                TerminalPlan::VscodeSocket
            } else {
                TerminalPlan::Decided(Outcome::Error)
            })
            &&& editor && action is TabSelect && facts.vscode_socket@.len() == 0 ==> plan == (
            if facts.vscode_fallback@ == "mcp"@ {
                TerminalPlan::VscodeMcp
            } else {
                TerminalPlan::Decided(Outcome::Error)
            })
            &&& !editor && nested && !(action is PaneMove) ==> plan == TerminalPlan::Decided(
                Outcome::Handled,
            )
            &&& !editor && !nested && action is TabSelect ==> plan@ == TerminalRoute::UserVar(
                "TERMNAV_TAB_SELECT"@,
            )
            &&& !editor && !nested && action is TabMove ==> plan@ == TerminalRoute::UserVar(
                "TERMNAV_TAB_MOVE"@,
            )
        }),
{
    let token = facts.vscode_token@;
    assert(crate::navigation::outer::is_token(token) <==> (token.len() == 64 && forall|i: int|
        0 <= i < 64 ==> ('0' <= #[trigger] token[i] <= '9' || 'a' <= token[i] <= 'f' || 'A'
            <= token[i] <= 'F'))) by {
        if token.len() == 64 {
            assert(forall|i: int|
                0 <= i < 64 ==> (crate::navigation::outer::is_hex_digit(#[trigger] token[i]) <==> (
                '0' <= token[i] <= '9' || 'a' <= token[i] <= 'f' || 'A' <= token[i] <= 'F')));
        }
    }
    match plan {
        TerminalPlan::Decided(outcome) => {
            assert(plan@ == TerminalRoute::Decided(outcome));
        },
        TerminalPlan::VscodeSocket => {
            assert(plan@ == TerminalRoute::VscodeSocket);
        },
        TerminalPlan::VscodeMcp => {
            assert(plan@ == TerminalRoute::VscodeMcp);
        },
        TerminalPlan::UserVar(name) => {
            assert(plan@ == TerminalRoute::UserVar(name@));
        },
    }
}

/// The direction that a user variable carries stands before its first colon,
/// under the name of the direction; the stamp is all that follows.
pub proof fn lemma_user_var_carries_the_direction(
    direction: Direction,
    stamp: &str,
    value: String,
)
    requires
        call_ensures(user_var_value, (direction, stamp), value),
    ensures
        cut(value@, ':') == Some(
            (
                match direction {
                    Direction::Left => "left"@,
                    Direction::Down => "down"@,
                    Direction::Up => "up"@,
                    Direction::Right => "right"@,
                    Direction::Next => "next"@,
                    Direction::Previous => "previous"@,
                },
                stamp@,
            ),
        ),
{
    reveal_strlit("left");
    reveal_strlit("down");
    reveal_strlit("up");
    reveal_strlit("right");
    reveal_strlit("next");
    reveal_strlit("previous");
    reveal_strlit(":");
    assert(":"@ =~= seq![':']);
    let name = direction.name();
    assert(!name.contains(':'));
    lemma_cut_at(name, ':', stamp@);
}

} // verus!
