//! Ctrl-click target recognition.
//!
//! tmux supplies several imperfect views of a click: a semantic hyperlink, a
//! word, a physical line, and optionally a pane capture. Resolution proceeds
//! from the most authoritative source to conservative text heuristics. The
//! output is typed as a browser URL or Neovim file request so transport policy
//! stays out of the parser.
//!
//! Facts that only the host knows (the pane contents, the names of this host,
//! what an installed detector says of a token) are asked for one at a time:
//! [`resolve`] either settles the click or names the [`Question`] it needs
//! answered in [`Knowledge`].

pub mod capture;
pub mod dispatch;
pub mod hyperlink;
pub mod tokens;

pub use dispatch::follow;

use vstd::prelude::*;
use vstd::string::*;

use crate::click::capture::{
    click_row, column_candidates, from_joined_capture, is_click_row, joined_target,
    lemma_click_row_unique,
};
use crate::click::hyperlink::{from_hyperlink, known_names, link_target};
use crate::click::tokens::{from_line, from_token, is_quote, line_target, token_target};
use crate::text::{chars_of, same, strings};

verus! {

/// Destination selected from click metadata.
#[derive(Debug, PartialEq, Eq)]
pub enum Target {
    /// URL for the outer terminal to open locally.
    Url(String),
    /// File target and optional remote host context for Neovim.
    File {
        /// Path with optional line and column suffix.
        target: String,
        /// `terminal` or `remote`.
        source: String,
        /// Remote host when `source` is `remote`.
        context: String,
    },
}

impl Clone for Target {
    fn clone(&self) -> (copy: Self)
        ensures
            copy@ == self@,
    {
        match self {
            Target::Url(url) => Target::Url(url.clone()),
            Target::File { target, source, context } => Target::File {
                target: target.clone(),
                source: source.clone(),
                context: context.clone(),
            },
        }
    }
}

/// What a [`Target`] denotes.
#[verifier::ext_equal]
pub enum Destination {
    Url(Seq<char>),
    File { target: Seq<char>, source: Seq<char>, context: Seq<char> },
}

impl View for Target {
    type V = Destination;

    open spec fn view(&self) -> Destination {
        match self {
            Target::Url(url) => Destination::Url(url@),
            Target::File { target, source, context } => Destination::File {
                target: target@,
                source: source@,
                context: context@,
            },
        }
    }
}

/// What an optional [`Target`] denotes.
pub open spec fn destination(target: Option<Target>) -> Option<Destination> {
    match target {
        Some(target) => Some(target@),
        None => None,
    }
}

/// A file of the host that the terminal shows.
pub open spec fn terminal_file(target: Seq<char>) -> Destination {
    Destination::File { target, source: "terminal"@, context: Seq::empty() }
}

/// What an installed detector said of one token.
#[derive(Debug)]
pub struct Detection {
    /// The token without surrounding punctuation.
    pub token: String,
    /// The token as it was found.
    pub original: String,
    /// The target that the detector recognised, if any.
    pub target: Option<Target>,
}

/// What is known of the installed token detectors.
#[derive(Debug)]
pub enum Detectors {
    /// No detector is installed.
    Absent,
    /// Detectors are installed, and these tokens were shown to them.
    Asked(Vec<Detection>),
}

/// What is known of the clicked pane.
#[derive(Debug)]
pub enum Panes {
    /// The pane was not captured yet.
    Unknown,
    /// The pane cannot be captured.
    Unavailable,
    /// The rows as displayed, and with wrapped lines joined.
    Captured { physical: Vec<String>, joined: Vec<String> },
}

/// The facts gathered about the host so far.
#[derive(Debug)]
pub struct Knowledge {
    /// The contents of the clicked pane.
    pub panes: Panes,
    /// The names that denote this host, once they are known.
    pub local_names: Option<Vec<String>>,
    /// The installed token detectors.
    pub detectors: Detectors,
}

/// A fact that only the host can supply.
#[derive(Debug, PartialEq, Eq)]
pub enum Question {
    /// The contents of the clicked pane.
    Capture,
    /// The names that denote this host.
    LocalNames,
    /// What the installed detectors say of a token.
    Detector { token: String, original: String },
}

/// What a [`Question`] asks.
#[verifier::ext_equal]
pub enum Query {
    Capture,
    LocalNames,
    Detector { token: Seq<char>, original: Seq<char> },
}

impl View for Question {
    type V = Query;

    open spec fn view(&self) -> Query {
        match self {
            Question::Capture => Query::Capture,
            Question::LocalNames => Query::LocalNames,
            Question::Detector { token, original } => Query::Detector {
                token: token@,
                original: original@,
            },
        }
    }
}

/// What an examination found.
#[derive(Debug, PartialEq, Eq)]
pub enum Finding {
    /// The click is settled: it has this target, or none.
    Settled(Option<Target>),
    /// The click cannot be settled before the question is answered.
    Open(Question),
}

/// What a [`Finding`] says.
#[verifier::ext_equal]
pub enum Verdict {
    Settled(Option<Destination>),
    Open(Query),
}

impl View for Finding {
    type V = Verdict;

    open spec fn view(&self) -> Verdict {
        match self {
            Finding::Settled(target) => Verdict::Settled(destination(*target)),
            Finding::Open(question) => Verdict::Open(question@),
        }
    }
}

/// What the detections say of a token: the first entry for it.
pub open spec fn detection(
    known: Seq<Detection>,
    token: Seq<char>,
    original: Seq<char>,
) -> Option<Option<Destination>>
    decreases known.len(),
{
    if known.len() == 0 {
        None
    } else if known[0].token@ == token && known[0].original@ == original {
        Some(destination(known[0].target))
    } else {
        detection(known.drop_first(), token, original)
    }
}

/// What the installed detectors make of a token.
pub open spec fn detected(detectors: Detectors, token: Seq<char>, original: Seq<char>) -> Verdict {
    match detectors {
        Detectors::Absent => Verdict::Settled(None),
        Detectors::Asked(known) => match detection(known@, token, original) {
            Some(target) => Verdict::Settled(target),
            None => Verdict::Open(Query::Detector { token, original }),
        },
    }
}

/// What the installed detectors make of a token.
pub fn extension_target(detectors: &Detectors, token: &str, original: &str) -> (finding: Finding)
    ensures
        finding@ == detected(*detectors, token@, original@),
{
    match detectors {
        Detectors::Absent => Finding::Settled(None),
        Detectors::Asked(known) => {
            let mut i: usize = 0;
            assert(known@.skip(0) =~= known@);
            while i < known.len()
                invariant
                    i <= known.len(),
                    *detectors == Detectors::Asked(*known),
                    detection(known@, token@, original@) == detection(
                        known@.skip(i as int),
                        token@,
                        original@,
                    ),
                decreases known.len() - i,
            {
                let entry = &known[i];
                assert(known@.skip(i as int)[0] == *entry);
                if same(entry.token.as_str(), token) && same(entry.original.as_str(), original) {
                    return Finding::Settled(
                        match &entry.target {
                            Some(target) => Some(target.clone()),
                            None => None,
                        },
                    );
                }
                assert(known@.skip(i as int).drop_first() =~= known@.skip(i + 1));
                i = i + 1;
            }
            assert(known@.skip(i as int) =~= Seq::empty());
            Finding::Open(
                Question::Detector {
                    token: String::from_str(token),
                    original: String::from_str(original),
                },
            )
        },
    }
}

/// A file of the host that the terminal shows.
pub fn local_file(target: String) -> (result: Target)
    ensures
        result@ == terminal_file(target@),
{
    let context = String::new();
    Target::File { target, source: String::from_str("terminal"), context }
}

/// Raw fields supplied by the tmux mouse binding.
#[derive(Debug)]
pub struct Input {
    /// OSC-8 hyperlink under the pointer.
    pub hyperlink: String,
    /// tmux's word under the pointer.
    pub word: String,
    /// Physical line under the pointer.
    pub line: String,
    /// Horizontal click coordinate.
    pub x: Option<usize>,
    /// Pane working directory.
    pub cwd: String,
    /// Exact client tty that received the click.
    pub client_tty: String,
    /// Clicked pane identifier.
    pub pane: String,
    /// Vertical click coordinate.
    pub y: Option<usize>,
    /// Pane top offset within the window.
    pub pane_top: Option<usize>,
    /// Pane left offset within the window.
    pub pane_left: Option<usize>,
}

impl Default for Input {
    fn default() -> (input: Self)
        ensures
            input.hyperlink@.len() == 0,
            input.word@.len() == 0,
            input.line@.len() == 0,
            input.x is None,
            input.cwd@.len() == 0,
            input.client_tty@.len() == 0,
            input.pane@.len() == 0,
            input.y is None,
            input.pane_top is None,
            input.pane_left is None,
    {
        Input {
            hyperlink: String::new(),
            word: String::new(),
            line: String::new(),
            x: None,
            cwd: String::new(),
            client_tty: String::new(),
            pane: String::new(),
            y: None,
            pane_top: None,
            pane_left: None,
        }
    }
}

/// The first verdict, unless it settles that there is no target.
pub open spec fn or_else(first: Verdict, second: Verdict) -> Verdict {
    match first {
        Verdict::Settled(None) => second,
        decided => decided,
    }
}

/// What the first column that gives a target denotes.
pub open spec fn column_target(
    detectors: Detectors,
    rows: Seq<Seq<char>>,
    joined: Seq<Seq<char>>,
    row: int,
    columns: Seq<int>,
) -> Verdict
    decreases columns.len(),
{
    if columns.len() == 0 {
        Verdict::Settled(None)
    } else {
        or_else(
            joined_target(detectors, rows, joined, row, columns[0]),
            column_target(detectors, rows, joined, row, columns.drop_first()),
        )
    }
}

/// The clicked row of a captured pane.
pub open spec fn clicked(input: Input, rows: Seq<Seq<char>>) -> Option<int> {
    choose|row: Option<int>| is_click_row(rows, input.y, input.line@, input.pane_top, row)
}

/// What the captured pane says of the click.
pub open spec fn capture_target(input: Input, known: Knowledge) -> Verdict {
    match (input.x, known.panes) {
        (None, _) => Verdict::Settled(None),
        (_, Panes::Unknown) => Verdict::Open(Query::Capture),
        (_, Panes::Unavailable) => Verdict::Settled(None),
        (Some(x), Panes::Captured { physical, joined }) => match clicked(
            input,
            strings(physical@),
        ) {
            None => Verdict::Settled(None),
            Some(row) => column_target(
                known.detectors,
                strings(physical@),
                strings(joined@),
                row,
                column_candidates(x, input.pane_left),
            ),
        },
    }
}

/// Whether the reported line holds a quote, so that its tokens are better
/// than tmux's own idea of a word.
pub open spec fn quotes(line: Seq<char>) -> bool {
    exists|i: int| 0 <= i < line.len() && is_quote(#[trigger] line[i])
}

/// What the reported line says of the click.
pub open spec fn reported_line_target(input: Input, known: Knowledge) -> Verdict {
    match input.x {
        Some(x) => line_target(known.detectors, input.line@, x as int),
        None => Verdict::Settled(None),
    }
}

/// What the reported word says of the click.
pub open spec fn word_target(input: Input, known: Knowledge) -> Verdict {
    if input.word@.len() > 0 {
        token_target(known.detectors, input.word@)
    } else {
        Verdict::Settled(None)
    }
}

/// What the visible text says of the click. The word is asked after a line
/// with quotes and before one without.
pub open spec fn text_target(input: Input, known: Knowledge) -> Verdict {
    if quotes(input.line@) {
        or_else(reported_line_target(input, known), word_target(input, known))
    } else {
        or_else(word_target(input, known), reported_line_target(input, known))
    }
}

/// What a click denotes: the hyperlink, then the captured pane, then the
/// visible text.
pub open spec fn click_verdict(input: Input, known: Knowledge) -> Verdict {
    or_else(
        if input.hyperlink@.len() > 0 {
            link_target(known_names(known.local_names), input.hyperlink@)
        } else {
            Verdict::Settled(None)
        },
        or_else(
            if input.pane@.len() > 0 {
                capture_target(input, known)
            } else {
                Verdict::Settled(None)
            },
            text_target(input, known),
        ),
    )
}

/// The knowledge of a host without a pane to capture, names or detectors.
pub open spec fn isolated(known: Knowledge) -> bool {
    &&& known.panes is Unavailable
    &&& known.local_names matches Some(names) && names@.len() == 0
    &&& known.detectors is Absent
}

/// On such a host every click is settled at once.
pub proof fn lemma_isolated_settles(input: Input, known: Knowledge)
    requires
        isolated(known),
    ensures
        click_verdict(input, known) is Settled,
{
}

/// A semantic hyperlink that settles on a target wins over everything else.
pub proof fn lemma_hyperlink_wins(input: Input, known: Knowledge, target: Destination)
    requires
        input.hyperlink@.len() > 0,
        link_target(known_names(known.local_names), input.hyperlink@) == Verdict::Settled(
            Some(target),
        ),
    ensures
        click_verdict(input, known) == Verdict::Settled(Some(target)),
{
}

fn has_quote(line: &str) -> (result: bool)
    ensures
        result == quotes(line@),
{
    let chars = chars_of(line);
    let mut i: usize = 0;
    while i < chars.len()
        invariant
            i <= chars.len(),
            chars@ == line@,
            forall|j: int| 0 <= j < i ==> !is_quote(#[trigger] chars@[j]),
        decreases chars.len() - i,
    {
        let c = chars[i];
        if c == '\'' || c == '"' || c == '`' {
            assert(is_quote(line@[i as int]));
            return true;
        }
        i = i + 1;
    }
    false
}

fn from_capture(input: &Input, known: &Knowledge) -> (finding: Finding)
    ensures
        finding@ == capture_target(*input, *known),
{
    let x: usize = match input.x {
        Some(x) => x,
        None => {
            return Finding::Settled(None);
        },
    };
    match &known.panes {
        Panes::Unknown => Finding::Open(Question::Capture),
        Panes::Unavailable => Finding::Settled(None),
        Panes::Captured { physical, joined } => {
            let row = click_row(
                physical.as_slice(),
                input.y,
                input.line.as_str(),
                input.pane_top,
            );
            proof {
                let rows = strings(physical@);
                let found = match row {
                    Some(row) => Some(row as int),
                    None => None,
                };
                lemma_click_row_unique(
                    rows,
                    input.y,
                    input.line@,
                    input.pane_top,
                    found,
                    clicked(*input, rows),
                );
            }
            match row {
                None => Finding::Settled(None),
                Some(row) => {
                    let mut columns: Vec<usize> = vec![x];
                    if let Some(left) = input.pane_left {
                        if x >= left {
                            columns.push(x - left);
                            if x > left {
                                columns.push(x - left - 1);
                            }
                        }
                    }
                    let ghost all = capture::numbers(columns@);
                    assert(all =~= column_candidates(x, input.pane_left));
                    let mut i: usize = 0;
                    assert(all.skip(0) =~= all);
                    while i < columns.len()
                        invariant
                            i <= columns.len(),
                            known.panes == (Panes::Captured {
                                physical: *physical,
                                joined: *joined,
                            }),
                            all == capture::numbers(columns@),
                            capture_target(*input, *known) == column_target(
                                known.detectors,
                                strings(physical@),
                                strings(joined@),
                                row as int,
                                all.skip(i as int),
                            ),
                        decreases columns.len() - i,
                    {
                        assert(all.skip(i as int)[0] == columns@[i as int]);
                        assert(all.skip(i as int).drop_first() =~= all.skip(i + 1));
                        match from_joined_capture(
                            &known.detectors,
                            physical.as_slice(),
                            joined.as_slice(),
                            row,
                            columns[i],
                        ) {
                            Finding::Settled(None) => {},
                            decided => {
                                return decided;
                            },
                        }
                        i = i + 1;
                    }
                    assert(all.skip(i as int) =~= Seq::empty());
                    Finding::Settled(None)
                },
            }
        },
    }
}

fn from_reported_line(input: &Input, known: &Knowledge) -> (finding: Finding)
    ensures
        finding@ == reported_line_target(*input, *known),
{
    match input.x {
        Some(x) => from_line(&known.detectors, input.line.as_str(), x),
        None => Finding::Settled(None),
    }
}

fn from_word(input: &Input, known: &Knowledge) -> (finding: Finding)
    ensures
        finding@ == word_target(*input, *known),
{
    if input.word.as_str().is_empty() {
        Finding::Settled(None)
    } else {
        from_token(&known.detectors, input.word.as_str())
    }
}

/// Resolve click metadata without performing terminal or editor side effects:
/// settle it, or ask for the first fact about the host that decides and is not
/// known yet.
#[must_use]
pub fn resolve(input: &Input, known: &Knowledge) -> (finding: Finding)
    ensures
        finding@ == click_verdict(*input, *known),
{
    if !input.hyperlink.as_str().is_empty() {
        match from_hyperlink(&known.local_names, input.hyperlink.as_str()) {
            Finding::Settled(None) => {},
            decided => {
                return decided;
            },
        }
    }
    if !input.pane.as_str().is_empty() {
        match from_capture(input, known) {
            Finding::Settled(None) => {},
            decided => {
                return decided;
            },
        }
    }
    if has_quote(input.line.as_str()) {
        match from_reported_line(input, known) {
            Finding::Settled(None) => from_word(input, known),
            decided => decided,
        }
    } else {
        match from_word(input, known) {
            Finding::Settled(None) => from_reported_line(input, known),
            decided => decided,
        }
    }
}

} // verus!
