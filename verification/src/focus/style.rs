//! The pane options that focus leases change in tmux, and how each change is
//! taken back.

use vstd::prelude::*;
use vstd::string::*;

use crate::json::{json_object, member_values, write_object, Member, MemberValue};
use crate::shell::command_line;
use crate::text::{joined, opt_text, owned, push_strings, strings};

verus! {

/// The pane option that holds the current lease.
pub const FOCUS_OPTION: &'static str = "@termnav_child_focus";

/// The pane option that marks a pane whose client lost terminal focus.
pub const CLIENT_UNFOCUSED_OPTION: &'static str = "@termnav_client_unfocused";

/// The global option that holds the style of inactive panes.
pub const INACTIVE_STYLE_OPTION: &'static str = "@termnav_inactive_style";

/// The pane option that remembers the style to be restored.
pub const STYLE_RESTORE_OPTION: &'static str = "@termnav_child_focus_restore_active_style";

/// The pane option that is restyled.
pub const WINDOW_ACTIVE_STYLE_OPTION: &'static str = "window-active-style";

/// One change of a pane option.
#[derive(Debug, PartialEq, Eq)]
pub enum Change {
    Assign { name: &'static str, value: String },
    Clear { name: &'static str },
}

/// What a [`Change`] says.
#[verifier::ext_equal]
pub enum Edit {
    Assign { name: Seq<char>, value: Seq<char> },
    Clear { name: Seq<char> },
}

impl View for Change {
    type V = Edit;

    open spec fn view(&self) -> Edit {
        match self {
            Change::Assign { name, value } => Edit::Assign { name: name@, value: value@ },
            Change::Clear { name } => Edit::Clear { name: name@ },
        }
    }
}

/// What changes say.
pub open spec fn edits(changes: Seq<Change>) -> Seq<Edit> {
    Seq::new(changes.len(), |i: int| changes[i]@)
}

/// The options of a pane after one change.
pub open spec fn after_edit(options: Map<Seq<char>, Seq<char>>, edit: Edit) -> Map<
    Seq<char>,
    Seq<char>,
> {
    match edit {
        Edit::Assign { name, value } => options.insert(name, value),
        Edit::Clear { name } => options.remove(name),
    }
}

/// The options of a pane after all changes, in order.
pub open spec fn after_edits(options: Map<Seq<char>, Seq<char>>, changes: Seq<Edit>) -> Map<
    Seq<char>,
    Seq<char>,
>
    decreases changes.len(),
{
    if changes.len() == 0 {
        options
    } else {
        after_edit(after_edits(options, changes.drop_last()), changes.last())
    }
}

/// The tmux words of one change.
pub open spec fn edit_words(pane: Seq<char>, edit: Edit) -> Seq<Seq<char>> {
    match edit {
        Edit::Assign { name, value } => seq!["set-option"@, "-p"@, "-t"@, pane, name, value],
        Edit::Clear { name } => seq!["set-option"@, "-pu"@, "-t"@, pane, name],
    }
}

/// The tmux arguments of several changes, made at once.
pub open spec fn edit_arguments(pane: Seq<char>, changes: Seq<Edit>) -> Seq<Seq<char>>
    decreases changes.len(),
{
    if changes.len() == 0 {
        Seq::empty()
    } else if changes.len() == 1 {
        edit_words(pane, changes[0])
    } else {
        edit_arguments(pane, changes.drop_last()) + seq![";"@] + edit_words(pane, changes.last())
    }
}

/// The tmux command text of several changes, each quoted as a shell would.
pub open spec fn edit_commands(pane: Seq<char>, changes: Seq<Edit>) -> Seq<char> {
    joined(Seq::new(changes.len(), |i: int| command_line(edit_words(pane, changes[i]))), " ; "@)
}

fn words_of_change(pane: &str, change: &Change) -> (words: Vec<String>)
    ensures
        strings(words@) == edit_words(pane@, change@),
{
    match change {
        Change::Assign { name, value } => {
            let words = owned(&vec!["set-option", "-p", "-t", pane, *name, value.as_str()]);
            assert(strings(words@) =~= edit_words(pane@, change@));
            words
        },
        Change::Clear { name } => {
            let words = owned(&vec!["set-option", "-pu", "-t", pane, *name]);
            assert(strings(words@) =~= edit_words(pane@, change@));
            words
        },
    }
}

/// The tmux arguments of several changes, made at once.
pub fn arguments(pane: &str, changes: &Vec<Change>) -> (result: Vec<String>)
    ensures
        strings(result@) == edit_arguments(pane@, edits(changes@)),
{
    let ghost all = edits(changes@);
    let mut result: Vec<String> = Vec::new();
    let mut i: usize = 0;
    assert(strings(result@) =~= edit_arguments(pane@, all.take(0)));
    while i < changes.len()
        invariant
            i <= changes@.len(),
            all == edits(changes@),
            strings(result@) == edit_arguments(pane@, all.take(i as int)),
        decreases changes.len() - i,
    {
        let ghost before = strings(result@);
        let ghost more = all.take(i + 1);
        assert(more.drop_last() =~= all.take(i as int));
        assert(more.last() == changes@[i as int]@);
        if i > 0 {
            result.push(String::from_str(";"));
            assert(strings(result@) =~= before + seq![";"@]);
        }
        let words = words_of_change(pane, &changes[i]);
        push_strings(&mut result, words.as_slice());
        assert(strings(result@) =~= edit_arguments(pane@, more));
        i = i + 1;
    }
    assert(all.take(i as int) =~= all);
    result
}

/// The tmux command text of several changes.
pub fn commands(pane: &str, changes: &Vec<Change>) -> (result: String)
    ensures
        result@ == edit_commands(pane@, edits(changes@)),
{
    let mut parts: Vec<String> = Vec::new();
    let mut i: usize = 0;
    while i < changes.len()
        invariant
            i <= changes@.len(),
            parts@.len() == i,
            forall|j: int|
                0 <= j < i ==> (#[trigger] parts@[j])@ == command_line(
                    edit_words(pane@, changes@[j]@),
                ),
        decreases changes.len() - i,
    {
        let words = words_of_change(pane, &changes[i]);
        parts.push(crate::shell::join(words.as_slice()));
        i = i + 1;
    }
    assert(strings(parts@) =~= Seq::new(
        edits(changes@).len(),
        |i: int| command_line(edit_words(pane@, edits(changes@)[i])),
    ));
    crate::text::join(parts.as_slice(), " ; ")
}

/// The style that a pane had before it was restyled: its own, or none.
#[derive(Debug, PartialEq, Eq)]
pub struct StyleRestore {
    pub had_override: bool,
    pub value: String,
}

/// The members that say which style a pane had: whether it had one of its
/// own, and that style.
pub open spec fn style_members(existing: Option<Seq<char>>) -> Seq<(Seq<char>, MemberValue)> {
    let value = match existing {
        Some(value) => value,
        None => Seq::empty(),
    };
    seq![
        ("had_override"@, MemberValue::Bool(existing is Some)),
        ("value"@, MemberValue::Text(value)),
    ]
}

/// The style that a pane had, as it is remembered in its option.
pub open spec fn remembered(existing: Option<Seq<char>>) -> Seq<char> {
    json_object(style_members(existing))
}

/// The style that a pane had, as it is remembered in its option.
pub fn remember(existing: &Option<String>) -> (text: String)
    ensures
        text@ == remembered(opt_text(*existing)),
{
    let (had_override, value) = match existing {
        Some(value) => (true, String::from_str(value.as_str())),
        None => (false, String::new()),
    };
    let members: Vec<(&str, Member)> = vec![
        ("had_override", Member::Bool(had_override)),
        ("value", Member::Text(value)),
    ];
    assert(value@ =~= style_members(opt_text(*existing))[1].1->Text_0);
    assert(member_values(members@) =~= style_members(opt_text(*existing)));
    write_object(&members)
}

/// The change that gives a pane the style back that it had.
pub open spec fn restoring(existing: Option<Seq<char>>) -> Edit {
    match existing {
        Some(value) => Edit::Assign { name: WINDOW_ACTIVE_STYLE_OPTION@, value },
        None => Edit::Clear { name: WINDOW_ACTIVE_STYLE_OPTION@ },
    }
}

/// The change that gives a pane the style back that it had.
pub fn restore_change(existing: &Option<String>) -> (change: Change)
    ensures
        change@ == restoring(opt_text(*existing)),
{
    match existing {
        Some(value) => Change::Assign { name: WINDOW_ACTIVE_STYLE_OPTION, value: value.clone() },
        None => Change::Clear { name: WINDOW_ACTIVE_STYLE_OPTION },
    }
}

/// The style that a remembered state names.
pub open spec fn restored_style(state: StyleRestore) -> Option<Seq<char>> {
    if state.had_override {
        Some(state.value@)
    } else {
        None
    }
}

/// The style that a remembered state names.
pub fn style_of(state: &StyleRestore) -> (existing: Option<String>)
    ensures
        opt_text(existing) == restored_style(*state),
{
    if state.had_override {
        Some(state.value.clone())
    } else {
        None
    }
}

/// The changes that give a pane the inactive style and remember its own.
pub open spec fn restyling(inactive: Seq<char>, existing: Option<Seq<char>>) -> Seq<Edit> {
    seq![
        Edit::Assign { name: WINDOW_ACTIVE_STYLE_OPTION@, value: inactive },
        Edit::Assign { name: STYLE_RESTORE_OPTION@, value: remembered(existing) },
    ]
}

/// The changes that give a pane the inactive style and remember its own.
pub fn restyle(inactive: &str, existing: &Option<String>) -> (changes: Vec<Change>)
    ensures
        edits(changes@) == restyling(inactive@, opt_text(*existing)),
{
    let mut changes: Vec<Change> = Vec::new();
    changes.push(
        Change::Assign { name: WINDOW_ACTIVE_STYLE_OPTION, value: String::from_str(inactive) },
    );
    changes.push(Change::Assign { name: STYLE_RESTORE_OPTION, value: remember(existing) });
    assert(edits(changes@) =~= restyling(inactive@, opt_text(*existing)));
    changes
}

/// The changes that publish a lease, with the inactive style where the pane is
/// restyled.
pub open spec fn publishing(style: Seq<Edit>, value: Seq<char>) -> Seq<Edit> {
    style.push(Edit::Assign { name: FOCUS_OPTION@, value })
}

/// The changes that take a restyled lease back.
pub open spec fn unpublishing(existing: Option<Seq<char>>, previous: Option<Seq<char>>) -> Seq<
    Edit,
> {
    seq![
        restoring(existing),
        Edit::Clear { name: STYLE_RESTORE_OPTION@ },
        match previous {
            Some(value) => Edit::Assign { name: FOCUS_OPTION@, value },
            None => Edit::Clear { name: FOCUS_OPTION@ },
        },
    ]
}

/// The changes that take a restyled lease back.
pub fn unpublish(existing: &Option<String>, previous: &Option<String>) -> (changes: Vec<Change>)
    ensures
        edits(changes@) == unpublishing(opt_text(*existing), opt_text(*previous)),
{
    let mut changes: Vec<Change> = Vec::new();
    changes.push(restore_change(existing));
    changes.push(Change::Clear { name: STYLE_RESTORE_OPTION });
    changes.push(
        match previous {
            Some(value) => Change::Assign { name: FOCUS_OPTION, value: value.clone() },
            None => Change::Clear { name: FOCUS_OPTION },
        },
    );
    assert(edits(changes@) =~= unpublishing(opt_text(*existing), opt_text(*previous)));
    changes
}

/// The value of an option that may be unset.
pub open spec fn option_in(options: Map<Seq<char>, Seq<char>>, name: Seq<char>) -> Option<
    Seq<char>,
> {
    if options.contains_key(name) {
        Some(options[name])
    } else {
        None
    }
}

proof fn lemma_option_names_distinct()
    ensures
        FOCUS_OPTION@ != STYLE_RESTORE_OPTION@,
        FOCUS_OPTION@ != WINDOW_ACTIVE_STYLE_OPTION@,
        FOCUS_OPTION@ != CLIENT_UNFOCUSED_OPTION@,
        STYLE_RESTORE_OPTION@ != WINDOW_ACTIVE_STYLE_OPTION@,
        STYLE_RESTORE_OPTION@ != CLIENT_UNFOCUSED_OPTION@,
        WINDOW_ACTIVE_STYLE_OPTION@ != CLIENT_UNFOCUSED_OPTION@,
{
    reveal_strlit("@termnav_child_focus");
    reveal_strlit("@termnav_client_unfocused");
    reveal_strlit("@termnav_child_focus_restore_active_style");
    reveal_strlit("window-active-style");
    assert(FOCUS_OPTION@.len() == 20);
    assert(CLIENT_UNFOCUSED_OPTION@.len() == 25);
    assert(STYLE_RESTORE_OPTION@.len() == 41);
    assert(WINDOW_ACTIVE_STYLE_OPTION@.len() == 19);
}

/// Taking a failed lease back leaves the pane exactly as it was, provided that
/// the observed style and lease were the pane's own and no style was
/// remembered before.
pub proof fn lemma_unpublish_restores(
    options: Map<Seq<char>, Seq<char>>,
    inactive: Seq<char>,
    value: Seq<char>,
)
    requires
        !options.contains_key(STYLE_RESTORE_OPTION@),
    ensures
        ({
            let existing = option_in(options, WINDOW_ACTIVE_STYLE_OPTION@);
            let previous = option_in(options, FOCUS_OPTION@);
            after_edits(
                after_edits(options, publishing(restyling(inactive, existing), value)),
                unpublishing(existing, previous),
            ) == options
        }),
{
    lemma_option_names_distinct();
    let existing = option_in(options, WINDOW_ACTIVE_STYLE_OPTION@);
    let previous = option_in(options, FOCUS_OPTION@);
    let first = publishing(restyling(inactive, existing), value);
    let second = unpublishing(existing, previous);
    reveal_with_fuel(after_edits, 4);
    assert(first.drop_last() =~= restyling(inactive, existing));
    let middle = after_edits(options, first);
    assert(after_edits(middle, second) =~= options);
}

/// The changes that end a lease: the lease goes, and with it the inactive
/// style unless the pane's client lost terminal focus. `restore` is what the
/// remembered style decodes to; a marker that does not decode is removed all
/// the same, or it would suppress every future snapshot.
pub open spec fn ending(
    marked: bool,
    unfocused: bool,
    restore: Option<Option<Seq<char>>>,
) -> Seq<Edit> {
    let lease = seq![Edit::Clear { name: FOCUS_OPTION@ }];
    if marked && !unfocused {
        let marker = lease.push(Edit::Clear { name: STYLE_RESTORE_OPTION@ });
        match restore {
            Some(existing) => marker.push(restoring(existing)),
            None => marker,
        }
    } else {
        lease
    }
}

/// What a decoded state says, where there is one.
pub open spec fn decoded_style(state: Option<StyleRestore>) -> Option<Option<Seq<char>>> {
    match state {
        Some(state) => Some(restored_style(state)),
        None => None,
    }
}

/// The changes that end a lease.
pub fn end_lease(marked: bool, unfocused: bool, restore: &Option<StyleRestore>) -> (changes: Vec<
    Change,
>)
    ensures
        edits(changes@) == ending(marked, unfocused, decoded_style(*restore)),
{
    let mut changes: Vec<Change> = Vec::new();
    changes.push(Change::Clear { name: FOCUS_OPTION });
    if marked && !unfocused {
        changes.push(Change::Clear { name: STYLE_RESTORE_OPTION });
        if let Some(state) = restore {
            let existing = style_of(state);
            changes.push(restore_change(&existing));
        }
    }
    assert(edits(changes@) =~= ending(marked, unfocused, decoded_style(*restore)));
    changes
}

/// A lease that restyled a focused pane and then ends leaves the pane as it
/// was, without the lease.
pub proof fn lemma_lease_leaves_no_trace(
    options: Map<Seq<char>, Seq<char>>,
    inactive: Seq<char>,
    value: Seq<char>,
)
    requires
        !options.contains_key(STYLE_RESTORE_OPTION@),
    ensures
        ({
            let existing = option_in(options, WINDOW_ACTIVE_STYLE_OPTION@);
            after_edits(
                after_edits(options, publishing(restyling(inactive, existing), value)),
                ending(true, false, Some(existing)),
            ) == options.remove(FOCUS_OPTION@)
        }),
{
    lemma_option_names_distinct();
    let existing = option_in(options, WINDOW_ACTIVE_STYLE_OPTION@);
    let first = publishing(restyling(inactive, existing), value);
    let second = ending(true, false, Some(existing));
    reveal_with_fuel(after_edits, 4);
    assert(first.drop_last() =~= restyling(inactive, existing));
    let middle = after_edits(options, first);
    let lease = seq![Edit::Clear { name: FOCUS_OPTION@ }];
    let marker = lease.push(Edit::Clear { name: STYLE_RESTORE_OPTION@ });
    assert(second.drop_last() =~= marker);
    assert(marker.drop_last() =~= lease);
    assert(after_edits(middle, second) =~= options.remove(FOCUS_OPTION@));
}

/// The guard under which a lease is ended: it is still this very generation.
pub open spec fn same_generation(value: Seq<char>) -> Seq<char> {
    "#{==:#{"@ + FOCUS_OPTION@ + "},"@ + value + "}"@
}

/// The tmux arguments that end exactly this generation of a lease.
pub open spec fn end_arguments(pane: Seq<char>, value: Seq<char>, changes: Seq<Edit>) -> Seq<
    Seq<char>,
> {
    seq![
        "if-shell"@,
        "-F"@,
        "-t"@,
        pane,
        same_generation(value),
        edit_commands(pane, changes),
        Seq::empty(),
    ]
}

/// The tmux arguments that end exactly this generation of a lease.
pub fn end_lease_arguments(pane: &str, value: &str, changes: &Vec<Change>) -> (result: Vec<String>)
    ensures
        strings(result@) == end_arguments(pane@, value@, edits(changes@)),
{
    let mut condition = String::from_str("#{==:#{");
    condition.append(FOCUS_OPTION);
    condition.append("},");
    condition.append(value);
    condition.append("}");
    let command = commands(pane, changes);
    proof {
        reveal_strlit("");
        assert(""@ =~= Seq::empty());
    }
    let result = owned(
        &vec!["if-shell", "-F", "-t", pane, condition.as_str(), command.as_str(), ""],
    );
    assert(strings(result@) =~= end_arguments(pane@, value@, edits(changes@)));
    result
}

/// The changes that mark a pane whose client lost terminal focus.
pub open spec fn dimming(style: Seq<Edit>) -> Seq<Edit> {
    style.push(Edit::Assign { name: CLIENT_UNFOCUSED_OPTION@, value: "1"@ })
}

/// The changes that take a failed mark back.
pub open spec fn undimming(existing: Option<Seq<char>>) -> Seq<Edit> {
    seq![
        restoring(existing),
        Edit::Clear { name: STYLE_RESTORE_OPTION@ },
        Edit::Clear { name: CLIENT_UNFOCUSED_OPTION@ },
    ]
}

/// The changes that take a failed mark back.
pub fn undim(existing: &Option<String>) -> (changes: Vec<Change>)
    ensures
        edits(changes@) == undimming(opt_text(*existing)),
{
    let mut changes: Vec<Change> = Vec::new();
    changes.push(restore_change(existing));
    changes.push(Change::Clear { name: STYLE_RESTORE_OPTION });
    changes.push(Change::Clear { name: CLIENT_UNFOCUSED_OPTION });
    assert(edits(changes@) =~= undimming(opt_text(*existing)));
    changes
}

/// Taking a failed mark back leaves the pane exactly as it was, provided that
/// it was neither marked nor restyled.
pub proof fn lemma_undim_restores(options: Map<Seq<char>, Seq<char>>, inactive: Seq<char>)
    requires
        !options.contains_key(STYLE_RESTORE_OPTION@),
        !options.contains_key(CLIENT_UNFOCUSED_OPTION@),
    ensures
        ({
            let existing = option_in(options, WINDOW_ACTIVE_STYLE_OPTION@);
            after_edits(
                after_edits(options, dimming(restyling(inactive, existing))),
                undimming(existing),
            ) == options
        }),
{
    lemma_option_names_distinct();
    let existing = option_in(options, WINDOW_ACTIVE_STYLE_OPTION@);
    let first = dimming(restyling(inactive, existing));
    reveal_with_fuel(after_edits, 4);
    assert(first.drop_last() =~= restyling(inactive, existing));
    let middle = after_edits(options, first);
    assert(after_edits(middle, undimming(existing)) =~= options);
}

/// The changes that unmark a pane whose client is focused again. The style
/// comes back unless a lease still holds it.
pub open spec fn brightening(
    leased: bool,
    marked: bool,
    restore: Option<Option<Seq<char>>>,
) -> Seq<Edit> {
    let unmark = seq![Edit::Clear { name: CLIENT_UNFOCUSED_OPTION@ }];
    if !leased && marked {
        let marker = unmark.push(Edit::Clear { name: STYLE_RESTORE_OPTION@ });
        match restore {
            Some(existing) => marker.push(restoring(existing)),
            None => marker,
        }
    } else {
        unmark
    }
}

/// The changes that unmark a pane whose client is focused again.
pub fn brighten(leased: bool, marked: bool, restore: &Option<StyleRestore>) -> (changes: Vec<Change>)
    ensures
        edits(changes@) == brightening(leased, marked, decoded_style(*restore)),
{
    let mut changes: Vec<Change> = Vec::new();
    changes.push(Change::Clear { name: CLIENT_UNFOCUSED_OPTION });
    if !leased && marked {
        changes.push(Change::Clear { name: STYLE_RESTORE_OPTION });
        if let Some(state) = restore {
            let existing = style_of(state);
            changes.push(restore_change(&existing));
        }
    }
    assert(edits(changes@) =~= brightening(leased, marked, decoded_style(*restore)));
    changes
}

/// A pane that was dimmed and then brightened again without a lease is as it
/// was.
pub proof fn lemma_brighten_restores(options: Map<Seq<char>, Seq<char>>, inactive: Seq<char>)
    requires
        !options.contains_key(STYLE_RESTORE_OPTION@),
        !options.contains_key(CLIENT_UNFOCUSED_OPTION@),
    ensures
        ({
            let existing = option_in(options, WINDOW_ACTIVE_STYLE_OPTION@);
            after_edits(
                after_edits(options, dimming(restyling(inactive, existing))),
                brightening(false, true, Some(existing)),
            ) == options
        }),
{
    lemma_option_names_distinct();
    let existing = option_in(options, WINDOW_ACTIVE_STYLE_OPTION@);
    let first = dimming(restyling(inactive, existing));
    let second = brightening(false, true, Some(existing));
    reveal_with_fuel(after_edits, 4);
    assert(first.drop_last() =~= restyling(inactive, existing));
    let middle = after_edits(options, first);
    let unmark = seq![Edit::Clear { name: CLIENT_UNFOCUSED_OPTION@ }];
    let marker = unmark.push(Edit::Clear { name: STYLE_RESTORE_OPTION@ });
    assert(second.drop_last() =~= marker);
    assert(marker.drop_last() =~= unmark);
    assert(after_edits(middle, second) =~= options);
}

/// The changes that drop a pane's style when nothing better is known.
pub fn drop_style() -> (changes: Vec<Change>)
    ensures
        edits(changes@) == seq![Edit::Clear { name: WINDOW_ACTIVE_STYLE_OPTION@ }],
{
    let mut changes: Vec<Change> = Vec::new();
    changes.push(Change::Clear { name: WINDOW_ACTIVE_STYLE_OPTION });
    assert(edits(changes@) =~= seq![Edit::Clear { name: WINDOW_ACTIVE_STYLE_OPTION@ }]);
    changes
}

} // verus!
