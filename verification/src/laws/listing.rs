//! How a listing is rewritten and laid out, which host a link names, which
//! assets are found, and how JSON is written and searched.

use vstd::prelude::*;
use vstd::string::*;
use vstd::utf8::*;

use crate::assets::{resolve, root, valid_relative};
use crate::bytes::occurs_at;
use crate::commands::eza::{
    added_options, chooses_layout, eza_arguments, hyperlink_argument, layout_choice, link_pattern,
    link_replacement, rewritten, terminal_width,
};
use crate::json::{
    json_char, json_chars, json_members, json_object, json_string, json_value, member, member_from,
    text_member, JsonValue, MemberValue,
};
use crate::laws::text::{lemma_decimal_plain, lemma_number_bound, lemma_trimmed_between};
use crate::links::{host, host_name, remote_host, tmux_host, HOST_VARIABLE};
use crate::navigation::system::TmuxOutput;
use crate::paths::{beneath, parts};
use crate::text::{
    blank, decimal, opt_str, opt_text, strings, trim_end_where, utf8_lossy, white_space,
};

verus! {

/// In a rewritten stream the first occurrence of the pattern is replaced and
/// the rest rewritten; a stream without one is unchanged.
pub proof fn lemma_rewriting(
    before: Seq<u8>,
    pattern: Seq<u8>,
    after: Seq<u8>,
    replacement: Seq<u8>,
)
    requires
        pattern.len() > 0,
        forall|j: int|
            0 <= j < before.len() ==> !#[trigger] occurs_at(before + pattern + after, pattern, j),
    ensures
        rewritten(before + pattern + after, pattern, replacement) == before + replacement
            + rewritten(after, pattern, replacement),
        (forall|j: int| !#[trigger] occurs_at(after, pattern, j)) ==> rewritten(
            after,
            pattern,
            replacement,
        ) == after,
{
    let s = before + pattern + after;
    let n = before.len() as int;
    assert(s.subrange(n, n + pattern.len()) =~= pattern);
    assert(occurs_at(s, pattern, n));
    crate::bytes::lemma_is_first_occurrence(s, pattern, 0, n);
    assert(s.take(n) =~= before);
    assert(s.skip(n + pattern.len()) =~= after);
    if forall|j: int| !#[trigger] occurs_at(after, pattern, j) {
        crate::bytes::lemma_no_occurrence(after, pattern, 0);
    }
}

/// A link of a file without a host becomes one of the same file with the host.
pub proof fn lemma_link_rewriting(host: &str, pattern: Vec<u8>, replacement: Vec<u8>)
    requires
        call_ensures(link_pattern, (), pattern),
        call_ensures(link_replacement, (host,), replacement),
    ensures
        pattern@ == encode_utf8("\u{1b}]8;;file:///"@),
        replacement@ == encode_utf8("\u{1b}]8;;file://"@ + host@ + "/"@),
{
}

/// An option chooses a layout by one of its names, with or without a value, or
/// by one of its letters among other short options; two hyphens end the search.
pub proof fn lemma_layout_options(value: Seq<char>, rest: Seq<char>, i: int)
    ensures
        value == "--oneline"@ || value == "--long"@ || value == "--grid"@ || value == "--tree"@
            || value == "-1"@ || value == "-l"@ || value == "-G"@ || value == "-T"@
            ==> layout_choice(value) == Some(true),
        value == "--oneline="@ + rest || value == "--long="@ + rest || value == "--grid="@ + rest
            || value == "--tree="@ + rest ==> layout_choice(value) == Some(true),
        layout_choice("--"@) == Some(false),
        value.len() > 1 && value[0] == '-' && value[1] != '-' && 0 < i < value.len() && (value[i]
            == '1' || value[i] == 'l' || value[i] == 'G' || value[i] == 'T') ==> layout_choice(
            value,
        ) == Some(true),
        value.len() == 0 || value[0] != '-' ==> layout_choice(value) is None,
        value.len() > 1 && value[0] == '-' && value[1] != '-' && (forall|j: int|
            0 < j < value.len() ==> #[trigger] value[j] != '1' && value[j] != 'l' && value[j] != 'G'
                && value[j] != 'T') ==> layout_choice(value) is None,
{
    reveal_strlit("--oneline");
    reveal_strlit("--long");
    reveal_strlit("--grid");
    reveal_strlit("--tree");
    reveal_strlit("-1");
    reveal_strlit("-l");
    reveal_strlit("-G");
    reveal_strlit("-T");
    reveal_strlit("--");
    reveal_strlit("-");
    reveal_strlit("--oneline=");
    reveal_strlit("--long=");
    reveal_strlit("--grid=");
    reveal_strlit("--tree=");
    assert("--"@.len() == 2 && "--oneline"@.len() == 9 && "--long"@.len() == 6 && "--grid"@.len()
        == 6 && "--tree"@.len() == 6);
    assert("-1"@.len() == 2 && "-l"@.len() == 2 && "-G"@.len() == 2 && "-T"@.len() == 2);
    assert("-1"@[1] == '1' && "-l"@[1] == 'l' && "-G"@[1] == 'G' && "-T"@[1] == 'T' && "--"@[1]
        == '-' && "--"@[0] == '-' && "-"@[0] == '-');
    assert("-1"@[0] == '-' && "-l"@[0] == '-' && "-G"@[0] == '-' && "-T"@[0] == '-');
    assert("--oneline"@[0] == '-' && "--long"@[0] == '-' && "--grid"@[0] == '-' && "--tree"@[0]
        == '-');
    assert("--oneline"@[1] == '-' && "--long"@[1] == '-' && "--grid"@[1] == '-' && "--tree"@[1]
        == '-');
    assert("--oneline="@[0] == '-' && "--long="@[0] == '-' && "--grid="@[0] == '-' && "--tree="@[0]
        == '-');
    assert("--oneline="@[1] == '-' && "--long="@[1] == '-' && "--grid="@[1] == '-' && "--tree="@[1]
        == '-');
    assert("--oneline="@.len() == 10 && "--long="@.len() == 7 && "--grid="@.len() == 7
        && "--tree="@.len() == 7);
    assert("--oneline="@ =~= ("--oneline="@ + rest).subrange(0, 10));
    assert("--long="@ =~= ("--long="@ + rest).subrange(0, 7));
    assert("--grid="@ =~= ("--grid="@ + rest).subrange(0, 7));
    assert("--tree="@ =~= ("--tree="@ + rest).subrange(0, 7));
    if value.len() > 1 && value[0] == '-' && value[1] != '-' {
        assert("-"@ =~= value.subrange(0, 1));
        if 0 < i < value.len() && (value[i] == '1' || value[i] == 'l' || value[i] == 'G' || value[i]
            == 'T') {
            assert(crate::commands::eza::layout_flag(value[i]));
        }
    }
    if value.len() == 0 || value[0] != '-' {
        assert(!"-"@.is_prefix_of(value));
    }
}

/// The first argument that says anything of the layout decides.
pub proof fn lemma_layout_search(value: Seq<char>, rest: Seq<Seq<char>>)
    ensures
        !chooses_layout(Seq::empty()),
        layout_choice(value) matches Some(chosen) ==> chooses_layout(seq![value] + rest) == chosen,
        layout_choice(value) is None ==> chooses_layout(seq![value] + rest) == chooses_layout(rest),
{
    assert((seq![value] + rest).drop_first() =~= rest);
    assert((seq![value] + rest)[0] == value);
}

/// A rewritten listing has links and colours; on a terminal also its width,
/// where that is known, and a grid, unless another layout was chosen. The
/// user's own arguments come last.
pub proof fn lemma_listing_options(
    hyperlink: &str,
    interactive: bool,
    width: Option<u32>,
    arguments: &[String],
    result: Vec<String>,
    accepts: bool,
    option: &'static str,
)
    requires
        call_ensures(eza_arguments, (hyperlink, interactive, width, arguments), result),
        call_ensures(hyperlink_argument, (accepts,), option),
    ensures
        accepts ==> option@ == "--hyperlink=always"@,
        !accepts ==> option@ == "--hyperlink"@,
        ({
            let layout = chooses_layout(strings(arguments@));
            let first = seq![hyperlink@, "--color=always"@];
            let all = strings(result@);
            let own = strings(arguments@);
            &&& !interactive ==> all == first + own
            &&& interactive && width is None && layout ==> all == first + own
            &&& interactive && width is None && !layout ==> all == first + seq!["--grid"@] + own
            &&& interactive && width is Some && layout ==> all == first + seq![
                "--width"@,
                decimal(width->0 as nat),
            ] + own
            &&& interactive && width is Some && !layout ==> all == first + seq![
                "--width"@,
                decimal(width->0 as nat),
                "--grid"@,
            ] + own
        }),
{
    let layout = chooses_layout(strings(arguments@));
    let first = seq![hyperlink@, "--color=always"@];
    let none = Seq::<Seq<char>>::empty();
    let options = added_options(hyperlink@, interactive, width, layout);
    assert(first + none + none =~= first);
    if interactive {
        if width is Some {
            let wide = seq!["--width"@, decimal(width->0 as nat)];
            assert(first + wide + none =~= first + wide);
            assert(first + wide + seq!["--grid"@] =~= first + seq![
                "--width"@,
                decimal(width->0 as nat),
                "--grid"@,
            ]);
        } else {
            assert(first + none + seq!["--grid"@] =~= first + seq!["--grid"@]);
        }
    }
}

/// The width is the one that the environment gives, where that is positive,
/// else what the terminal was asked for.
pub proof fn lemma_widths(
    n: u32,
    m: u32,
    columns: Option<&str>,
    tput: Option<&str>,
    width: Option<u32>,
)
    requires
        call_ensures(terminal_width, (columns, tput), width),
    ensures
        columns is Some && columns->0@ == decimal(n as nat) && n > 0 ==> width == Some(n),
        (columns is None || columns->0@ == decimal(0)) && tput is Some && tput->0@ == decimal(
            m as nat,
        ) + seq!['\n'] ==> width == Some(m),
        columns is None && tput is None ==> width is None,
{
    lemma_number_bound(n as nat, u32::MAX as nat);
    lemma_number_bound(m as nat, u32::MAX as nat);
    lemma_number_bound(0, u32::MAX as nat);
    lemma_decimal_plain(m as nat);
    let text = decimal(m as nat);
    lemma_trimmed_between(Seq::empty(), text, seq!['\n']);
    assert(Seq::<char>::empty() + text + seq!['\n'] =~= text + seq!['\n']);
}

/// The host of a link is the one that was named, else the one that the
/// enclosing server names, else this host where the terminal is elsewhere, by
/// its short name before its full one; and else the local one.
pub proof fn lemma_link_hosts(
    explicit: Option<&str>,
    tmux: Option<&str>,
    over_ssh: bool,
    short: Option<&str>,
    full: Option<&str>,
    found: Option<String>,
    remote: Option<&str>,
    name: String,
)
    requires
        call_ensures(remote_host, (explicit, tmux, over_ssh, short, full), found),
        call_ensures(host, (remote,), name),
    ensures
        explicit is Some && explicit->0@.len() > 0 ==> opt_text(found) == Some(explicit->0@),
        (explicit is None || explicit->0@.len() == 0) && tmux is Some ==> opt_text(found) == Some(
            tmux->0@,
        ),
        (explicit is None || explicit->0@.len() == 0) && tmux is None && !over_ssh ==> found is None,
        (explicit is None || explicit->0@.len() == 0) && tmux is None && over_ssh && short is Some
            ==> opt_text(found) == Some(short->0@),
        (explicit is None || explicit->0@.len() == 0) && tmux is None && over_ssh && short is None
            ==> opt_text(found) == opt_str(full),
        remote is Some ==> name@ == remote->0@,
        remote is None ==> name@ == "localhost"@,
        HOST_VARIABLE@ == "TERMNAV_REMOTE_LINK_HOST"@,
{
}

/// A server names a host by its variable; this host prints its name; an empty
/// name is none.
pub proof fn lemma_named_hosts(
    value: Seq<char>,
    output: TmuxOutput,
    found: Option<String>,
    printed: Option<String>,
)
    requires
        call_ensures(tmux_host, (&Some(output),), found),
        call_ensures(host_name, (&Some(output),), printed),
        value.len() > 0 ==> !white_space(value[0]) && !white_space(value.last()),
    ensures
        !output.success ==> found is None && printed is None,
        output.success && utf8_lossy(output.stdout@) == "TERMNAV_REMOTE_LINK_HOST="@ + value
            + seq!['\n'] ==> opt_text(found) == if value.len() > 0 {
            Some(value)
        } else {
            None
        },
        output.success && utf8_lossy(output.stdout@) == value + seq!['\n'] ==> opt_text(printed)
            == if value.len() > 0 {
            Some(value)
        } else {
            None
        },
{
    reveal_strlit("TERMNAV_REMOTE_LINK_HOST=");
    let prefix = "TERMNAV_REMOTE_LINK_HOST="@;
    assert(prefix.len() == 25 && prefix[24] == '=');
    let line = prefix + value;
    assert(!white_space(line.last()));
    let whole = line + seq!['\n'];
    assert(whole.last() == '\n');
    assert(whole.drop_last() =~= line);
    reveal_with_fuel(trim_end_where, 3);
    assert(trim_end_where(whole, blank()) == line);
    assert(prefix =~= line.subrange(0, 25));
    assert(line.skip(25) =~= value);
    lemma_trimmed_between(Seq::empty(), value, seq!['\n']);
    assert(Seq::<char>::empty() + value + seq!['\n'] =~= value + seq!['\n']);
}

/// The root is the configured one where there is one. An asset is found only
/// beneath it, by a relative path that leads nowhere else.
pub proof fn lemma_assets(
    configured: Option<&str>,
    derived: Option<&str>,
    base: Option<&str>,
    above: &str,
    asset: &str,
    found: Result<String, &'static str>,
    relative: &str,
    valid: bool,
)
    requires
        call_ensures(root, (configured, derived), base),
        call_ensures(resolve, (above, asset), found),
        call_ensures(valid_relative, (relative,), valid),
    ensures
        configured is Some ==> opt_str(base) == Some(configured->0@),
        configured is None ==> opt_str(base) == opt_str(derived),
        found is Ok <==> beneath(asset@, above@),
        found matches Ok(path) ==> path@ == asset@,
        found matches Err(message) ==> message@
            == "asset resolves outside the Termnav provider root"@,
        valid <==> relative@.len() > 0 && relative@[0] != '/' && !parts(relative@).contains("."@)
            && !parts(relative@).contains(".."@),
{
    let all = parts(relative@);
    if all.contains("."@) {
        let i = choose|i: int| 0 <= i < all.len() && all[i] == "."@;
        assert(all[i] == "."@);
    }
    if all.contains(".."@) {
        let i = choose|i: int| 0 <= i < all.len() && all[i] == ".."@;
        assert(all[i] == ".."@);
    }
    if !all.contains("."@) && !all.contains(".."@) {
        assert forall|i: int| 0 <= i < all.len() implies #[trigger] all[i] != "."@ && all[i]
            != ".."@ by {}
    }
}

/// Texts are written in JSON between quotes, character by character: quotes and
/// backslashes behind a backslash, the usual control characters by their
/// letters, the others by their number, and all else as it is.
pub proof fn lemma_json_texts(text: Seq<char>, c: char)
    ensures
        json_string(Seq::empty()) == seq!['"', '"'],
        json_chars(text.push(c)) == json_chars(text) + json_char(c),
        json_string(text) == seq!['"'] + json_chars(text) + seq!['"'],
        json_char('"') == seq!['\\', '"'],
        json_char('\\') == seq!['\\', '\\'],
        json_char('\n') == seq!['\\', 'n'],
        json_char('\t') == seq!['\\', 't'],
        json_char('\r') == seq!['\\', 'r'],
        c as int >= 32 && c != '"' && c != '\\' ==> json_char(c) == seq![c],
        (c as int) < 32 ==> json_char(c)[0] == '\\' && json_char(c).len() >= 2,
{
    assert(text.push(c).drop_last() =~= text);
    assert(json_string(Seq::empty()) =~= seq!['"', '"']);
}

/// An object is written member by member, with commas between, each a name, a
/// colon and a value.
pub proof fn lemma_json_objects(
    members: Seq<(Seq<char>, MemberValue)>,
    name: Seq<char>,
    value: MemberValue,
    n: u64,
)
    ensures
        json_object(members) == seq!['{'] + json_members(members) + seq!['}'],
        json_members(seq![(name, value)]) == json_string(name) + seq![':'] + json_value(value),
        members.len() > 0 ==> json_members(members.push((name, value))) == json_members(members)
            + seq![','] + json_string(name) + seq![':'] + json_value(value),
        json_value(MemberValue::Bool(true)) == "true"@,
        json_value(MemberValue::Bool(false)) == "false"@,
        json_value(MemberValue::Text(name)) == json_string(name),
        json_value(MemberValue::Number(Some(n))) == decimal(n as nat),
{
    assert(members.push((name, value)).drop_last() =~= members);
    let one = seq![(name, value)];
    assert(one.last() == (name, value));
    assert(Seq::<char>::empty() + json_string(name) + seq![':'] + json_value(value)
        =~= json_string(name) + seq![':'] + json_value(value));
}

proof fn lemma_member_from(
    members: Seq<(Seq<char>, MemberValue)>,
    name: Seq<char>,
    i: int,
    k: int,
)
    requires
        0 <= i <= k < members.len(),
        members[k].0 == name,
        forall|j: int| i <= j < k ==> (#[trigger] members[j]).0 != name,
    ensures
        member_from(members, name, i) == Some(members[k].1),
    decreases k - i,
{
    if i < k {
        lemma_member_from(members, name, i + 1, k);
    }
}

/// A member is found by its name; only an object has members, and only a text
/// is one as a text.
pub proof fn lemma_json_members(
    members: Seq<(Seq<char>, MemberValue)>,
    name: Seq<char>,
    k: int,
    json: JsonValue,
)
    requires
        0 <= k < members.len(),
        members[k].0 == name,
        forall|j: int| 0 <= j < k ==> (#[trigger] members[j]).0 != name,
    ensures
        member(JsonValue::Object(members), name) == Some(members[k].1),
        !(json is Object) ==> member(json, name) is None && text_member(json, name) is None,
        members[k].1 matches MemberValue::Text(text) ==> text_member(
            JsonValue::Object(members),
            name,
        ) == Some(text),
        !(members[k].1 is Text) ==> text_member(JsonValue::Object(members), name) is None,
{
    lemma_member_from(members, name, 0, k);
}

} // verus!
