//! Where owner-only runtime state lives.

use vstd::prelude::*;
use vstd::string::*;
use vstd::arithmetic::power::pow;
use vstd::utf8::{encode_utf8, is_ascii_chars, is_ascii_chars_encode_utf8};

use crate::paths::{absolute, below, is_absolute, join, lemma_below_parts, parts, parts_of};
use crate::text::{decimal, opt_str, push_decimal, same, texts};

verus! {

/// The longest path of a Unix socket that every platform can bind.
pub const MAX_SOCKET_PATH: usize = 103;

/// What is said of a runtime directory that is not one path segment.
pub const SEGMENT_MESSAGE: &'static str = "runtime directory component must be one path segment";

/// The directory that runtime state is below: an absolute configured one, else
/// the one for temporary files.
pub open spec fn runtime_base(configured: Option<Seq<char>>, temporary: Seq<char>) -> Seq<char> {
    match configured {
        Some(base) if absolute(base) => base,
        _ => temporary,
    }
}

/// The name of a user's directory.
pub open spec fn user_name(uid: u32) -> Seq<char> {
    "termnav-"@ + decimal(uid as nat)
}

fn user_directory_name(uid: u32) -> (name: String)
    ensures
        name@ == user_name(uid),
{
    let mut name = String::from_str("termnav-");
    push_decimal(&mut name, uid as u64);
    name
}

/// The user's directory for runtime state.
pub fn user_directory(configured: Option<&str>, temporary: &str, uid: u32) -> (path: String)
    ensures
        path@ == below(runtime_base(opt_str(configured), temporary@), user_name(uid)),
{
    let base = match configured {
        Some(base) => if is_absolute(base) {
            base
        } else {
            temporary
        },
        None => temporary,
    };
    join(base, user_directory_name(uid).as_str())
}

/// Whether a path names a directory directly below another one: it is not
/// absolute, and it has one part, which is neither the directory itself nor the
/// one above.
pub open spec fn one_segment(path: Seq<char>) -> bool {
    &&& !absolute(path)
    &&& parts(path).len() == 1
    &&& parts(path)[0] != "."@
    &&& parts(path)[0] != ".."@
}

/// Whether a path names a directory directly below another one.
pub fn is_one_segment(path: &str) -> (result: bool)
    ensures
        result == one_segment(path@),
{
    let segments = parts_of(path);
    assert(texts(segments@).len() == segments@.len());
    if is_absolute(path) || segments.len() != 1 {
        return false;
    }
    assert(texts(segments@)[0] == segments@[0]@);
    !same(segments[0], ".") && !same(segments[0], "..")
}

/// The directory of that name directly below another one, where the name can
/// only be one.
pub fn subdirectory(directory: &str, name: &str) -> (path: Option<String>)
    ensures
        match path {
            Some(path) => one_segment(name@) && path@ == below(directory@, name@),
            None => !one_segment(name@),
        },
{
    if is_one_segment(name) {
        Some(join(directory, name))
    } else {
        None
    }
}

/// A directory below another one has the other's parts and exactly one more,
/// which leads neither back nor up: no name escapes the directory.
pub proof fn lemma_subdirectory_stays_beneath(directory: Seq<char>, name: Seq<char>)
    requires
        directory.len() > 0,
        one_segment(name),
    ensures
        parts(below(directory, name)) == parts(directory).push(parts(name)[0]),
        absolute(below(directory, name)) == absolute(directory),
        parts(name)[0] != "."@ && parts(name)[0] != ".."@,
{
    lemma_below_parts(directory, name);
    assert(parts(name) =~= seq![parts(name)[0]]);
    assert(parts(directory) + parts(name) =~= parts(directory).push(parts(name)[0]));
}

/// The directory for a socket of that name: the user's directory where the
/// socket's path is short enough for every platform, else a short one.
pub open spec fn socket_root(directory: Seq<char>, name: Seq<char>, uid: u32) -> Seq<char> {
    if encode_utf8(below(directory, name)).len() <= MAX_SOCKET_PATH {
        directory
    } else {
        below("/tmp"@, user_name(uid))
    }
}

/// The directory for a socket of that name.
pub fn socket_directory(
    configured: Option<&str>,
    temporary: &str,
    uid: u32,
    name: &str,
) -> (path: String)
    ensures
        path@ == socket_root(
            below(runtime_base(opt_str(configured), temporary@), user_name(uid)),
            name@,
            uid,
        ),
{
    let directory = user_directory(configured, temporary, uid);
    let socket = join(directory.as_str(), name);
    if socket.as_str().as_bytes().len() <= MAX_SOCKET_PATH {
        directory
    } else {
        join("/tmp", user_directory_name(uid).as_str())
    }
}

/// The longest name that fits below the short directory of every user.
pub const MAX_SOCKET_NAME: usize = 79;

/// A socket with a plain name of bounded length can be bound on every
/// platform, wherever runtime state is configured to live.
pub proof fn lemma_socket_fits(directory: Seq<char>, name: Seq<char>, uid: u32)
    requires
        is_ascii_chars(name),
        name.len() <= MAX_SOCKET_NAME,
    ensures
        encode_utf8(below(socket_root(directory, name, uid), name)).len() <= MAX_SOCKET_PATH,
{
    if encode_utf8(below(directory, name)).len() > MAX_SOCKET_PATH {
        reveal_strlit("/tmp");
        reveal_strlit("termnav-");
        reveal_strlit("/");
        assert(pow(10, 10) == 10000000000) by {
            reveal_with_fuel(pow, 11);
        }
        lemma_number_short(uid as nat, 9);
        let short = below("/tmp"@, user_name(uid));
        let path = below(short, name);
        assert("/tmp"@.len() == 4 && "termnav-"@.len() == 8 && "/"@.len() == 1);
        assert(user_name(uid)[0] == 't');
        assert(short =~= "/tmp"@ + "/"@ + user_name(uid));
        assert(short.len() <= 23);
        assert(path.len() <= MAX_SOCKET_PATH);
        assert(is_ascii_chars(user_name(uid)));
        assert(is_ascii_chars(short));
        assert(is_ascii_chars(path));
        is_ascii_chars_encode_utf8(path);
    }
}

/// A number below a power of ten has no more digits than that power, all of
/// them ASCII.
proof fn lemma_number_short(n: nat, k: nat)
    requires
        n < pow(10, k + 1),
    ensures
        decimal(n).len() <= k + 1,
        is_ascii_chars(decimal(n)),
    decreases n,
{
    if n >= 10 {
        reveal(pow);
        assert(k > 0) by {
            assert(pow(10, 1) == 10) by {
                reveal_with_fuel(pow, 2);
            }
        }
        assert(pow(10, k + 1) == 10 * pow(10, k));
        lemma_number_short(n / 10, (k - 1) as nat);
        let shorter = decimal(n / 10);
        assert forall|i: int| 0 <= i < decimal(n).len() implies (0 <= #[trigger] decimal(
            n,
        )[i] < 128) by {
            if i < shorter.len() {
                assert(decimal(n)[i] == shorter[i]);
            }
        }
    }
}

} // verus!
